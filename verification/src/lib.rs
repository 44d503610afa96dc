//! A full-text search index held in memory: documents are split into stemmed
//! terms, queries are resolved against the vocabulary, and matching documents
//! are handed out with what their BM25 score is made of.

pub mod corpus;
pub mod database;
pub mod distance;
pub mod idf;
pub mod ranking;
pub mod resolve;
pub mod scoring;
pub mod service;
pub mod snippet;
pub mod tally;
pub mod text;
