[package]
name = "corpus_search"
version = "0.1.0"
edition = "2021"
publish = false

[dependencies]
rust-stemmers = "1"
strsim = "*"
walkdir = "2"
memmap = "0.7"
once_cell = "1"
serde_json = "1"
