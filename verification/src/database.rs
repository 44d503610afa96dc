//! The database: a corpus, the table of document frequencies that belongs
//! to it, and the cache of stems.

use crate::corpus::{
    corpus_length, corpus_of, files_of, init_corpus, Corpus, DocumentView, SourceFile,
};
use crate::idf::{calculate_idf, idf_of, IdfTable};
use crate::resolve::{
    closest, remember, remember_all, resolve_query, resolved_terms, suggest_words, suggested_terms,
    CachedStem, StemCache,
};
use crate::scoring::{calculate_bm25, matches_of, matches_view, DocumentMatch, MatchView};
use crate::tally::terms_of;
use crate::text::{stem_of, views_of};
use vstd::prelude::*;

verus! {

/// What a `Database` holds: the corpus and the stem cache. The table of
/// document frequencies follows from the corpus.
pub struct DatabaseView {
    pub corpus: Seq<DocumentView>,
    pub cache: Seq<CachedStem>,
}

/// What a `SearchOutcome` holds.
pub struct OutcomeView {
    pub resolved: Seq<Seq<char>>,
    pub suggestions: Seq<Seq<char>>,
    pub matches: Seq<MatchView>,
    pub documents: nat,
    pub total_length: nat,
}

/// The outcome of searching `corpus` for `query`.
pub open spec fn search_of(corpus: Seq<DocumentView>, query: Seq<Seq<char>>) -> OutcomeView {
    let idf = idf_of(corpus);
    let resolved = resolved_terms(query, idf.frequencies);
    OutcomeView {
        resolved,
        suggestions: suggested_terms(query, idf.frequencies),
        matches: matches_of(corpus, resolved, idf),
        documents: corpus.len(),
        total_length: corpus_length(corpus),
    }
}

/// The outcome of a search is a function of the corpus and the query alone.
/// A search leaves the corpus as it was, so the same query, asked again,
/// has the same resolved terms, the same suggestions and the same matches
/// in the same order, whatever the stem cache has taken up in between.
pub proof fn lemma_search_repeats(before: DatabaseView, after: DatabaseView, query: Seq<Seq<char>>)
    requires
        after.corpus == before.corpus,
    ensures
        search_of(after.corpus, query) == search_of(before.corpus, query),
{
}

/// What one search found.
#[derive(Clone, Debug, PartialEq, Eq)]
pub struct SearchOutcome {
    /// The terms that stood for the query.
    pub resolved: Vec<String>,
    /// The terms that were put in the place of unknown tokens.
    pub suggestions: Vec<String>,
    /// The documents that hold a resolved term, in the order of the corpus,
    /// each with the summands of its score.
    pub matches: Vec<DocumentMatch>,
    /// The number of documents in the corpus.
    pub documents: usize,
    /// The sum of the lengths of all documents.
    pub total_length: u128,
}

impl View for SearchOutcome {
    type V = OutcomeView;

    open spec fn view(&self) -> OutcomeView {
        OutcomeView {
            resolved: views_of(self.resolved@),
            suggestions: views_of(self.suggestions@),
            matches: matches_view(self.matches@),
            documents: self.documents as nat,
            total_length: self.total_length as nat,
        }
    }
}

/// A corpus with its table of document frequencies and the stem cache.
pub struct Database {
    corpus: Corpus,
    idf: IdfTable,
    stem_cache: StemCache,
}

impl View for Database {
    type V = DatabaseView;

    closed spec fn view(&self) -> DatabaseView {
        DatabaseView { corpus: self.corpus@, cache: self.stem_cache@ }
    }
}

impl Database {
    /// The parts are well formed, and the table is the one that belongs to
    /// the corpus.
    pub closed spec fn wf(&self) -> bool {
        &&& self.corpus.wf()
        &&& self.idf.wf()
        &&& self.idf@ == idf_of(self.corpus@)
        &&& self.stem_cache.wf()
    }

    /// Indexes the files of one directory walk, with an empty stem cache.
    pub fn new(files: &Vec<SourceFile>) -> (database: Database)
        ensures
            database.wf(),
            database@.corpus == corpus_of(files_of(files@)),
            database@.cache == Seq::<CachedStem>::empty(),
    {
        let corpus = init_corpus(files);
        let idf = calculate_idf(&corpus);
        Database { corpus, idf, stem_cache: StemCache::new() }
    }

    /// Replaces the corpus and its table by those of another directory walk.
    /// Nothing of the earlier corpus is kept; the stem cache stays.
    pub fn reselect(self, files: &Vec<SourceFile>) -> (database: Database)
        requires
            self.wf(),
        ensures
            database.wf(),
            database@.corpus == corpus_of(files_of(files@)),
            database@.cache == self@.cache,
    {
        let corpus = init_corpus(files);
        let idf = calculate_idf(&corpus);
        Database { corpus, idf, stem_cache: self.stem_cache }
    }

    /// The corpus.
    pub fn corpus(&self) -> (corpus: &Corpus)
        ensures
            corpus@ == self@.corpus,
            self.wf() ==> corpus.wf(),
    {
        &self.corpus
    }

    /// The table of document frequencies.
    pub fn idf(&self) -> (idf: &IdfTable)
        ensures
            self.wf() ==> idf.wf() && idf@ == idf_of(self@.corpus),
    {
        &self.idf
    }

    /// The cache of stems.
    pub fn stem_cache(&self) -> (cache: &StemCache)
        ensures
            cache@ == self@.cache,
            self.wf() ==> cache.wf(),
    {
        &self.stem_cache
    }

    /// The stem of `word`, through the cache.
    pub fn stem_word(&mut self, word: &str) -> (stem: String)
        requires
            old(self).wf(),
        ensures
            final(self).wf(),
            stem@ == stem_of(word@),
            final(self)@.corpus == old(self)@.corpus,
            final(self)@.cache == remember(old(self)@.cache, word@),
    {
        self.stem_cache.stem_word(word)
    }

    /// The terms of the corpus that are closest to `word`.
    pub fn suggest_words(&self, word: &str) -> (suggestions: Vec<String>)
        requires
            self.wf(),
        ensures
            views_of(suggestions@) == closest(
                word@,
                terms_of(idf_of(self@.corpus).frequencies),
            ),
    {
        suggest_words(word, self.idf.frequencies())
    }

    /// Searches the corpus: resolves the tokens of the query and collects
    /// the documents that hold a resolved term.
    pub fn search(&mut self, query: &[String]) -> (outcome: SearchOutcome)
        requires
            old(self).wf(),
        ensures
            final(self).wf(),
            outcome@ == search_of(old(self)@.corpus, views_of(query@)),
            final(self)@.corpus == old(self)@.corpus,
            final(self)@.cache == remember_all(old(self)@.cache, views_of(query@)),
    {
        let resolution = resolve_query(query, &self.idf, &mut self.stem_cache);
        let matches = calculate_bm25(resolution.resolved.as_slice(), &self.idf, &self.corpus);
        SearchOutcome {
            resolved: resolution.resolved,
            suggestions: resolution.suggestions,
            matches,
            documents: self.corpus.len(),
            total_length: self.corpus.total_length(),
        }
    }
}

} // verus!
