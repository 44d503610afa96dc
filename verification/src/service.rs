//! The search service: no index until a directory was selected, then one
//! index at a time, replaced as a whole by each later selection.

use crate::corpus::{corpus_of, files_of, DocumentView, SourceFile, SourceFileView};
use crate::database::{search_of, Database, OutcomeView, SearchOutcome};
use crate::resolve::{remember_all, CachedStem};
use crate::text::{split_whitespace, split_words};
use vstd::prelude::*;

verus! {

/// Why an operation of the service failed.
#[derive(Clone, Copy, Debug, PartialEq, Eq)]
pub enum SearchError {
    /// The path that was selected is not a directory.
    PathNotDirectory,
    /// No directory was indexed yet.
    IndexNotInitialized,
}

/// What a `SearchService` holds: the corpus of the directory that was
/// selected last, if one was, and the stem cache.
pub struct ServiceView {
    pub corpus: Option<Seq<DocumentView>>,
    pub cache: Seq<CachedStem>,
}

/// The service after a selection. A path that is no directory changes
/// nothing; the files of a directory make the new corpus.
pub open spec fn selected(
    service: ServiceView,
    is_directory: bool,
    files: Seq<SourceFileView>,
) -> ServiceView {
    if is_directory {
        ServiceView { corpus: Some(corpus_of(files)), cache: service.cache }
    } else {
        service
    }
}

/// What the service answers to a query.
pub open spec fn answer_of(service: ServiceView, query: Seq<char>) -> Result<
    OutcomeView,
    SearchError,
> {
    match service.corpus {
        Some(corpus) => Ok(search_of(corpus, split_words(query))),
        None => Err(SearchError::IndexNotInitialized),
    }
}

/// The service after it answered a query: the corpus is as before, and the
/// cache has taken up the tokens of the query where there is an index.
pub open spec fn answered(service: ServiceView, query: Seq<char>) -> ServiceView {
    match service.corpus {
        Some(corpus) => ServiceView {
            corpus: Some(corpus),
            cache: remember_all(service.cache, split_words(query)),
        },
        None => service,
    }
}

/// After a directory was selected, a search reflects the files of that
/// directory alone: whatever the service held before, the answer is that of
/// a search in the corpus of these files.
pub proof fn lemma_selection_replaces_index(
    service: ServiceView,
    other: ServiceView,
    files: Seq<SourceFileView>,
    query: Seq<char>,
)
    ensures
        answer_of(selected(service, true, files), query) == Ok::<OutcomeView, SearchError>(
            search_of(corpus_of(files), split_words(query)),
        ),
        answer_of(selected(service, true, files), query) == answer_of(
            selected(other, true, files),
            query,
        ),
{
}

/// Answering a query does not change what the service answers to any query.
pub proof fn lemma_answers_repeat(service: ServiceView, asked: Seq<char>, query: Seq<char>)
    ensures
        answer_of(answered(service, asked), query) == answer_of(service, query),
{
}

/// The service that owns the index.
pub struct SearchService {
    database: Option<Database>,
}

impl View for SearchService {
    type V = ServiceView;

    closed spec fn view(&self) -> ServiceView {
        match self.database {
            Some(database) => ServiceView {
                corpus: Some(database@.corpus),
                cache: database@.cache,
            },
            None => ServiceView { corpus: None, cache: Seq::empty() },
        }
    }
}

impl SearchService {
    /// The database, where there is one, is well formed.
    pub closed spec fn wf(&self) -> bool {
        match self.database {
            Some(database) => database.wf(),
            None => true,
        }
    }

    /// A service without an index.
    pub fn new() -> (service: SearchService)
        ensures
            service.wf(),
            service@ == (ServiceView { corpus: None, cache: Seq::empty() }),
    {
        SearchService { database: None }
    }

    /// Whether a directory was indexed.
    pub fn is_ready(&self) -> (ready: bool)
        ensures
            ready == self@.corpus.is_some(),
    {
        self.database.is_some()
    }

    /// The database of the directory that was selected last.
    pub fn database(&self) -> (database: Option<&Database>)
        ensures
            match database {
                Some(d) => self@ == (ServiceView { corpus: Some(d@.corpus), cache: d@.cache }) && (
                self.wf() ==> d.wf()),
                None => self@ == (ServiceView { corpus: None, cache: Seq::empty() }),
            },
    {
        self.database.as_ref()
    }

    /// Selects a directory. `is_directory` says whether the path that was
    /// chosen denotes one, `files` holds what the walk through it found. A
    /// path that is no directory fails and leaves the service as it was. A
    /// directory replaces the index as a whole.
    pub fn directory(&mut self, is_directory: bool, files: &Vec<SourceFile>) -> (result: Result<
        (),
        SearchError,
    >)
        requires
            old(self).wf(),
        ensures
            final(self).wf(),
            final(self)@ == selected(old(self)@, is_directory, files_of(files@)),
            result == if is_directory {
                Ok::<(), SearchError>(())
            } else {
                Err::<(), SearchError>(SearchError::PathNotDirectory)
            },
    {
        if !is_directory {
            return Err(SearchError::PathNotDirectory);
        }
        let database = match self.database.take() {
            Some(database) => database.reselect(files),
            None => Database::new(files),
        };
        self.database = Some(database);
        Ok(())
    }

    /// Answers a query: splits it on white space and searches the index.
    /// Fails where no directory was indexed yet.
    pub fn search_query(&mut self, query: &str) -> (result: Result<SearchOutcome, SearchError>)
        requires
            old(self).wf(),
        ensures
            final(self).wf(),
            final(self)@ == answered(old(self)@, query@),
            match result {
                Ok(outcome) => answer_of(old(self)@, query@) == Ok::<OutcomeView, SearchError>(
                    outcome@,
                ),
                Err(error) => answer_of(old(self)@, query@) == Err::<OutcomeView, SearchError>(
                    error,
                ),
            },
    {
        match self.database.take() {
            None => Err(SearchError::IndexNotInitialized),
            Some(mut database) => {
                let tokens = split_whitespace(query);
                let outcome = database.search(tokens.as_slice());
                self.database = Some(database);
                Ok(outcome)
            },
        }
    }
}

} // verus!
