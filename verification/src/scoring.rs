//! Okapi BM25: which documents a query reaches, and the numbers that each of
//! their scores is made of.
//!
//! The score of a document is the sum, over the resolved terms that it
//! holds, of `ln(w) * f * (k1 + 1) / (f + k1 * (1 - b + b * len / avgdl))`,
//! with `k1 = 1.2` and `b = 0.75`, where `w` is the ratio of the term, `f`
//! its count in the document, `len` the length of the document and `avgdl`
//! the mean length of all documents. This module hands out `w`, `f` and
//! `len` for each summand, in the order of the sum.

use crate::corpus::{distinct_paths, Corpus, DocumentView};
use crate::idf::{ratio_for, IdfTable, IdfView, IdfWeight, Ratio};
use crate::tally::{count_of, has_term, lemma_index_of_unique, total};
use crate::text::views_of;
use vstd::prelude::*;

verus! {

/// What a `Contribution` holds.
pub struct ContributionView {
    pub term_frequency: nat,
    pub document_length: nat,
    pub weight: Ratio,
}

/// What a `DocumentMatch` holds.
pub struct MatchView {
    pub document: Seq<char>,
    pub contributions: Seq<ContributionView>,
}

/// Whether `term` adds to the score of `document`: the table knows it and
/// the document holds it.
pub open spec fn contributes(document: DocumentView, term: Seq<char>, idf: IdfView) -> bool {
    has_term(idf.frequencies, term) && has_term(document.terms, term)
}

/// What `term` adds to the score of `document`.
pub open spec fn contribution_of(document: DocumentView, term: Seq<char>, idf: IdfView)
    -> ContributionView {
    ContributionView {
        term_frequency: count_of(document.terms, term),
        document_length: total(document.terms),
        weight: ratio_for(idf.documents, count_of(idf.frequencies, term)),
    }
}

/// The summands of the score of `document`, one for each term of the query
/// that contributes, in the order of the query. A term that the query
/// repeats contributes each time.
pub open spec fn contributions_of(document: DocumentView, query: Seq<Seq<char>>, idf: IdfView)
    -> Seq<ContributionView>
    decreases query.len(),
{
    if query.len() == 0 {
        Seq::empty()
    } else {
        let before = contributions_of(document, query.drop_last(), idf);
        if contributes(document, query.last(), idf) {
            before.push(contribution_of(document, query.last(), idf))
        } else {
            before
        }
    }
}

/// The documents that the query reaches, in the order of the corpus, each
/// with the summands of its score. A document without a summand is left out.
pub open spec fn matches_of(corpus: Seq<DocumentView>, query: Seq<Seq<char>>, idf: IdfView) -> Seq<
    MatchView,
>
    decreases corpus.len(),
{
    if corpus.len() == 0 {
        Seq::empty()
    } else {
        let before = matches_of(corpus.drop_last(), query, idf);
        let contributions = contributions_of(corpus.last(), query, idf);
        if contributions.len() > 0 {
            before.push(MatchView { document: corpus.last().path, contributions })
        } else {
            before
        }
    }
}

/// Whether a match for the document `path` is among `matches`.
pub open spec fn is_matched(matches: Seq<MatchView>, path: Seq<char>) -> bool {
    exists|m: int| 0 <= m < matches.len() && (#[trigger] matches[m]).document == path
}

/// A document has a summand exactly if some term of the query contributes
/// to it.
pub proof fn lemma_contributions_exist(document: DocumentView, query: Seq<Seq<char>>, idf: IdfView)
    ensures
        contributions_of(document, query, idf).len() > 0 <==> exists|k: int|
            0 <= k < query.len() && contributes(document, #[trigger] query[k], idf),
    decreases query.len(),
{
    if query.len() > 0 {
        let shorter = query.drop_last();
        lemma_contributions_exist(document, shorter, idf);
        if contributions_of(document, query, idf).len() > 0 && !contributes(
            document,
            query.last(),
            idf,
        ) {
            let k = choose|k: int|
                0 <= k < shorter.len() && contributes(document, #[trigger] shorter[k], idf);
            assert(contributes(document, query[k], idf));
        }
        if exists|k: int| 0 <= k < query.len() && contributes(document, #[trigger] query[k], idf) {
            let k = choose|k: int|
                0 <= k < query.len() && contributes(document, #[trigger] query[k], idf);
            if k < shorter.len() {
                assert(contributes(document, shorter[k], idf));
            }
        }
    }
}

/// Every match belongs to a document of the corpus and holds the summands
/// of that document, of which there is at least one.
pub proof fn lemma_matches_come_from_corpus(
    corpus: Seq<DocumentView>,
    query: Seq<Seq<char>>,
    idf: IdfView,
)
    ensures
        forall|m: int|
            0 <= m < matches_of(corpus, query, idf).len() ==> {
                let found = #[trigger] matches_of(corpus, query, idf)[m];
                &&& found.contributions.len() > 0
                &&& exists|i: int|
                    0 <= i < corpus.len() && (#[trigger] corpus[i]).path == found.document
                        && found.contributions == contributions_of(corpus[i], query, idf)
            },
    decreases corpus.len(),
{
    let matches = matches_of(corpus, query, idf);
    if corpus.len() > 0 {
        let shorter = corpus.drop_last();
        let before = matches_of(shorter, query, idf);
        lemma_matches_come_from_corpus(shorter, query, idf);
        assert forall|m: int| 0 <= m < matches.len() implies {
            let found = #[trigger] matches[m];
            &&& found.contributions.len() > 0
            &&& exists|i: int|
                0 <= i < corpus.len() && (#[trigger] corpus[i]).path == found.document
                    && found.contributions == contributions_of(corpus[i], query, idf)
        } by {
            let found = matches[m];
            if m < before.len() {
                let i = choose|i: int|
                    0 <= i < shorter.len() && (#[trigger] shorter[i]).path == found.document
                        && found.contributions == contributions_of(shorter[i], query, idf);
                assert(corpus[i] == shorter[i]);
            }
        }
    }
}

/// Every document with a summand has a match.
pub proof fn lemma_matches_cover_corpus(
    corpus: Seq<DocumentView>,
    query: Seq<Seq<char>>,
    idf: IdfView,
    i: int,
)
    requires
        0 <= i < corpus.len(),
        contributions_of(corpus[i], query, idf).len() > 0,
    ensures
        is_matched(matches_of(corpus, query, idf), corpus[i].path),
    decreases corpus.len(),
{
    let matches = matches_of(corpus, query, idf);
    let shorter = corpus.drop_last();
    let before = matches_of(shorter, query, idf);
    if i < corpus.len() - 1 {
        lemma_matches_cover_corpus(shorter, query, idf, i);
        let m = choose|m: int| 0 <= m < before.len() && (#[trigger] before[m]).document == shorter[i].path;
        assert(matches[m] == before[m]);
    } else {
        assert(matches[matches.len() - 1].document == corpus[i].path);
    }
}

/// A document is matched exactly if it holds a term of the query that the
/// table knows. A document that holds none of them has no match: it is
/// absent, not present with an empty score.
pub proof fn lemma_matched_iff_term_held(
    corpus: Seq<DocumentView>,
    query: Seq<Seq<char>>,
    idf: IdfView,
    i: int,
)
    requires
        distinct_paths(corpus),
        0 <= i < corpus.len(),
    ensures
        is_matched(matches_of(corpus, query, idf), corpus[i].path) <==> exists|k: int|
            0 <= k < query.len() && contributes(corpus[i], #[trigger] query[k], idf),
{
    let matches = matches_of(corpus, query, idf);
    lemma_contributions_exist(corpus[i], query, idf);
    if contributions_of(corpus[i], query, idf).len() > 0 {
        lemma_matches_cover_corpus(corpus, query, idf, i);
    }
    if is_matched(matches, corpus[i].path) {
        lemma_matches_come_from_corpus(corpus, query, idf);
        let m = choose|m: int| 0 <= m < matches.len() && (#[trigger] matches[m]).document == corpus[i].path;
        let found = matches[m];
        let j = choose|j: int|
            0 <= j < corpus.len() && (#[trigger] corpus[j]).path == found.document
                && found.contributions == contributions_of(corpus[j], query, idf);
        assert(j == i);
    }
}

/// One summand of a document's score: the count of the term in the document,
/// the length of the document, and the ratio of the term.
#[derive(Clone, Copy, Debug, PartialEq, Eq)]
pub struct Contribution {
    pub term_frequency: u128,
    pub document_length: u128,
    pub weight: IdfWeight,
}

impl View for Contribution {
    type V = ContributionView;

    open spec fn view(&self) -> ContributionView {
        ContributionView {
            term_frequency: self.term_frequency as nat,
            document_length: self.document_length as nat,
            weight: self.weight@,
        }
    }
}

/// A document that the query reaches, with the summands of its score in
/// the order in which they are added up.
#[derive(Clone, Debug, PartialEq, Eq)]
pub struct DocumentMatch {
    pub document: String,
    pub contributions: Vec<Contribution>,
}

impl View for DocumentMatch {
    type V = MatchView;

    open spec fn view(&self) -> MatchView {
        MatchView {
            document: self.document@,
            contributions: self.contributions@.map_values(|c: Contribution| c@),
        }
    }
}

/// The views of a run of matches.
pub open spec fn matches_view(matches: Seq<DocumentMatch>) -> Seq<MatchView> {
    matches.map_values(|m: DocumentMatch| m@)
}

/// Collects, for every document that holds a term of the query, what its
/// BM25 score is summed from. Terms that the table does not know add
/// nothing, and a document that no term reaches is not in the result.
pub fn calculate_bm25(query: &[String], idf: &IdfTable, corpus: &Corpus) -> (matches: Vec<
    DocumentMatch,
>)
    requires
        idf.wf(),
        corpus.wf(),
    ensures
        matches_view(matches@) == matches_of(corpus@, views_of(query@), idf@),
{
    let ghost terms = views_of(query@);
    let ghost documents = corpus@;
    let mut weights: Vec<Option<IdfWeight>> = Vec::new();
    let mut k: usize = 0;
    while k < query.len()
        invariant
            k <= query.len(),
            idf.wf(),
            terms == views_of(query@),
            weights.len() == k,
            forall|n: int|
                0 <= n < k ==> match #[trigger] weights[n] {
                    Some(w) => has_term(idf@.frequencies, terms[n]) && w@ == ratio_for(
                        idf@.documents,
                        count_of(idf@.frequencies, terms[n]),
                    ),
                    None => !has_term(idf@.frequencies, terms[n]),
                },
        decreases query.len() - k,
    {
        weights.push(idf.weight(&query[k]));
        k = k + 1;
    }
    let mut matches: Vec<DocumentMatch> = Vec::new();
    let mut i: usize = 0;
    while i < corpus.len()
        invariant
            i <= corpus@.len(),
            corpus.wf(),
            documents == corpus@,
            terms == views_of(query@),
            weights.len() == query.len(),
            forall|n: int|
                0 <= n < query.len() ==> match #[trigger] weights[n] {
                    Some(w) => has_term(idf@.frequencies, terms[n]) && w@ == ratio_for(
                        idf@.documents,
                        count_of(idf@.frequencies, terms[n]),
                    ),
                    None => !has_term(idf@.frequencies, terms[n]),
                },
            matches_view(matches@) == matches_of(documents.take(i as int), terms, idf@),
        decreases corpus@.len() - i,
    {
        let document = corpus.document(i);
        let table = document.terms();
        let length = document.length();
        let mut contributions: Vec<Contribution> = Vec::new();
        let mut j: usize = 0;
        while j < query.len()
            invariant
                j <= query.len(),
                i < corpus@.len(),
                terms == views_of(query@),
                weights.len() == query.len(),
                forall|n: int|
                    0 <= n < query.len() ==> match #[trigger] weights[n] {
                        Some(w) => has_term(idf@.frequencies, terms[n]) && w@ == ratio_for(
                            idf@.documents,
                            count_of(idf@.frequencies, terms[n]),
                        ),
                        None => !has_term(idf@.frequencies, terms[n]),
                    },
                table.wf(),
                table@ == document@.terms,
                length == total(document@.terms),
                contributions@.map_values(|c: Contribution| c@) == contributions_of(
                    document@,
                    terms.take(j as int),
                    idf@,
                ),
            decreases query.len() - j,
        {
            proof {
                let next = terms.take(j + 1);
                assert(next.drop_last() == terms.take(j as int));
            }
            match weights[j] {
                Some(weight) => {
                    match table.position(&query[j]) {
                        Some(p) => {
                            proof {
                                lemma_index_of_unique(table@, p as int);
                            }
                            let contribution = Contribution {
                                term_frequency: table.count(p),
                                document_length: length,
                                weight,
                            };
                            contributions.push(contribution);
                        },
                        None => {},
                    }
                },
                None => {},
            }
            j = j + 1;
        }
        proof {
            assert(terms.take(query.len() as int) == terms);
            let next = documents.take(i + 1);
            assert(next.drop_last() == documents.take(i as int));
        }
        if contributions.len() > 0 {
            let found = DocumentMatch { document: document.path().clone(), contributions };
            matches.push(found);
        }
        i = i + 1;
    }
    assert(documents.take(corpus@.len() as int) == documents);
    matches
}

} // verus!
