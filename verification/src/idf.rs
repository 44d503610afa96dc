//! Inverse document frequency: for each term of the corpus, the number of
//! documents that hold it, and the ratio whose logarithm is its weight.

use crate::corpus::{well_formed_corpus, Corpus, DocumentView};
use crate::tally::{
    count_of, distinct_terms, has_term, index_of, lemma_count_within_total, lemma_index_of_unique,
    lemma_record, lemma_record_all, occurrences, record_all, terms_of, total, well_formed, Entry,
    TermTable,
};
use vstd::prelude::*;

verus! {

/// A positive ratio. The weight of a term is the natural logarithm of the
/// ratio that the table gives for it.
pub struct Ratio {
    pub numerator: nat,
    pub denominator: nat,
}

/// Whether `a` is a smaller number than `b`, both denominators being
/// positive.
pub open spec fn ratio_less(a: Ratio, b: Ratio) -> bool {
    a.numerator * b.denominator < b.numerator * a.denominator
}

/// The ratio for a term that `frequency` of `documents` documents hold:
/// `(documents + 1) / (frequency + 1)`.
pub open spec fn ratio_for(documents: nat, frequency: nat) -> Ratio {
    Ratio { numerator: documents + 1, denominator: frequency + 1 }
}

/// The number of documents that hold `term`.
pub open spec fn containing(corpus: Seq<DocumentView>, term: Seq<char>) -> nat
    decreases corpus.len(),
{
    if corpus.len() == 0 {
        0
    } else {
        containing(corpus.drop_last(), term) + if has_term(corpus.last().terms, term) {
            1nat
        } else {
            0nat
        }
    }
}

/// The table of document frequencies: every term of every document is
/// recorded once for that document, in the order of the corpus.
pub open spec fn document_frequencies(corpus: Seq<DocumentView>) -> Seq<Entry>
    decreases corpus.len(),
{
    if corpus.len() == 0 {
        Seq::empty()
    } else {
        record_all(document_frequencies(corpus.drop_last()), terms_of(corpus.last().terms))
    }
}

/// What an `IdfTable` holds.
pub struct IdfView {
    pub frequencies: Seq<Entry>,
    pub documents: nat,
}

/// The table that belongs to `corpus`.
pub open spec fn idf_of(corpus: Seq<DocumentView>) -> IdfView {
    IdfView { frequencies: document_frequencies(corpus), documents: corpus.len() }
}

/// The ratio that the table gives for `term`: none for a term of no
/// document.
pub open spec fn weight_of(idf: IdfView, term: Seq<char>) -> Option<Ratio> {
    if has_term(idf.frequencies, term) {
        Some(ratio_for(idf.documents, count_of(idf.frequencies, term)))
    } else {
        None
    }
}

/// A term occurs once among the terms of a well-formed table that holds it,
/// and not at all among those of a table that does not.
pub proof fn lemma_occurrences_in_table(table: Seq<Entry>, term: Seq<char>)
    requires
        distinct_terms(table),
    ensures
        occurrences(terms_of(table), term) == if has_term(table, term) {
            1nat
        } else {
            0nat
        },
    decreases table.len(),
{
    let terms = terms_of(table);
    if table.len() > 0 {
        let shorter = table.drop_last();
        let n = table.len() - 1;
        assert(terms.drop_last() == terms_of(shorter));
        assert forall|i: int, j: int| 0 <= i < j < shorter.len() implies (#[trigger] shorter[i]).term
            != (#[trigger] shorter[j]).term by {}
        lemma_occurrences_in_table(shorter, term);
        if has_term(shorter, term) {
            let k = index_of(shorter, term);
            assert(table[k].term == term);
        } else if has_term(table, term) {
            let k = index_of(table, term);
            if k < n {
                assert(shorter[k].term == term);
            }
        }
    }
}

/// The table of document frequencies is well formed, and the count of a
/// term is the number of documents that hold it.
pub proof fn lemma_document_frequencies(corpus: Seq<DocumentView>)
    requires
        well_formed_corpus(corpus),
    ensures
        well_formed(document_frequencies(corpus)),
        forall|term: Seq<char>|
            count_of(document_frequencies(corpus), term) == containing(corpus, term),
        forall|term: Seq<char>|
            has_term(document_frequencies(corpus), term) == (containing(corpus, term) > 0),
    decreases corpus.len(),
{
    if corpus.len() > 0 {
        let shorter = corpus.drop_last();
        let last = corpus.last();
        assert(well_formed_corpus(shorter)) by {
            assert forall|i: int, j: int| 0 <= i < j < shorter.len() implies (
            #[trigger] shorter[i]).path != (#[trigger] shorter[j]).path by {}
            assert forall|i: int| 0 <= i < shorter.len() implies well_formed(
                (#[trigger] shorter[i]).terms,
            ) by {}
        }
        lemma_document_frequencies(shorter);
        lemma_record_all(document_frequencies(shorter), terms_of(last.terms));
        assert forall|term: Seq<char>|
            count_of(document_frequencies(corpus), term) == containing(corpus, term) && has_term(
                document_frequencies(corpus),
                term,
            ) == (containing(corpus, term) > 0) by {
            lemma_occurrences_in_table(last.terms, term);
        }
    } else {
        assert forall|term: Seq<char>| !has_term(document_frequencies(corpus), term) by {}
    }
}

/// No more documents hold a term than there are documents.
pub proof fn lemma_containing_bound(corpus: Seq<DocumentView>, term: Seq<char>)
    ensures
        containing(corpus, term) <= corpus.len(),
    decreases corpus.len(),
{
    if corpus.len() > 0 {
        lemma_containing_bound(corpus.drop_last(), term);
    }
}

/// A term that every document holds is held by as many documents as there
/// are.
pub proof fn lemma_containing_all(corpus: Seq<DocumentView>, term: Seq<char>)
    requires
        forall|i: int| 0 <= i < corpus.len() ==> has_term((#[trigger] corpus[i]).terms, term),
    ensures
        containing(corpus, term) == corpus.len(),
    decreases corpus.len(),
{
    if corpus.len() > 0 {
        let shorter = corpus.drop_last();
        assert forall|i: int| 0 <= i < shorter.len() implies has_term(
            (#[trigger] shorter[i]).terms,
            term,
        ) by {}
        lemma_containing_all(shorter, term);
    }
}

/// A term that occurs in every document of a corpus that is not empty has a
/// ratio of one, so its weight, the logarithm of that ratio, is zero.
pub proof fn lemma_weight_of_term_in_every_document(corpus: Seq<DocumentView>, term: Seq<char>)
    requires
        well_formed_corpus(corpus),
        corpus.len() > 0,
        forall|i: int| 0 <= i < corpus.len() ==> has_term((#[trigger] corpus[i]).terms, term),
    ensures
        weight_of(idf_of(corpus), term) == Some(
            Ratio { numerator: corpus.len() + 1, denominator: corpus.len() + 1 },
        ),
{
    lemma_document_frequencies(corpus);
    lemma_containing_all(corpus, term);
}

/// For a fixed number of documents the ratio, and with it the weight, falls
/// strictly as the document frequency grows.
pub proof fn lemma_weight_falls_with_frequency(documents: nat, lower: nat, higher: nat)
    requires
        lower < higher,
    ensures
        ratio_less(ratio_for(documents, higher), ratio_for(documents, lower)),
{
    assert((documents + 1) * (lower + 1) < (documents + 1) * (higher + 1)) by (nonlinear_arith)
        requires
            lower < higher,
    ;
}

/// The ratio of a term, in integers that the machine holds.
#[derive(Clone, Copy, Debug, PartialEq, Eq)]
pub struct IdfWeight {
    pub numerator: u128,
    pub denominator: u128,
}

impl View for IdfWeight {
    type V = Ratio;

    open spec fn view(&self) -> Ratio {
        Ratio { numerator: self.numerator as nat, denominator: self.denominator as nat }
    }
}

/// For each term of the corpus the number of documents that hold it, beside
/// the number of documents.
pub struct IdfTable {
    frequencies: TermTable,
    documents: usize,
}

impl View for IdfTable {
    type V = IdfView;

    closed spec fn view(&self) -> IdfView {
        IdfView { frequencies: self.frequencies@, documents: self.documents as nat }
    }
}

impl IdfTable {
    /// The table is well formed, and no term is held by more documents than
    /// there are.
    pub closed spec fn wf(&self) -> bool {
        &&& self.frequencies.wf()
        &&& forall|i: int|
            0 <= i < self.frequencies@.len() ==> (#[trigger] self.frequencies@[i]).count
                <= self.documents
    }

    /// The number of documents of the corpus.
    pub fn documents(&self) -> (n: usize)
        ensures
            n == self@.documents,
    {
        self.documents
    }

    /// The terms with their document frequencies: the vocabulary of the
    /// corpus.
    pub fn frequencies(&self) -> (table: &TermTable)
        ensures
            table@ == self@.frequencies,
            self.wf() ==> table.wf(),
    {
        &self.frequencies
    }

    /// Whether some document holds `term`.
    pub fn contains(&self, term: &String) -> (found: bool)
        ensures
            found == has_term(self@.frequencies, term@),
    {
        self.frequencies.contains(term)
    }

    /// The ratio for `term`, whose logarithm is its weight: `None` for a
    /// term that no document holds.
    pub fn weight(&self, term: &String) -> (weight: Option<IdfWeight>)
        requires
            self.wf(),
        ensures
            match weight {
                Some(w) => weight_of(self@, term@) == Some(w@),
                None => weight_of(self@, term@) is None,
            },
    {
        match self.frequencies.position(term) {
            Some(i) => {
                proof {
                    lemma_index_of_unique(self.frequencies@, i as int);
                }
                let frequency = self.frequencies.count(i);
                Some(
                    IdfWeight {
                        numerator: self.documents as u128 + 1,
                        denominator: frequency + 1,
                    },
                )
            },
            None => None,
        }
    }
}

/// Builds the table of document frequencies that belongs to `corpus`.
pub fn calculate_idf(corpus: &Corpus) -> (idf: IdfTable)
    requires
        corpus.wf(),
    ensures
        idf.wf(),
        idf@ == idf_of(corpus@),
{
    let mut table = TermTable::new();
    let ghost documents = corpus@;
    proof {
        corpus.lemma_wf();
    }
    let mut i: usize = 0;
    while i < corpus.len()
        invariant
            i <= corpus@.len(),
            documents == corpus@,
            corpus.wf(),
            well_formed_corpus(documents),
            table.wf(),
            table@ == document_frequencies(documents.take(i as int)),
            total(table@) <= i * 0x1_0000_0000_0000_0000,
        decreases corpus@.len() - i,
    {
        let document = corpus.document(i);
        let terms = document.terms();
        let ghost before = table@;
        let ghost words = terms_of(terms@);
        let mut j: usize = 0;
        while j < terms.len()
            invariant
                j <= terms@.len(),
                i < corpus@.len(),
                words == terms_of(terms@),
                table.wf(),
                table@ == record_all(before, words.take(j as int)),
                total(table@) <= i * 0x1_0000_0000_0000_0000 + j,
            decreases terms@.len() - j,
        {
            let term = terms.term(j).clone();
            proof {
                let next = words.take(j + 1);
                assert(next.drop_last() == words.take(j as int));
                lemma_record(table@, term@);
                if has_term(table@, term@) {
                    lemma_count_within_total(table@, index_of(table@, term@));
                }
            }
            table.record(term);
            j = j + 1;
        }
        proof {
            assert(words.take(terms@.len() as int) == words);
            let next = documents.take(i + 1);
            assert(next.drop_last() == documents.take(i as int));
        }
        i = i + 1;
    }
    assert(documents.take(corpus@.len() as int) == documents);
    let idf = IdfTable { frequencies: table, documents: corpus.len() };
    proof {
        lemma_document_frequencies(documents);
        assert forall|k: int| 0 <= k < idf.frequencies@.len() implies (
        #[trigger] idf.frequencies@[k]).count <= idf.documents by {
            lemma_index_of_unique(idf.frequencies@, k);
            lemma_containing_bound(documents, idf.frequencies@[k].term);
        }
    }
    idf
}

} // verus!
