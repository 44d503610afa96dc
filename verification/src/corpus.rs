//! The corpus: one table of term counts for each indexed file.

use crate::tally::{
    has_term, index_of, lemma_count_within_total, lemma_record, lemma_record_all,
    lemma_tally_counts, record_all, tally_of, total, well_formed, Entry, TermTable,
};
use crate::text::{process_text, stems_of, views_of};
use vstd::prelude::*;
use vstd::string::*;
use vstd::utf8::*;

verus! {

/// A file as the directory walk found it.
#[derive(Clone, Debug, PartialEq, Eq)]
pub struct SourceFile {
    /// The path that identifies the file.
    pub path: String,
    /// The extension of the file name, where it has one.
    pub extension: Option<String>,
    /// The bytes of the file, or `None` where it could not be read.
    pub content: Option<Vec<u8>>,
}

/// What a `SourceFile` holds.
pub struct SourceFileView {
    pub path: Seq<char>,
    pub extension: Option<Seq<char>>,
    pub content: Option<Seq<u8>>,
}

impl View for SourceFile {
    type V = SourceFileView;

    open spec fn view(&self) -> SourceFileView {
        SourceFileView {
            path: self.path@,
            extension: match self.extension {
                Some(e) => Some(e@),
                None => None,
            },
            content: match self.content {
                Some(bytes) => Some(bytes@),
                None => None,
            },
        }
    }
}

/// The views of a run of files.
pub open spec fn files_of(files: Seq<SourceFile>) -> Seq<SourceFileView> {
    files.map_values(|f: SourceFile| f@)
}

/// The extensions of the files that are indexed. Case matters.
pub open spec fn is_text_extension(extension: Seq<char>) -> bool {
    ||| extension == "txt"@
    ||| extension == "rs"@
    ||| extension == "cs"@
    ||| extension == "js"@
    ||| extension == "html"@
    ||| extension == "css"@
    ||| extension == "json"@
    ||| extension == "xml"@
    ||| extension == "md"@
    ||| extension == "py"@
    ||| extension == "java"@
    ||| extension == "c"@
    ||| extension == "cpp"@
    ||| extension == "h"@
    ||| extension == "hpp"@
}

/// Why a file is left out of the corpus.
#[derive(Clone, Copy, Debug, PartialEq, Eq)]
pub enum FileError {
    /// The file has no extension, or one that is not indexed.
    UnsupportedExtension,
    /// The file could not be read.
    UnreadableFile,
    /// The bytes of the file are not UTF-8.
    NonUtf8Content,
}

/// The text under which a file is indexed, or the reason for which it is
/// left out. The extension is looked at first, then whether the file was
/// read, then its bytes.
pub open spec fn text_of(file: SourceFileView) -> Result<Seq<char>, FileError> {
    if file.extension is Some && is_text_extension(file.extension->0) {
        match file.content {
            Some(bytes) => if valid_utf8(bytes) {
                Ok(decode_utf8(bytes))
            } else {
                Err(FileError::NonUtf8Content)
            },
            None => Err(FileError::UnreadableFile),
        }
    } else {
        Err(FileError::UnsupportedExtension)
    }
}

/// What a `Document` holds.
pub struct DocumentView {
    pub path: Seq<char>,
    pub terms: Seq<Entry>,
}

/// Whether the corpus has a document under `path`.
pub open spec fn has_document(corpus: Seq<DocumentView>, path: Seq<char>) -> bool {
    exists|i: int| 0 <= i < corpus.len() && (#[trigger] corpus[i]).path == path
}

/// The position of the document under `path`. It is meaningful where
/// `has_document` holds.
pub open spec fn document_index(corpus: Seq<DocumentView>, path: Seq<char>) -> int {
    choose|i: int| 0 <= i < corpus.len() && (#[trigger] corpus[i]).path == path
}

/// No path has two documents.
pub open spec fn distinct_paths(corpus: Seq<DocumentView>) -> bool {
    forall|i: int, j: int|
        0 <= i < j < corpus.len() ==> (#[trigger] corpus[i]).path != (#[trigger] corpus[j]).path
}

/// No path has two documents, and each document's table is well formed.
pub open spec fn well_formed_corpus(corpus: Seq<DocumentView>) -> bool {
    &&& distinct_paths(corpus)
    &&& forall|i: int| 0 <= i < corpus.len() ==> well_formed((#[trigger] corpus[i]).terms)
}

/// The sum of the lengths of all documents, a document's length being the
/// sum of its term counts.
pub open spec fn corpus_length(corpus: Seq<DocumentView>) -> nat
    decreases corpus.len(),
{
    if corpus.len() == 0 {
        0
    } else {
        corpus_length(corpus.drop_last()) + total(corpus.last().terms)
    }
}

/// The corpus after the terms of one file were counted under `path`: they
/// are merged into the document of that path, or make a new document at the
/// end.
pub open spec fn add_document(
    corpus: Seq<DocumentView>,
    path: Seq<char>,
    terms: Seq<Seq<char>>,
) -> Seq<DocumentView> {
    if has_document(corpus, path) {
        let i = document_index(corpus, path);
        corpus.update(i, DocumentView { path, terms: record_all(corpus[i].terms, terms) })
    } else {
        corpus.push(DocumentView { path, terms: tally_of(terms) })
    }
}

/// The corpus that one pass over `files` builds.
pub open spec fn corpus_of(files: Seq<SourceFileView>) -> Seq<DocumentView>
    decreases files.len(),
{
    if files.len() == 0 {
        Seq::empty()
    } else {
        let before = corpus_of(files.drop_last());
        match text_of(files.last()) {
            Ok(text) => add_document(before, files.last().path, stems_of(text)),
            Err(_) => before,
        }
    }
}

/// In a corpus without repeated paths, the document at `i` is the one that
/// `document_index` finds for its path.
pub proof fn lemma_document_index_unique(corpus: Seq<DocumentView>, i: int)
    requires
        distinct_paths(corpus),
        0 <= i < corpus.len(),
    ensures
        has_document(corpus, corpus[i].path),
        document_index(corpus, corpus[i].path) == i,
{
}

/// Replacing one document changes the length of the corpus by the change of
/// that document's length.
pub proof fn lemma_corpus_length_update(corpus: Seq<DocumentView>, i: int, document: DocumentView)
    requires
        0 <= i < corpus.len(),
    ensures
        corpus_length(corpus.update(i, document)) + total(corpus[i].terms) == corpus_length(corpus)
            + total(document.terms),
    decreases corpus.len(),
{
    let updated = corpus.update(i, document);
    if i == corpus.len() - 1 {
        assert(updated.drop_last() == corpus.drop_last());
    } else {
        assert(updated.drop_last() == corpus.drop_last().update(i, document));
        lemma_corpus_length_update(corpus.drop_last(), i, document);
    }
}

/// No document is longer than the corpus.
pub proof fn lemma_document_within_corpus(corpus: Seq<DocumentView>, i: int)
    requires
        0 <= i < corpus.len(),
    ensures
        total(corpus[i].terms) <= corpus_length(corpus),
    decreases corpus.len(),
{
    if i < corpus.len() - 1 {
        lemma_document_within_corpus(corpus.drop_last(), i);
    }
}

/// Counting the terms of one more file keeps a corpus well formed and adds
/// the number of those terms to its length.
pub proof fn lemma_add_document(corpus: Seq<DocumentView>, path: Seq<char>, terms: Seq<Seq<char>>)
    requires
        well_formed_corpus(corpus),
    ensures
        well_formed_corpus(add_document(corpus, path, terms)),
        corpus_length(add_document(corpus, path, terms)) == corpus_length(corpus) + terms.len(),
{
    let after = add_document(corpus, path, terms);
    if has_document(corpus, path) {
        let i = document_index(corpus, path);
        let document = DocumentView { path, terms: record_all(corpus[i].terms, terms) };
        lemma_record_all(corpus[i].terms, terms);
        lemma_corpus_length_update(corpus, i, document);
        assert forall|a: int, b: int| 0 <= a < b < after.len() implies (#[trigger] after[a]).path != (
        #[trigger] after[b]).path by {}
        assert forall|k: int| 0 <= k < after.len() implies well_formed((#[trigger] after[k]).terms) by {}
    } else {
        lemma_tally_counts(terms);
        assert(after.drop_last() == corpus);
        assert forall|a: int, b: int| 0 <= a < b < after.len() implies (#[trigger] after[a]).path != (
        #[trigger] after[b]).path by {}
        assert forall|k: int| 0 <= k < after.len() implies well_formed((#[trigger] after[k]).terms) by {}
    }
}

/// Calls `std::str::from_utf8`, which checks that the bytes are valid UTF-8
/// and then hands them out as a string slice over the same bytes.
#[verifier::external_body]
fn decode_text(bytes: &[u8]) -> (text: Option<&str>)
    ensures
        text is Some <==> valid_utf8(bytes@),
        text matches Some(s) ==> s.spec_bytes() == bytes@,
{
    std::str::from_utf8(bytes).ok()
}

/// Whether `found` is the extension `name`.
fn is_extension(found: &String, name: &str) -> (same: bool)
    ensures
        same == (found@ == name@),
{
    let wanted = String::from_str(name);
    *found == wanted
}

/// Whether a file with this extension is indexed.
pub fn is_text_file(extension: Option<&str>) -> (text: bool)
    ensures
        text == match extension {
            Some(e) => is_text_extension(e@),
            None => false,
        },
{
    match extension {
        None => false,
        Some(e) => {
            let found = e.to_owned();
            is_extension(&found, "txt") || is_extension(&found, "rs") || is_extension(&found, "cs")
                || is_extension(&found, "js") || is_extension(&found, "html") || is_extension(
                &found,
                "css",
            ) || is_extension(&found, "json") || is_extension(&found, "xml") || is_extension(
                &found,
                "md",
            ) || is_extension(&found, "py") || is_extension(&found, "java") || is_extension(
                &found,
                "c",
            ) || is_extension(&found, "cpp") || is_extension(&found, "h") || is_extension(
                &found,
                "hpp",
            )
        },
    }
}

/// The text under which `file` is indexed, or the reason for which it is
/// left out.
pub fn read_text(file: &SourceFile) -> (text: Result<&str, FileError>)
    ensures
        match text {
            Ok(s) => text_of(file@) == Ok::<Seq<char>, FileError>(s@),
            Err(e) => text_of(file@) == Err::<Seq<char>, FileError>(e),
        },
{
    let listed = match &file.extension {
        Some(e) => is_text_file(Some(e.as_str())),
        None => false,
    };
    if !listed {
        return Err(FileError::UnsupportedExtension);
    }
    match &file.content {
        None => Err(FileError::UnreadableFile),
        Some(bytes) => match decode_text(bytes.as_slice()) {
            Some(text) => {
                proof {
                    encode_utf8_decode_utf8(text@);
                }
                Ok(text)
            },
            None => Err(FileError::NonUtf8Content),
        },
    }
}

/// One indexed file: its path and how often each term occurs in it.
pub struct Document {
    path: String,
    terms: TermTable,
    length: u128,
}

impl View for Document {
    type V = DocumentView;

    closed spec fn view(&self) -> DocumentView {
        DocumentView { path: self.path@, terms: self.terms@ }
    }
}

impl Document {
    /// The table is well formed and the stored length is the sum of its
    /// counts.
    pub closed spec fn wf(&self) -> bool {
        &&& self.terms.wf()
        &&& self.length == total(self.terms@)
    }

    /// A document without terms.
    pub fn new(path: String) -> (document: Document)
        ensures
            document@ == (DocumentView { path: path@, terms: Seq::empty() }),
            document.wf(),
    {
        Document { path, terms: TermTable::new(), length: 0 }
    }

    /// The path that identifies the document.
    pub fn path(&self) -> (path: &String)
        ensures
            path@ == self@.path,
    {
        &self.path
    }

    /// The table of term counts.
    pub fn terms(&self) -> (terms: &TermTable)
        ensures
            terms@ == self@.terms,
            self.wf() ==> terms.wf(),
    {
        &self.terms
    }

    /// The number of terms that were counted: the sum of all counts.
    pub fn length(&self) -> (length: u128)
        requires
            self.wf(),
        ensures
            length == total(self@.terms),
    {
        self.length
    }

    /// Counts one occurrence of each of `terms`.
    pub fn record_terms(&mut self, terms: &Vec<String>)
        requires
            old(self).wf(),
            total(old(self)@.terms) + terms.len() <= u128::MAX,
        ensures
            final(self).wf(),
            final(self)@ == (DocumentView {
                path: old(self)@.path,
                terms: record_all(old(self)@.terms, views_of(terms@)),
            }),
    {
        let ghost words = views_of(terms@);
        let mut i: usize = 0;
        while i < terms.len()
            invariant
                i <= terms.len(),
                words == views_of(terms@),
                self.terms.wf(),
                self.path == old(self).path,
                self.length == total(old(self)@.terms) + i,
                self.length == total(self.terms@),
                self.terms@ == record_all(old(self)@.terms, words.take(i as int)),
                total(old(self)@.terms) + terms.len() <= u128::MAX,
            decreases terms.len() - i,
        {
            let term = terms[i].clone();
            proof {
                let next = words.take(i + 1);
                assert(next.drop_last() == words.take(i as int));
                lemma_record(self.terms@, term@);
                if has_term(self.terms@, term@) {
                    lemma_count_within_total(self.terms@, index_of(self.terms@, term@));
                }
            }
            self.terms.record(term);
            self.length = self.length + 1;
            i = i + 1;
        }
        assert(words.take(terms.len() as int) == words);
    }
}

/// The indexed files, in the order in which they were first seen.
pub struct Corpus {
    documents: Vec<Document>,
    total_length: u128,
}

impl View for Corpus {
    type V = Seq<DocumentView>;

    closed spec fn view(&self) -> Seq<DocumentView> {
        self.documents@.map_values(|d: Document| d@)
    }
}

impl Corpus {
    /// Every document is well formed, no path occurs twice, and the stored
    /// length is the sum of the documents' lengths.
    pub closed spec fn wf(&self) -> bool {
        &&& forall|i: int| 0 <= i < self.documents.len() ==> (#[trigger] self.documents[i]).wf()
        &&& distinct_paths(self@)
        &&& self.total_length == corpus_length(self@)
    }

    /// A well-formed corpus has a well-formed view, and its length fits the
    /// integer that holds it.
    pub proof fn lemma_wf(&self)
        requires
            self.wf(),
        ensures
            well_formed_corpus(self@),
            corpus_length(self@) <= u128::MAX,
    {
        assert forall|i: int| 0 <= i < self@.len() implies well_formed((#[trigger] self@[i]).terms) by {}
    }

    /// A corpus without documents.
    pub fn new() -> (corpus: Corpus)
        ensures
            corpus@ == Seq::<DocumentView>::empty(),
            corpus.wf(),
    {
        Corpus { documents: Vec::new(), total_length: 0 }
    }

    /// The number of documents.
    pub fn len(&self) -> (n: usize)
        ensures
            n == self@.len(),
    {
        self.documents.len()
    }

    /// The sum of the lengths of all documents.
    pub fn total_length(&self) -> (length: u128)
        requires
            self.wf(),
        ensures
            length == corpus_length(self@),
    {
        self.total_length
    }

    /// The document at position `i`.
    pub fn document(&self, i: usize) -> (document: &Document)
        requires
            i < self@.len(),
        ensures
            document@ == self@[i as int],
            self.wf() ==> document.wf(),
    {
        &self.documents[i]
    }

    /// The position of the document under `path`, if there is one.
    pub fn position(&self, path: &String) -> (found: Option<usize>)
        ensures
            match found {
                Some(i) => i < self@.len() && self@[i as int].path == path@,
                None => !has_document(self@, path@),
            },
    {
        let mut i: usize = 0;
        while i < self.documents.len()
            invariant
                i <= self.documents.len(),
                forall|k: int| 0 <= k < i ==> (#[trigger] self@[k]).path != path@,
            decreases self.documents.len() - i,
        {
            if self.documents[i].path == *path {
                return Some(i);
            }
            i = i + 1;
        }
        None
    }

    /// Counts the terms of one file under `path`.
    pub fn add_document(&mut self, path: String, terms: &Vec<String>)
        requires
            old(self).wf(),
            corpus_length(old(self)@) + terms.len() <= u128::MAX,
        ensures
            final(self).wf(),
            final(self)@ == add_document(old(self)@, path@, views_of(terms@)),
    {
        let ghost before = self@;
        let ghost words = views_of(terms@);
        proof {
            self.lemma_wf();
            lemma_add_document(before, path@, words);
        }
        match self.position(&path) {
            Some(i) => {
                proof {
                    lemma_document_index_unique(before, i as int);
                    lemma_document_within_corpus(before, i as int);
                }
                self.documents[i].record_terms(terms);
                self.total_length = self.total_length + terms.len() as u128;
                assert(self@ =~= add_document(before, path@, words));
                assert forall|k: int| 0 <= k < self.documents.len() implies (
                #[trigger] self.documents[k]).wf() by {}
            },
            None => {
                let mut document = Document::new(path);
                document.record_terms(terms);
                self.total_length = self.total_length + terms.len() as u128;
                self.documents.push(document);
                assert(self@ =~= add_document(before, path@, words));
                assert forall|k: int| 0 <= k < self.documents.len() implies (
                #[trigger] self.documents[k]).wf() by {}
            },
        }
    }
}

/// Builds the corpus from the files of one directory walk. A file with an
/// extension that is not indexed, one that could not be read and one whose
/// bytes are not UTF-8 are passed over; the terms of every other file are
/// counted under its path.
pub fn init_corpus(files: &Vec<SourceFile>) -> (corpus: Corpus)
    ensures
        corpus.wf(),
        corpus@ == corpus_of(files_of(files@)),
{
    let mut corpus = Corpus::new();
    let ghost views = files_of(files@);
    let mut i: usize = 0;
    while i < files.len()
        invariant
            i <= files.len(),
            views == files_of(files@),
            corpus.wf(),
            corpus@ == corpus_of(views.take(i as int)),
            corpus_length(corpus@) <= i * 0x1_0000_0000_0000_0000,
        decreases files.len() - i,
    {
        proof {
            let next = views.take(i + 1);
            assert(next.drop_last() == views.take(i as int));
            assert(next.last() == files@[i as int]@);
        }
        match read_text(&files[i]) {
            Ok(text) => {
                let terms = process_text(text);
                let path = files[i].path.clone();
                proof {
                    corpus.lemma_wf();
                    lemma_add_document(corpus@, path@, views_of(terms@));
                }
                corpus.add_document(path, &terms);
            },
            Err(_) => {},
        }
        i = i + 1;
    }
    assert(views.take(files.len() as int) == views);
    corpus
}

} // verus!
