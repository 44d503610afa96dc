use corpus_search::corpus::{
    init_corpus, is_text_file, read_text, Corpus, Document, FileError, SourceFile,
};

fn file(path: &str, extension: Option<&str>, content: Option<&[u8]>) -> SourceFile {
    SourceFile {
        path: path.to_string(),
        extension: extension.map(|e| e.to_string()),
        content: content.map(|c| c.to_vec()),
    }
}

#[test]
fn is_text_file_accepts_each_listed_extension() {
    for extension in [
        "txt", "rs", "cs", "js", "html", "css", "json", "xml", "md", "py", "java", "c", "cpp", "h", "hpp",
    ] {
        assert!(is_text_file(Some(extension)));
    }
}

#[test]
fn is_text_file_refuses_other_extensions() {
    assert!(!is_text_file(Some("exe")));
    assert!(!is_text_file(Some("")));
    assert!(!is_text_file(Some("tx")));
    assert!(!is_text_file(Some("txtx")));
    assert!(!is_text_file(None));
}

#[test]
fn is_text_file_minds_the_case() {
    assert!(!is_text_file(Some("TXT")));
    assert!(!is_text_file(Some("Rs")));
}

#[test]
fn read_text_decodes_a_listed_file() {
    let f = file("a.txt", Some("txt"), Some("h\u{e9}llo".as_bytes()));
    assert_eq!(read_text(&f), Ok("h\u{e9}llo"));
}

#[test]
fn read_text_passes_over_bytes_that_are_not_utf8() {
    let f = file("a.txt", Some("txt"), Some(&[0x66, 0x6f, 0xff, 0xfe]));
    assert_eq!(read_text(&f), Err(FileError::NonUtf8Content));
}

#[test]
fn read_text_passes_over_a_file_that_was_not_read() {
    assert_eq!(read_text(&file("a.txt", Some("txt"), None)), Err(FileError::UnreadableFile));
}

#[test]
fn read_text_passes_over_an_extension_that_is_not_listed() {
    assert_eq!(read_text(&file("a.bin", Some("bin"), Some(b"fox"))), Err(FileError::UnsupportedExtension));
    assert_eq!(read_text(&file("a", None, Some(b"fox"))), Err(FileError::UnsupportedExtension));
    assert_eq!(read_text(&file("a.bin", Some("bin"), None)), Err(FileError::UnsupportedExtension));
}

#[test]
fn init_corpus_counts_the_terms_of_each_file() {
    let files = vec![
        file("docA.txt", Some("txt"), Some(b"quick brown fox")),
        file("docB.txt", Some("txt"), Some(b"lazy dog dog")),
    ];
    let corpus = init_corpus(&files);
    assert_eq!(corpus.len(), 2);
    assert_eq!(corpus.total_length(), 6);
    let a = corpus.document(0);
    assert_eq!(a.path(), "docA.txt");
    assert_eq!(a.length(), 3);
    assert_eq!(a.terms().len(), 3);
    assert_eq!(a.terms().frequency(&"fox".to_string()), 1);
    assert_eq!(a.terms().frequency(&"dog".to_string()), 0);
    let b = corpus.document(1);
    assert_eq!(b.path(), "docB.txt");
    assert_eq!(b.length(), 3);
    assert_eq!(b.terms().len(), 2);
    assert_eq!(b.terms().term(0), "lazi");
    assert_eq!(b.terms().count(0), 1);
    assert_eq!(b.terms().term(1), "dog");
    assert_eq!(b.terms().count(1), 2);
    assert!(b.terms().contains(&"dog".to_string()));
    assert!(!b.terms().contains(&"fox".to_string()));
}

#[test]
fn init_corpus_passes_over_files_that_are_not_indexed() {
    let files = vec![
        file("a.exe", Some("exe"), Some(b"quick")),
        file("b.txt", Some("txt"), Some(&[0xc3, 0x28])),
        file("c.txt", Some("txt"), None),
        file("d", None, Some(b"quick")),
        file("e.md", Some("md"), Some(b"brown fox")),
    ];
    let corpus = init_corpus(&files);
    assert_eq!(corpus.len(), 1);
    assert_eq!(corpus.document(0).path(), "e.md");
    assert_eq!(corpus.total_length(), 2);
}

#[test]
fn init_corpus_keeps_a_file_without_words_as_an_empty_document() {
    let files = vec![file("empty.txt", Some("txt"), Some(b"  \n")), file("a.txt", Some("txt"), Some(b"fox"))];
    let corpus = init_corpus(&files);
    assert_eq!(corpus.len(), 2);
    assert_eq!(corpus.document(0).length(), 0);
    assert_eq!(corpus.document(0).terms().len(), 0);
    assert_eq!(corpus.total_length(), 1);
}

#[test]
fn init_corpus_merges_files_of_one_path() {
    let files = vec![
        file("a.txt", Some("txt"), Some(b"fox dog")),
        file("b.txt", Some("txt"), Some(b"cat")),
        file("a.txt", Some("txt"), Some(b"fox bird")),
    ];
    let corpus = init_corpus(&files);
    assert_eq!(corpus.len(), 2);
    let a = corpus.document(0);
    assert_eq!(a.path(), "a.txt");
    assert_eq!(a.length(), 4);
    assert_eq!(a.terms().frequency(&"fox".to_string()), 2);
    assert_eq!(a.terms().frequency(&"dog".to_string()), 1);
    assert_eq!(a.terms().frequency(&"bird".to_string()), 1);
    assert_eq!(corpus.total_length(), 5);
    assert_eq!(corpus.position(&"b.txt".to_string()), Some(1));
    assert_eq!(corpus.position(&"c.txt".to_string()), None);
}

#[test]
fn init_corpus_of_no_files_is_empty() {
    let corpus = init_corpus(&Vec::new());
    assert_eq!(corpus.len(), 0);
    assert_eq!(corpus.total_length(), 0);
}

#[test]
fn document_length_is_the_sum_of_its_counts() {
    let mut document = Document::new("a.txt".to_string());
    document.record_terms(&vec!["fox".to_string(), "dog".to_string(), "fox".to_string()]);
    let mut sum = 0;
    for i in 0..document.terms().len() {
        assert!(document.terms().count(i) >= 1);
        sum += document.terms().count(i);
    }
    assert_eq!(document.length(), 3);
    assert_eq!(sum, 3);
}

#[test]
fn corpus_add_document_appends_and_merges() {
    let mut corpus = Corpus::new();
    corpus.add_document("a".to_string(), &vec!["x".to_string()]);
    corpus.add_document("b".to_string(), &vec!["y".to_string(), "y".to_string()]);
    corpus.add_document("a".to_string(), &vec!["x".to_string(), "z".to_string()]);
    assert_eq!(corpus.len(), 2);
    assert_eq!(corpus.total_length(), 5);
    assert_eq!(corpus.document(0).terms().frequency(&"x".to_string()), 2);
    assert_eq!(corpus.document(1).terms().frequency(&"y".to_string()), 2);
}
