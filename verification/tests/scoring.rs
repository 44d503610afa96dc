use corpus_search::corpus::{init_corpus, SourceFile};
use corpus_search::idf::{calculate_idf, IdfWeight};
use corpus_search::scoring::{calculate_bm25, Contribution, DocumentMatch};

fn text_file(path: &str, text: &str) -> SourceFile {
    SourceFile {
        path: path.to_string(),
        extension: Some("txt".to_string()),
        content: Some(text.as_bytes().to_vec()),
    }
}

fn words(tokens: &[&str]) -> Vec<String> {
    tokens.iter().map(|t| t.to_string()).collect()
}

fn score(found: &DocumentMatch, documents: usize, total_length: u128) -> f64 {
    let k1 = 1.2;
    let b = 0.75;
    let avgdl = total_length as f64 / documents as f64;
    let mut sum = 0.0;
    for c in &found.contributions {
        let idf = (c.weight.numerator as f64 / c.weight.denominator as f64).ln();
        let f = c.term_frequency as f64;
        let len = c.document_length as f64;
        sum += idf * f * (k1 + 1.0) / (f + k1 * (1.0 - b + b * len / avgdl));
    }
    sum
}

#[test]
fn calculate_bm25_reaches_the_documents_that_hold_a_term() {
    let corpus = init_corpus(&vec![text_file("docA", "quick brown fox"), text_file("docB", "lazy dog")]);
    let idf = calculate_idf(&corpus);
    let matches = calculate_bm25(&words(&["fox"]), &idf, &corpus);
    assert_eq!(
        matches,
        vec![DocumentMatch {
            document: "docA".to_string(),
            contributions: vec![Contribution {
                term_frequency: 1,
                document_length: 3,
                weight: IdfWeight { numerator: 3, denominator: 2 },
            }],
        }]
    );
}

#[test]
fn calculate_bm25_leaves_out_documents_without_a_term() {
    let corpus = init_corpus(&vec![
        text_file("a", "fox"),
        text_file("b", "dog"),
        text_file("c", "cat fox"),
        text_file("d", ""),
    ]);
    let idf = calculate_idf(&corpus);
    let matches = calculate_bm25(&words(&["fox"]), &idf, &corpus);
    let found: Vec<&str> = matches.iter().map(|m| m.document.as_str()).collect();
    assert_eq!(found, vec!["a", "c"]);
    assert!(matches.iter().all(|m| !m.contributions.is_empty()));
}

#[test]
fn calculate_bm25_ignores_terms_that_the_corpus_does_not_know() {
    let corpus = init_corpus(&vec![text_file("a", "fox"), text_file("b", "dog")]);
    let idf = calculate_idf(&corpus);
    assert!(calculate_bm25(&words(&["wolf"]), &idf, &corpus).is_empty());
    assert!(calculate_bm25(&[], &idf, &corpus).is_empty());
    let matches = calculate_bm25(&words(&["wolf", "dog", "bird"]), &idf, &corpus);
    assert_eq!(matches.len(), 1);
    assert_eq!(matches[0].document, "b");
    assert_eq!(matches[0].contributions.len(), 1);
}

#[test]
fn calculate_bm25_adds_a_summand_for_each_term_in_query_order() {
    let corpus = init_corpus(&vec![text_file("a", "fox fox dog cat"), text_file("b", "dog"), text_file("c", "bird")]);
    let idf = calculate_idf(&corpus);
    let matches = calculate_bm25(&words(&["dog", "fox", "dog"]), &idf, &corpus);
    assert_eq!(matches.len(), 2);
    assert_eq!(matches[0].document, "a");
    let dog = Contribution { term_frequency: 1, document_length: 4, weight: IdfWeight { numerator: 4, denominator: 3 } };
    let fox = Contribution { term_frequency: 2, document_length: 4, weight: IdfWeight { numerator: 4, denominator: 2 } };
    assert_eq!(matches[0].contributions, vec![dog, fox, dog]);
    assert_eq!(matches[1].document, "b");
    let dog_b = Contribution { term_frequency: 1, document_length: 1, weight: IdfWeight { numerator: 4, denominator: 3 } };
    assert_eq!(matches[1].contributions, vec![dog_b, dog_b]);
}

#[test]
fn calculate_bm25_on_an_empty_corpus_is_empty() {
    let corpus = init_corpus(&Vec::new());
    let idf = calculate_idf(&corpus);
    assert!(calculate_bm25(&words(&["fox"]), &idf, &corpus).is_empty());
}

#[test]
fn score_of_the_single_match_has_the_value_of_the_formula() {
    let corpus = init_corpus(&vec![text_file("docA", "quick brown fox"), text_file("docB", "lazy dog")]);
    let idf = calculate_idf(&corpus);
    let matches = calculate_bm25(&words(&["fox"]), &idf, &corpus);
    let value = score(&matches[0], corpus.len(), corpus.total_length());
    let expected = (3.0f64 / 2.0).ln() * 2.2 / (1.0 + 1.2 * (0.25 + 0.75 * 3.0 / 2.5));
    assert!((value - expected).abs() < 1e-12);
    assert!(value > 0.0);
}

#[test]
fn score_of_a_term_in_every_document_is_zero() {
    let corpus = init_corpus(&vec![text_file("a", "fox dog"), text_file("b", "fox")]);
    let idf = calculate_idf(&corpus);
    let matches = calculate_bm25(&words(&["fox"]), &idf, &corpus);
    assert_eq!(matches.len(), 2);
    assert_eq!(score(&matches[0], 2, 3), 0.0);
    assert_eq!(score(&matches[1], 2, 3), 0.0);
}
