use corpus_search::corpus::{init_corpus, SourceFile};
use corpus_search::idf::calculate_idf;
use corpus_search::resolve::{append_copies, resolve_query, suggest_words, StemCache};
use corpus_search::tally::TermTable;

fn text_file(path: &str, text: &str) -> SourceFile {
    SourceFile {
        path: path.to_string(),
        extension: Some("txt".to_string()),
        content: Some(text.as_bytes().to_vec()),
    }
}

fn table(terms: &[&str]) -> TermTable {
    let mut table = TermTable::new();
    for term in terms {
        table.record(term.to_string());
    }
    table
}

fn words(tokens: &[&str]) -> Vec<String> {
    tokens.iter().map(|t| t.to_string()).collect()
}

#[test]
fn suggest_words_finds_the_term_at_the_least_distance() {
    let vocabulary = table(&["quick", "brown", "fox", "lazi", "dog"]);
    assert_eq!(suggest_words("foxx", &vocabulary), vec!["fox"]);
    assert_eq!(suggest_words("brwn", &vocabulary), vec!["brown"]);
}

#[test]
fn suggest_words_keeps_every_term_of_a_tie() {
    let vocabulary = table(&["cat", "dog", "bat", "rat", "horse"]);
    assert_eq!(suggest_words("hat", &vocabulary), vec!["cat", "bat", "rat"]);
}

#[test]
fn suggest_words_drops_earlier_terms_when_a_nearer_one_comes() {
    let vocabulary = table(&["sitting", "mitten", "kitten"]);
    assert_eq!(suggest_words("kitten", &vocabulary), vec!["kitten"]);
    assert_eq!(suggest_words("bitten", &vocabulary), vec!["mitten", "kitten"]);
}

#[test]
fn suggest_words_measures_in_characters() {
    let vocabulary = table(&["wxrld", "w\u{f6}rld!!"]);
    assert_eq!(suggest_words("w\u{f6}rld", &vocabulary), vec!["wxrld"]);
}

#[test]
fn suggest_words_uses_the_levenshtein_distance() {
    let vocabulary = table(&["sitting", "kit"]);
    assert_eq!(suggest_words("kitten", &vocabulary), vec!["sitting", "kit"]);
    let vocabulary = table(&["sitting", "kitt"]);
    assert_eq!(suggest_words("kitten", &vocabulary), vec!["kitt"]);
}

#[test]
fn suggest_words_over_an_empty_vocabulary_is_empty() {
    assert!(suggest_words("fox", &TermTable::new()).is_empty());
}

#[test]
fn stem_word_stems_and_remembers() {
    let mut cache = StemCache::new();
    assert_eq!(cache.len(), 0);
    assert_eq!(cache.lookup(&"running".to_string()), None);
    assert_eq!(cache.stem_word("running"), "run");
    assert_eq!(cache.len(), 1);
    assert_eq!(cache.lookup(&"running".to_string()), Some(&"run".to_string()));
}

#[test]
fn stem_word_twice_gives_the_same_stem_and_keeps_the_cache() {
    let mut cache = StemCache::new();
    let first = cache.stem_word("connections");
    let second = cache.stem_word("connections");
    assert_eq!(first, "connect");
    assert_eq!(first, second);
    assert_eq!(cache.len(), 1);
}

#[test]
fn stem_word_leaves_earlier_entries_as_they_were() {
    let mut cache = StemCache::new();
    cache.stem_word("running");
    cache.stem_word("foxes");
    cache.stem_word("lazy");
    assert_eq!(cache.len(), 3);
    assert_eq!(cache.lookup(&"running".to_string()), Some(&"run".to_string()));
    assert_eq!(cache.lookup(&"foxes".to_string()), Some(&"fox".to_string()));
    assert_eq!(cache.lookup(&"lazy".to_string()), Some(&"lazi".to_string()));
}

#[test]
fn resolve_query_keeps_known_stems_and_replaces_unknown_ones() {
    let corpus = init_corpus(&vec![text_file("a", "quick brown fox"), text_file("b", "lazy dog")]);
    let idf = calculate_idf(&corpus);
    let mut cache = StemCache::new();
    let resolution = resolve_query(&words(&["foxes", "doog", "lazy"]), &idf, &mut cache);
    assert_eq!(resolution.resolved, vec!["fox", "dog", "lazi"]);
    assert_eq!(resolution.suggestions, vec!["dog"]);
    assert_eq!(cache.len(), 3);
}

#[test]
fn resolve_query_keeps_repeated_tokens() {
    let corpus = init_corpus(&vec![text_file("a", "quick brown fox")]);
    let idf = calculate_idf(&corpus);
    let mut cache = StemCache::new();
    let resolution = resolve_query(&words(&["fox", "fox", "foxx", "foxx"]), &idf, &mut cache);
    assert_eq!(resolution.resolved, vec!["fox", "fox", "fox", "fox"]);
    assert_eq!(resolution.suggestions, vec!["fox", "fox"]);
    assert_eq!(cache.len(), 2);
}

#[test]
fn resolve_query_does_not_lower_the_case_of_tokens() {
    let corpus = init_corpus(&vec![text_file("a", "Fox"), text_file("b", "dog")]);
    let idf = calculate_idf(&corpus);
    let mut cache = StemCache::new();
    let resolution = resolve_query(&words(&["Fox"]), &idf, &mut cache);
    assert_eq!(resolution.resolved, vec!["fox"]);
    assert_eq!(resolution.suggestions, vec!["fox"]);
}

#[test]
fn resolve_query_against_an_empty_corpus_resolves_nothing() {
    let corpus = init_corpus(&Vec::new());
    let idf = calculate_idf(&corpus);
    let mut cache = StemCache::new();
    let resolution = resolve_query(&words(&["fox", "dog"]), &idf, &mut cache);
    assert!(resolution.resolved.is_empty());
    assert!(resolution.suggestions.is_empty());
    assert_eq!(cache.len(), 2);
}

#[test]
fn resolve_query_of_no_tokens_is_empty() {
    let corpus = init_corpus(&vec![text_file("a", "fox")]);
    let idf = calculate_idf(&corpus);
    let mut cache = StemCache::new();
    let resolution = resolve_query(&[], &idf, &mut cache);
    assert!(resolution.resolved.is_empty());
    assert!(resolution.suggestions.is_empty());
    assert_eq!(cache.len(), 0);
}

#[test]
fn append_copies_adds_at_the_end() {
    let mut target = words(&["a"]);
    append_copies(&mut target, &words(&["b", "c"]));
    assert_eq!(target, vec!["a", "b", "c"]);
}

#[test]
fn suggestions_are_exactly_the_terms_at_the_least_distance() {
    let terms = [
        "quick", "brown", "fox", "lazi", "dog", "box", "fix", "fog", "frog", "ox", "foxi", "socks",
    ];
    let vocabulary = table(&terms);
    for word in ["fox", "fxo", "doog", "q", "", "lazy", "brwon", "zzzzzz", "f\u{f6}x"] {
        let suggestions = suggest_words(word, &vocabulary);
        let least = terms.iter().map(|t| strsim::levenshtein(word, t)).min().unwrap();
        let expected: Vec<&str> =
            terms.iter().copied().filter(|t| strsim::levenshtein(word, t) == least).collect();
        assert_eq!(suggestions, expected);
        assert!(!suggestions.is_empty());
    }
}
