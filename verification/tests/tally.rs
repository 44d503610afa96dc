use corpus_search::tally::TermTable;

fn table(terms: &[&str]) -> TermTable {
    let mut table = TermTable::new();
    for term in terms {
        table.record(term.to_string());
    }
    table
}

#[test]
fn new_table_is_empty() {
    let table = TermTable::new();
    assert_eq!(table.len(), 0);
    assert_eq!(table.position(&"fox".to_string()), None);
    assert_eq!(table.frequency(&"fox".to_string()), 0);
    assert!(!table.contains(&"fox".to_string()));
}

#[test]
fn record_counts_each_term_and_keeps_the_order_of_first_occurrence() {
    let table = table(&["fox", "dog", "fox", "cat", "dog", "fox"]);
    assert_eq!(table.len(), 3);
    assert_eq!(table.term(0), "fox");
    assert_eq!(table.count(0), 3);
    assert_eq!(table.term(1), "dog");
    assert_eq!(table.count(1), 2);
    assert_eq!(table.term(2), "cat");
    assert_eq!(table.count(2), 1);
}

#[test]
fn position_and_frequency_find_a_term() {
    let table = table(&["fox", "dog", "fox"]);
    assert_eq!(table.position(&"fox".to_string()), Some(0));
    assert_eq!(table.position(&"dog".to_string()), Some(1));
    assert_eq!(table.position(&"do".to_string()), None);
    assert_eq!(table.frequency(&"fox".to_string()), 2);
    assert_eq!(table.frequency(&"dog".to_string()), 1);
    assert_eq!(table.frequency(&"cat".to_string()), 0);
    assert!(table.contains(&"dog".to_string()));
    assert!(!table.contains(&"Dog".to_string()));
}

#[test]
fn no_term_is_stored_with_a_count_of_zero() {
    let table = table(&["a", "b", "a", "c", "b", "a"]);
    let mut sum = 0;
    for i in 0..table.len() {
        assert!(table.count(i) >= 1);
        sum += table.count(i);
    }
    assert_eq!(sum, 6);
}
