use corpus_search::text::{process_text, split_whitespace, stem_token};

#[test]
fn split_whitespace_cuts_on_any_run_of_white_space() {
    assert_eq!(split_whitespace("quick  brown\tfox\n"), vec!["quick", "brown", "fox"]);
}

#[test]
fn split_whitespace_of_blank_text_is_empty() {
    assert!(split_whitespace("").is_empty());
    assert!(split_whitespace(" \t\r\n ").is_empty());
}

#[test]
fn split_whitespace_keeps_a_single_word() {
    assert_eq!(split_whitespace("fox"), vec!["fox"]);
    assert_eq!(split_whitespace("  fox"), vec!["fox"]);
    assert_eq!(split_whitespace("fox  "), vec!["fox"]);
}

#[test]
fn split_whitespace_knows_unicode_white_space() {
    assert_eq!(split_whitespace("a\u{00a0}b\u{3000}c\u{2003}d"), vec!["a", "b", "c", "d"]);
}

#[test]
fn split_whitespace_keeps_characters_beyond_ascii() {
    assert_eq!(split_whitespace("h\u{e9}llo w\u{f6}rld"), vec!["h\u{e9}llo", "w\u{f6}rld"]);
}

#[test]
fn split_whitespace_agrees_with_std() {
    let text = "  The quick\u{2028}brown fox,\n jumps over\r\nthe lazy dog.  ";
    let expected: Vec<String> = text.split_whitespace().map(|w| w.to_string()).collect();
    assert_eq!(split_whitespace(text), expected);
}

#[test]
fn stem_token_gives_the_english_stem() {
    assert_eq!(stem_token("running"), "run");
    assert_eq!(stem_token("fruitlessly"), "fruitless");
    assert_eq!(stem_token("lazy"), "lazi");
    assert_eq!(stem_token("fox"), "fox");
    assert_eq!(stem_token(""), "");
}

#[test]
fn stem_token_gives_the_same_stem_each_time() {
    assert_eq!(stem_token("connections"), stem_token("connections"));
    assert_eq!(stem_token("connections"), "connect");
}

#[test]
fn process_text_lowers_and_stems_each_word() {
    assert_eq!(process_text("The Quick brown FOXES"), vec!["the", "quick", "brown", "fox"]);
}

#[test]
fn process_text_keeps_order_and_repeats() {
    assert_eq!(process_text("dogs dog Dogs running runs"), vec!["dog", "dog", "dog", "run", "run"]);
}

#[test]
fn process_text_of_blank_text_is_empty() {
    assert!(process_text("   ").is_empty());
}

#[test]
fn stem_token_takes_words_beyond_ascii() {
    assert_eq!(stem_token("\u{65e5}\u{672c}\u{8a9e}"), "\u{65e5}\u{672c}\u{8a9e}");
    assert_eq!(stem_token("na\u{ef}vely"), "na\u{ef}v");
    assert_eq!(stem_token("caf\u{e9}s"), "caf\u{e9}");
}

#[test]
fn stem_token_takes_any_mix_of_pieces() {
    let pieces = [
        "'", "y", "Y", "s", "es", "ed", "ing", "ly", "e", "a", "tion", "ies", "ied", "li", "ss", "us",
        "\u{e9}", "\u{df}", "\u{65e5}", "\u{1f600}", "b", "gener", "commun", "arsen", "sky", "ful",
        "ness", "ousli", "iz", "at", "bl", "eed", "ement", "ion", "l", "-", "1",
    ];
    let mut state: u64 = 0x2545_f491_4f6c_dd1d;
    let mut stemmed = 0usize;
    for _ in 0..40_000 {
        let mut word = String::new();
        state ^= state << 13;
        state ^= state >> 7;
        state ^= state << 17;
        let parts = 1 + (state % 6) as usize;
        for _ in 0..parts {
            state ^= state << 13;
            state ^= state >> 7;
            state ^= state << 17;
            word.push_str(pieces[(state % pieces.len() as u64) as usize]);
        }
        let stem = stem_token(&word);
        assert_eq!(stem, stem_token(&word));
        stemmed += 1;
    }
    assert_eq!(stemmed, 40_000);
}
