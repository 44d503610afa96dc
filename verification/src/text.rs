//! Turning raw text into index terms: splitting on white space, lower-casing
//! and stemming.

use rust_stemmers::{Algorithm, Stemmer};
use vstd::prelude::*;
use vstd::string::*;
use vstd::utf8::encode_utf8;

verus! {

/// The longest word, in bytes of UTF-8, that is handed to the stemmer. The
/// stemmer keeps its positions in 32-bit signed integers.
pub const STEM_INPUT_LIMIT: usize = 0x7fff_ffff;

/// Whether `c` is white space in the sense of Unicode, as `char::is_whitespace`
/// reports it.
pub uninterp spec fn is_whitespace_char(c: char) -> bool;

/// The lower-case form of `text`, as `str::to_lowercase` produces it.
pub uninterp spec fn lowercase_of(text: Seq<char>) -> Seq<char>;

/// The stem that the Snowball stemmer for English gives to `word`.
pub uninterp spec fn english_stem(word: Seq<char>) -> Seq<char>;

/// The views of a sequence of strings.
pub open spec fn views_of(strings: Seq<String>) -> Seq<Seq<char>> {
    strings.map_values(|s: String| s@)
}

/// The number of bytes that `text` takes in UTF-8, as `str::len` counts them.
pub open spec fn byte_length(text: Seq<char>) -> usize {
    encode_utf8(text).len() as usize
}

/// The first position at or after `from` that holds white space, or the
/// length of `text` when there is none.
pub open spec fn word_end(text: Seq<char>, from: int) -> int
    decreases text.len() - from,
{
    if from < 0 || from >= text.len() || is_whitespace_char(text[from]) {
        from
    } else {
        word_end(text, from + 1)
    }
}

/// The words of `text` that begin at or after `from`: the maximal runs of
/// characters that are not white space, in the order in which they stand.
pub open spec fn words_from(text: Seq<char>, from: int) -> Seq<Seq<char>>
    decreases text.len() - from,
    via words_from_decreases
{
    if from < 0 || from >= text.len() {
        Seq::empty()
    } else if is_whitespace_char(text[from]) {
        words_from(text, from + 1)
    } else {
        seq![text.subrange(from, word_end(text, from))] + words_from(text, word_end(text, from))
    }
}

#[via_fn]
proof fn words_from_decreases(text: Seq<char>, from: int) {
    if 0 <= from < text.len() && !is_whitespace_char(text[from]) {
        lemma_word_end_bounds(text, from);
    }
}

/// The words of `text`, split on white space.
pub open spec fn split_words(text: Seq<char>) -> Seq<Seq<char>> {
    words_from(text, 0)
}

/// The index term for `word`: its English stem. A word too long for the
/// stemmer stands for itself.
pub open spec fn stem_of(word: Seq<char>) -> Seq<char> {
    if byte_length(word) <= STEM_INPUT_LIMIT {
        english_stem(word)
    } else {
        word
    }
}

/// The index terms of a document's text: each word, lower-cased and stemmed.
pub open spec fn stems_of(text: Seq<char>) -> Seq<Seq<char>> {
    split_words(text).map_values(|w: Seq<char>| stem_of(lowercase_of(w)))
}

/// A word that starts at `from` ends after `from` and within the text; it
/// holds no white space and is followed by white space or by the end.
pub proof fn lemma_word_end_bounds(text: Seq<char>, from: int)
    requires
        0 <= from < text.len(),
        !is_whitespace_char(text[from]),
    ensures
        from < word_end(text, from) <= text.len(),
        forall|k: int| from <= k < word_end(text, from) ==> !is_whitespace_char(#[trigger] text[k]),
        word_end(text, from) < text.len() ==> is_whitespace_char(text[word_end(text, from)]),
    decreases text.len() - from,
{
    if from + 1 < text.len() && !is_whitespace_char(text[from + 1]) {
        lemma_word_end_bounds(text, from + 1);
    } else {
        assert(word_end(text, from + 1) == from + 1);
    }
}

/// A run of characters without white space that reaches up to `end`, where
/// white space or the end of the text follows, is the word that starts at
/// `from`.
pub proof fn lemma_word_end_is(text: Seq<char>, from: int, end: int)
    requires
        0 <= from <= end <= text.len(),
        forall|k: int| from <= k < end ==> !is_whitespace_char(#[trigger] text[k]),
        end < text.len() ==> is_whitespace_char(text[end]),
    ensures
        word_end(text, from) == end,
    decreases end - from,
{
    if from < end {
        lemma_word_end_is(text, from + 1, end);
    }
}

/// Calls `char::is_whitespace`, which reports whether a character counts
/// as white space in Unicode (White_Space).
#[verifier::external_body]
fn is_whitespace(c: char) -> (b: bool)
    ensures
        b == is_whitespace_char(c),
{
    c.is_whitespace()
}

/// Calls `str::to_lowercase`, which returns the lower-case equivalent of a
/// string slice as a new `String`.
#[verifier::external_body]
fn to_lowercase(text: &str) -> (lower: String)
    ensures
        lower@ == lowercase_of(text@),
{
    text.to_lowercase()
}

/// Calls `Stemmer::stem` of rust_stemmers on a stemmer created for
/// `Algorithm::English`. The result is a function of the word alone. Words
/// longer than `STEM_INPUT_LIMIT` bytes are kept away from it.
#[verifier::external_body]
fn stem_english(word: &str) -> (stem: String)
    requires
        byte_length(word@) <= STEM_INPUT_LIMIT,
    ensures
        stem@ == english_stem(word@),
{
    Stemmer::create(Algorithm::English).stem(word).into_owned()
}

/// Collects characters into a `String` through `String::from_iter`: the
/// string holds exactly these characters, in this order.
#[verifier::external_body]
pub(crate) fn string_from_chars(chars: &[char]) -> (text: String)
    ensures
        text@ == chars@,
{
    String::from_iter(chars.iter())
}

/// The characters of `text`.
pub(crate) fn to_chars(text: &str) -> (chars: Vec<char>)
    ensures
        chars@ == text@,
{
    let mut chars: Vec<char> = Vec::new();
    for c in it: text.chars()
        invariant
            chars@ == it.seq().take(it.index()),
            it.seq() == text@,
    {
        chars.push(c);
    }
    chars
}

/// Stems one word.
pub fn stem_token(word: &str) -> (stem: String)
    ensures
        stem@ == stem_of(word@),
{
    if word.len() <= STEM_INPUT_LIMIT {
        stem_english(word)
    } else {
        word.to_owned()
    }
}

/// Splits `text` on white space into its words.
pub fn split_whitespace(text: &str) -> (words: Vec<String>)
    ensures
        views_of(words@) == split_words(text@),
{
    let chars = to_chars(text);
    let mut words: Vec<String> = Vec::new();
    let mut current: Vec<char> = Vec::new();
    let ghost mut start: int = 0;
    let mut i: usize = 0;
    while i < chars.len()
        invariant
            chars@ == text@,
            0 <= start <= i <= chars.len(),
            current@ == chars@.subrange(start, i as int),
            forall|k: int| start <= k < i ==> !is_whitespace_char(#[trigger] chars@[k]),
            views_of(words@) + words_from(chars@, start) == split_words(chars@),
        decreases chars.len() - i,
    {
        let c = chars[i];
        if is_whitespace(c) {
            assert(words_from(chars@, i as int) == words_from(chars@, i + 1));
            if current.len() > 0 {
                proof {
                    lemma_word_end_is(chars@, start, i as int);
                }
                words.push(string_from_chars(current.as_slice()));
                current = Vec::new();
            }
            proof {
                start = i + 1;
            }
        } else {
            current.push(c);
        }
        i = i + 1;
    }
    if current.len() > 0 {
        proof {
            lemma_word_end_is(chars@, start, chars.len() as int);
        }
        assert(words_from(chars@, chars.len() as int) == Seq::<Seq<char>>::empty());
        words.push(string_from_chars(current.as_slice()));
    }
    words
}

/// The index terms of `text`: its words, lower-cased and stemmed, in order.
pub fn process_text(text: &str) -> (stems: Vec<String>)
    ensures
        views_of(stems@) == stems_of(text@),
{
    let words = split_whitespace(text);
    let mut stems: Vec<String> = Vec::new();
    let mut i: usize = 0;
    while i < words.len()
        invariant
            i <= words.len(),
            stems.len() == i,
            forall|k: int| 0 <= k < i ==> (#[trigger] stems@[k])@ == stem_of(lowercase_of(words@[k]@)),
        decreases words.len() - i,
    {
        let lower = to_lowercase(words[i].as_str());
        let stem = stem_token(lower.as_str());
        stems.push(stem);
        i = i + 1;
    }
    stems
}

} // verus!
