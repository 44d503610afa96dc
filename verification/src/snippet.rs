//! Snippets: the part of a document's text around the first place where a
//! term of the query stands in it, letter for letter.

use crate::text::{string_from_chars, to_chars, views_of};
use vstd::prelude::*;
use vstd::slice::slice_subrange;

verus! {

/// The number of characters shown before and after a match.
pub const SNIPPET_CONTEXT: usize = 25;

/// Whether `term` stands in `text` at position `at`.
pub open spec fn occurs_at(text: Seq<char>, term: Seq<char>, at: int) -> bool {
    0 <= at && at + term.len() <= text.len() && text.subrange(at, at + term.len()) == term
}

/// The first position at or after `from` where `term` stands in `text`.
pub open spec fn first_occurrence(text: Seq<char>, term: Seq<char>, from: int) -> Option<int>
    decreases text.len() + 1 - from,
{
    if from < 0 || from + term.len() > text.len() {
        None
    } else if occurs_at(text, term, from) {
        Some(from)
    } else {
        first_occurrence(text, term, from + 1)
    }
}

/// The part of `text` from `context` characters before position `at` to
/// `context` characters after the `width` characters that start there, cut
/// off at the ends of the text.
pub open spec fn window(text: Seq<char>, at: int, width: nat, context: nat) -> Seq<char> {
    let start = if at >= context {
        at - context
    } else {
        0
    };
    let end = if at + width + context <= text.len() {
        at + width + context
    } else {
        text.len() as int
    };
    text.subrange(start, end)
}

/// The snippet of `text` for `term`: the window around the first place
/// where the term stands, and none where it stands nowhere.
pub open spec fn snippet_of(text: Seq<char>, term: Seq<char>, context: nat) -> Option<Seq<char>> {
    match first_occurrence(text, term, 0) {
        Some(at) => Some(window(text, at, term.len(), context)),
        None => None,
    }
}

/// The snippet of `text` for the first of `terms` that has one.
pub open spec fn first_snippet_of(text: Seq<char>, terms: Seq<Seq<char>>, context: nat) -> Option<
    Seq<char>,
>
    decreases terms.len(),
{
    if terms.len() == 0 {
        None
    } else {
        match snippet_of(text, terms[0], context) {
            Some(snippet) => Some(snippet),
            None => first_snippet_of(text, terms.drop_first(), context),
        }
    }
}

/// The first occurrence is an occurrence, and the term stands at no
/// position between `from` and it. Where there is none, the term stands at
/// no position from `from` on.
pub proof fn lemma_first_occurrence(text: Seq<char>, term: Seq<char>, from: int)
    requires
        0 <= from,
    ensures
        match first_occurrence(text, term, from) {
            Some(at) => from <= at && occurs_at(text, term, at) && forall|k: int|
                from <= k < at ==> !occurs_at(text, term, k),
            None => forall|k: int| from <= k ==> !occurs_at(text, term, k),
        },
    decreases text.len() + 1 - from,
{
    if from + term.len() <= text.len() && !occurs_at(text, term, from) {
        lemma_first_occurrence(text, term, from + 1);
    }
}

/// Whether `term` stands in `text` at position `at`.
fn stands_at(text: &Vec<char>, term: &Vec<char>, at: usize) -> (found: bool)
    requires
        at + term.len() <= text.len(),
    ensures
        found == occurs_at(text@, term@, at as int),
{
    let mut k: usize = 0;
    while k < term.len()
        invariant
            k <= term.len(),
            at + term.len() <= text.len(),
            forall|n: int| 0 <= n < k ==> text@[at + n] == term@[n],
        decreases term.len() - k,
    {
        if text[at + k] != term[k] {
            return false;
        }
        k = k + 1;
    }
    assert(text@.subrange(at as int, at + term.len()) =~= term@);
    true
}

/// The first position where `term` stands in `text`.
fn find(text: &Vec<char>, term: &Vec<char>) -> (found: Option<usize>)
    ensures
        match found {
            Some(at) => first_occurrence(text@, term@, 0) == Some(at as int),
            None => first_occurrence(text@, term@, 0) is None,
        },
{
    if term.len() > text.len() {
        return None;
    }
    let last = text.len() - term.len();
    let mut at: usize = 0;
    while at < last
        invariant
            at <= last,
            last == text.len() - term.len(),
            first_occurrence(text@, term@, 0) == first_occurrence(text@, term@, at as int),
        decreases last - at,
    {
        if stands_at(text, term, at) {
            return Some(at);
        }
        at = at + 1;
    }
    if stands_at(text, term, last) {
        Some(last)
    } else {
        assert(first_occurrence(text@, term@, last + 1) is None);
        None
    }
}

/// The snippet of `text` for `term`, both given by their characters.
fn snippet_in(text: &Vec<char>, term: &Vec<char>, context: usize) -> (snippet: Option<String>)
    ensures
        match snippet {
            Some(s) => snippet_of(text@, term@, context as nat) == Some(s@),
            None => snippet_of(text@, term@, context as nat) is None,
        },
{
    match find(text, term) {
        None => None,
        Some(at) => {
            proof {
                lemma_first_occurrence(text@, term@, 0);
            }
            let start = if at >= context {
                at - context
            } else {
                0
            };
            let after = text.len() - at - term.len();
            let end = if context <= after {
                at + term.len() + context
            } else {
                text.len()
            };
            Some(string_from_chars(slice_subrange(text.as_slice(), start, end)))
        },
    }
}

/// The text around the first place where `term` stands in `content`:
/// `context` characters before the match and as many after it, as far as
/// the text reaches. `None` where the term does not stand in the text.
pub fn generate_snippet(content: &str, term: &str, context: usize) -> (snippet: Option<String>)
    ensures
        match snippet {
            Some(s) => snippet_of(content@, term@, context as nat) == Some(s@),
            None => snippet_of(content@, term@, context as nat) is None,
        },
{
    let text = to_chars(content);
    let wanted = to_chars(term);
    snippet_in(&text, &wanted, context)
}

/// The snippet for the first of `terms` that stands in `content`, in the
/// order of the terms.
pub fn first_snippet(content: &str, terms: &[String], context: usize) -> (snippet: Option<String>)
    ensures
        match snippet {
            Some(s) => first_snippet_of(content@, views_of(terms@), context as nat) == Some(s@),
            None => first_snippet_of(content@, views_of(terms@), context as nat) is None,
        },
{
    let text = to_chars(content);
    let ghost wanted = views_of(terms@);
    let mut i: usize = 0;
    assert(wanted.skip(0) == wanted);
    while i < terms.len()
        invariant
            i <= terms.len(),
            text@ == content@,
            wanted == views_of(terms@),
            first_snippet_of(content@, wanted, context as nat) == first_snippet_of(
                content@,
                wanted.skip(i as int),
                context as nat,
            ),
        decreases terms.len() - i,
    {
        proof {
            let rest = wanted.skip(i as int);
            assert(rest.drop_first() == wanted.skip(i + 1));
        }
        let term = to_chars(terms[i].as_str());
        match snippet_in(&text, &term, context) {
            Some(snippet) => {
                return Some(snippet);
            },
            None => {},
        }
        i = i + 1;
    }
    None
}

} // verus!
