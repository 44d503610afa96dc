//! Resolving the tokens of a query against the vocabulary of the corpus:
//! a stem that the corpus knows stands for itself, any other is replaced by
//! the terms of the vocabulary that are closest to it.

use crate::distance::{edit_distance, levenshtein};
use crate::idf::IdfTable;
use crate::tally::{has_term, terms_of, Entry, TermTable};
use crate::text::{stem_of, stem_token, views_of};
use vstd::prelude::*;
use vstd::string::*;

verus! {

/// One line of the stem cache: a raw word and its stem.
pub struct CachedStem {
    pub word: Seq<char>,
    pub stem: Seq<char>,
}

/// Whether the cache has a line for `word`.
pub open spec fn is_cached(cache: Seq<CachedStem>, word: Seq<char>) -> bool {
    exists|i: int| 0 <= i < cache.len() && (#[trigger] cache[i]).word == word
}

/// The stem that the cache holds for `word`. It is meaningful where
/// `is_cached` holds.
pub open spec fn cached_stem(cache: Seq<CachedStem>, word: Seq<char>) -> Seq<char> {
    cache[choose|i: int| 0 <= i < cache.len() && (#[trigger] cache[i]).word == word].stem
}

/// Every line holds the stem of its word, and no word has two lines.
pub open spec fn faithful(cache: Seq<CachedStem>) -> bool {
    &&& forall|i: int| 0 <= i < cache.len() ==> (#[trigger] cache[i]).stem == stem_of(cache[i].word)
    &&& forall|i: int, j: int|
        0 <= i < j < cache.len() ==> (#[trigger] cache[i]).word != (#[trigger] cache[j]).word
}

/// The cache after `word` was stemmed: unchanged if it had the word, else
/// one line longer.
pub open spec fn remember(cache: Seq<CachedStem>, word: Seq<char>) -> Seq<CachedStem> {
    if is_cached(cache, word) {
        cache
    } else {
        cache.push(CachedStem { word, stem: stem_of(word) })
    }
}

/// The cache after each of `words` was stemmed, in order.
pub open spec fn remember_all(cache: Seq<CachedStem>, words: Seq<Seq<char>>) -> Seq<CachedStem>
    decreases words.len(),
{
    if words.len() == 0 {
        cache
    } else {
        remember(remember_all(cache, words.drop_last()), words.last())
    }
}

/// The least distance from `word` to a term of the vocabulary; zero for a
/// vocabulary without terms.
pub open spec fn min_distance(word: Seq<char>, vocabulary: Seq<Seq<char>>) -> nat
    decreases vocabulary.len(),
{
    if vocabulary.len() == 0 {
        0
    } else if vocabulary.len() == 1 {
        edit_distance(word, vocabulary[0])
    } else {
        let before = min_distance(word, vocabulary.drop_last());
        let last = edit_distance(word, vocabulary.last());
        if last < before {
            last
        } else {
            before
        }
    }
}

/// The terms of the vocabulary at distance `distance` from `word`, in the
/// order of the vocabulary.
pub open spec fn at_distance(
    word: Seq<char>,
    vocabulary: Seq<Seq<char>>,
    distance: nat,
) -> Seq<Seq<char>>
    decreases vocabulary.len(),
{
    if vocabulary.len() == 0 {
        Seq::empty()
    } else {
        let before = at_distance(word, vocabulary.drop_last(), distance);
        if edit_distance(word, vocabulary.last()) == distance {
            before.push(vocabulary.last())
        } else {
            before
        }
    }
}

/// The terms of the vocabulary that are closest to `word`: all those at the
/// least distance.
pub open spec fn closest(word: Seq<char>, vocabulary: Seq<Seq<char>>) -> Seq<Seq<char>> {
    at_distance(word, vocabulary, min_distance(word, vocabulary))
}

/// The terms that stand for one token of a query.
pub open spec fn resolution_of(token: Seq<char>, vocabulary: Seq<Entry>) -> Seq<Seq<char>> {
    if has_term(vocabulary, stem_of(token)) {
        seq![stem_of(token)]
    } else {
        closest(stem_of(token), terms_of(vocabulary))
    }
}

/// The terms that are suggested in place of one token of a query.
pub open spec fn suggestions_for(token: Seq<char>, vocabulary: Seq<Entry>) -> Seq<Seq<char>> {
    if has_term(vocabulary, stem_of(token)) {
        Seq::empty()
    } else {
        closest(stem_of(token), terms_of(vocabulary))
    }
}

/// The terms that stand for a query, token by token.
pub open spec fn resolved_terms(query: Seq<Seq<char>>, vocabulary: Seq<Entry>) -> Seq<Seq<char>>
    decreases query.len(),
{
    if query.len() == 0 {
        Seq::empty()
    } else {
        resolved_terms(query.drop_last(), vocabulary) + resolution_of(query.last(), vocabulary)
    }
}

/// The terms that are suggested for a query, token by token.
pub open spec fn suggested_terms(query: Seq<Seq<char>>, vocabulary: Seq<Entry>) -> Seq<Seq<char>>
    decreases query.len(),
{
    if query.len() == 0 {
        Seq::empty()
    } else {
        suggested_terms(query.drop_last(), vocabulary) + suggestions_for(query.last(), vocabulary)
    }
}

/// Stemming a word leaves a faithful cache faithful. Afterwards the cache
/// holds the stem of that word, and for every word that it held before it
/// still holds the same stem.
pub proof fn lemma_remember(cache: Seq<CachedStem>, word: Seq<char>)
    requires
        faithful(cache),
    ensures
        faithful(remember(cache, word)),
        is_cached(remember(cache, word), word),
        cached_stem(remember(cache, word), word) == stem_of(word),
        forall|other: Seq<char>| #[trigger]
            is_cached(cache, other) ==> is_cached(remember(cache, word), other) && cached_stem(
                remember(cache, word),
                other,
            ) == cached_stem(cache, other),
{
    let after = remember(cache, word);
    if is_cached(cache, word) {
        lemma_cached_stem(cache, word);
    } else {
        let n = cache.len() as int;
        assert(after[n].word == word);
        assert forall|i: int, j: int| 0 <= i < j < after.len() implies (#[trigger] after[i]).word != (
        #[trigger] after[j]).word by {}
        assert forall|i: int| 0 <= i < after.len() implies (#[trigger] after[i]).stem == stem_of(
            after[i].word,
        ) by {}
        lemma_cached_stem(after, word);
        assert forall|other: Seq<char>| #[trigger] is_cached(cache, other) implies is_cached(
            after,
            other,
        ) && cached_stem(after, other) == cached_stem(cache, other) by {
            let k = choose|k: int| 0 <= k < cache.len() && (#[trigger] cache[k]).word == other;
            assert(after[k].word == other);
            lemma_cached_stem(after, other);
            lemma_cached_stem(cache, other);
        }
    }
}

/// A faithful cache holds for a word that it has the stem of that word.
pub proof fn lemma_cached_stem(cache: Seq<CachedStem>, word: Seq<char>)
    requires
        faithful(cache),
        is_cached(cache, word),
    ensures
        cached_stem(cache, word) == stem_of(word),
{
}

/// No term of the vocabulary is nearer to the word than the least distance.
pub proof fn lemma_min_distance_is_least(word: Seq<char>, vocabulary: Seq<Seq<char>>, i: int)
    requires
        0 <= i < vocabulary.len(),
    ensures
        min_distance(word, vocabulary) <= edit_distance(word, vocabulary[i]),
    decreases vocabulary.len(),
{
    if vocabulary.len() > 1 && i < vocabulary.len() - 1 {
        lemma_min_distance_is_least(word, vocabulary.drop_last(), i);
    }
}

/// Some term of a vocabulary that is not empty lies at the least distance.
pub proof fn lemma_min_distance_is_reached(word: Seq<char>, vocabulary: Seq<Seq<char>>) -> (i: int)
    requires
        vocabulary.len() > 0,
    ensures
        0 <= i < vocabulary.len(),
        edit_distance(word, vocabulary[i]) == min_distance(word, vocabulary),
    decreases vocabulary.len(),
{
    if vocabulary.len() == 1 {
        0
    } else {
        let before = min_distance(word, vocabulary.drop_last());
        if edit_distance(word, vocabulary.last()) < before {
            vocabulary.len() - 1
        } else {
            lemma_min_distance_is_reached(word, vocabulary.drop_last())
        }
    }
}

/// The terms at a given distance are exactly the terms of the vocabulary
/// that lie at that distance.
pub proof fn lemma_at_distance(word: Seq<char>, vocabulary: Seq<Seq<char>>, distance: nat)
    ensures
        forall|i: int|
            0 <= i < at_distance(word, vocabulary, distance).len() ==> {
                let term = #[trigger] at_distance(word, vocabulary, distance)[i];
                vocabulary.contains(term) && edit_distance(word, term) == distance
            },
        forall|j: int|
            0 <= j < vocabulary.len() && edit_distance(word, #[trigger] vocabulary[j]) == distance
                ==> at_distance(word, vocabulary, distance).contains(vocabulary[j]),
    decreases vocabulary.len(),
{
    let found = at_distance(word, vocabulary, distance);
    if vocabulary.len() > 0 {
        let shorter = vocabulary.drop_last();
        let before = at_distance(word, shorter, distance);
        lemma_at_distance(word, shorter, distance);
        assert forall|i: int| 0 <= i < found.len() implies {
            let term = #[trigger] found[i];
            vocabulary.contains(term) && edit_distance(word, term) == distance
        } by {
            if i < before.len() {
                let k = choose|k: int| 0 <= k < shorter.len() && shorter[k] == before[i];
                assert(vocabulary[k] == before[i]);
            }
        }
        assert forall|j: int|
            0 <= j < vocabulary.len() && edit_distance(word, #[trigger] vocabulary[j])
                == distance implies found.contains(vocabulary[j]) by {
            if j < shorter.len() {
                let k = choose|k: int| 0 <= k < before.len() && before[k] == shorter[j];
                assert(found[k] == vocabulary[j]);
            } else {
                assert(found[found.len() - 1] == vocabulary[j]);
            }
        }
    }
}

/// No term lies at a distance below the least one.
pub proof fn lemma_none_below_least(word: Seq<char>, vocabulary: Seq<Seq<char>>, distance: nat)
    requires
        forall|i: int|
            0 <= i < vocabulary.len() ==> edit_distance(word, #[trigger] vocabulary[i]) > distance,
    ensures
        at_distance(word, vocabulary, distance) == Seq::<Seq<char>>::empty(),
    decreases vocabulary.len(),
{
    if vocabulary.len() > 0 {
        let shorter = vocabulary.drop_last();
        assert forall|i: int| 0 <= i < shorter.len() implies edit_distance(
            word,
            #[trigger] shorter[i],
        ) > distance by {}
        lemma_none_below_least(word, shorter, distance);
    }
}

/// The terms suggested for a word are those terms of the vocabulary that
/// lie at the least distance from it: each of them does, every term that
/// does is among them, no term of the vocabulary lies nearer, and where the
/// vocabulary has a term at all there is a suggestion.
pub proof fn lemma_closest_is_minimal(word: Seq<char>, vocabulary: Seq<Seq<char>>)
    ensures
        forall|i: int|
            0 <= i < closest(word, vocabulary).len() ==> {
                let term = #[trigger] closest(word, vocabulary)[i];
                vocabulary.contains(term) && edit_distance(word, term) == min_distance(
                    word,
                    vocabulary,
                )
            },
        forall|j: int|
            0 <= j < vocabulary.len() ==> min_distance(word, vocabulary) <= edit_distance(
                word,
                #[trigger] vocabulary[j],
            ),
        forall|j: int|
            0 <= j < vocabulary.len() && edit_distance(word, #[trigger] vocabulary[j])
                == min_distance(word, vocabulary) ==> closest(word, vocabulary).contains(
                vocabulary[j],
            ),
        vocabulary.len() > 0 ==> closest(word, vocabulary).len() > 0,
        vocabulary.len() == 0 ==> closest(word, vocabulary).len() == 0,
{
    lemma_at_distance(word, vocabulary, min_distance(word, vocabulary));
    assert forall|j: int| 0 <= j < vocabulary.len() implies min_distance(word, vocabulary)
        <= edit_distance(word, #[trigger] vocabulary[j]) by {
        lemma_min_distance_is_least(word, vocabulary, j);
    }
    if vocabulary.len() > 0 {
        let i = lemma_min_distance_is_reached(word, vocabulary);
        assert(closest(word, vocabulary).contains(vocabulary[i]));
    }
}

/// How the closest terms change when the vocabulary grows by one term.
pub proof fn lemma_closest_step(word: Seq<char>, vocabulary: Seq<Seq<char>>, term: Seq<char>)
    ensures
        ({
            let longer = vocabulary.push(term);
            let distance = edit_distance(word, term);
            let least = min_distance(word, vocabulary);
            if vocabulary.len() == 0 || distance < least {
                min_distance(word, longer) == distance && closest(word, longer) == seq![term]
            } else if distance == least {
                min_distance(word, longer) == least && closest(word, longer) == closest(
                    word,
                    vocabulary,
                ).push(term)
            } else {
                min_distance(word, longer) == least && closest(word, longer) == closest(
                    word,
                    vocabulary,
                )
            }
        }),
{
    let longer = vocabulary.push(term);
    let distance = edit_distance(word, term);
    let least = min_distance(word, vocabulary);
    assert(longer.drop_last() == vocabulary);
    if vocabulary.len() == 0 {
        assert(at_distance(word, vocabulary, distance) == Seq::<Seq<char>>::empty());
    } else if distance < least {
        assert forall|i: int| 0 <= i < vocabulary.len() implies edit_distance(
            word,
            #[trigger] vocabulary[i],
        ) > distance by {
            lemma_min_distance_is_least(word, vocabulary, i);
        }
        lemma_none_below_least(word, vocabulary, distance);
    }
}

/// A raw word with its stem.
pub struct StemEntry {
    pub word: String,
    pub stem: String,
}

/// The stems of the words that were stemmed so far. It only grows.
pub struct StemCache {
    entries: Vec<StemEntry>,
}

impl View for StemCache {
    type V = Seq<CachedStem>;

    closed spec fn view(&self) -> Seq<CachedStem> {
        self.entries@.map_values(|e: StemEntry| CachedStem { word: e.word@, stem: e.stem@ })
    }
}

impl StemCache {
    /// Every line holds the stem of its word, and no word has two lines.
    pub open spec fn wf(&self) -> bool {
        faithful(self@)
    }

    /// A cache without lines.
    pub fn new() -> (cache: StemCache)
        ensures
            cache@ == Seq::<CachedStem>::empty(),
            cache.wf(),
    {
        StemCache { entries: Vec::new() }
    }

    /// The number of words that the cache holds.
    pub fn len(&self) -> (n: usize)
        ensures
            n == self@.len(),
    {
        self.entries.len()
    }

    /// The stem that the cache holds for `word`, if it holds one.
    pub fn lookup(&self, word: &String) -> (found: Option<&String>)
        ensures
            match found {
                Some(stem) => is_cached(self@, word@) && (self.wf() ==> stem@ == stem_of(word@)),
                None => !is_cached(self@, word@),
            },
    {
        let mut i: usize = 0;
        while i < self.entries.len()
            invariant
                i <= self.entries.len(),
                forall|k: int| 0 <= k < i ==> (#[trigger] self@[k]).word != word@,
            decreases self.entries.len() - i,
        {
            if self.entries[i].word == *word {
                assert(self@[i as int].word == word@);
                return Some(&self.entries[i].stem);
            }
            i = i + 1;
        }
        None
    }

    /// The stem of `word`, taken from the cache where it is there, and
    /// computed and kept otherwise.
    pub fn stem_word(&mut self, word: &str) -> (stem: String)
        requires
            old(self).wf(),
        ensures
            stem@ == stem_of(word@),
            final(self)@ == remember(old(self)@, word@),
            final(self).wf(),
    {
        proof {
            lemma_remember(self@, word@);
        }
        let key = word.to_owned();
        match self.lookup(&key) {
            Some(stem) => stem.clone(),
            None => {
                let stem = stem_token(word);
                self.entries.push(StemEntry { word: key, stem: stem.clone() });
                stem
            },
        }
    }
}

/// Appends copies of the strings of `source` to `target`.
pub fn append_copies(target: &mut Vec<String>, source: &Vec<String>)
    ensures
        views_of(final(target)@) == views_of(old(target)@) + views_of(source@),
{
    let mut i: usize = 0;
    while i < source.len()
        invariant
            i <= source.len(),
            views_of(target@) == views_of(old(target)@) + views_of(source@).take(i as int),
        decreases source.len() - i,
    {
        let ghost before = target@;
        target.push(source[i].clone());
        assert(views_of(target@) =~= views_of(before).push(source@[i as int]@));
        i = i + 1;
    }
}

/// The terms of the vocabulary that are closest to `word` by edit distance:
/// every term at the least distance, in the order of the vocabulary, and
/// none where the vocabulary is empty.
pub fn suggest_words(word: &str, vocabulary: &TermTable) -> (suggestions: Vec<String>)
    ensures
        views_of(suggestions@) == closest(word@, terms_of(vocabulary@)),
{
    let ghost terms = terms_of(vocabulary@);
    let mut suggestions: Vec<String> = Vec::new();
    let mut least: usize = 0;
    let mut i: usize = 0;
    while i < vocabulary.len()
        invariant
            i <= vocabulary@.len(),
            terms == terms_of(vocabulary@),
            views_of(suggestions@) == closest(word@, terms.take(i as int)),
            i > 0 ==> least == min_distance(word@, terms.take(i as int)),
        decreases vocabulary@.len() - i,
    {
        let term = vocabulary.term(i);
        let distance = levenshtein(word, term.as_str());
        proof {
            lemma_closest_step(word@, terms.take(i as int), term@);
            assert(terms.take(i + 1) == terms.take(i as int).push(term@));
        }
        if i == 0 || distance < least {
            least = distance;
            suggestions = Vec::new();
            suggestions.push(term.clone());
        } else if distance == least {
            suggestions.push(term.clone());
        }
        i = i + 1;
    }
    assert(terms.take(vocabulary@.len() as int) == terms);
    suggestions
}

/// A query after resolution.
#[derive(Clone, Debug, PartialEq, Eq)]
pub struct Resolution {
    /// The terms that stand for the query, in the order of its tokens.
    pub resolved: Vec<String>,
    /// The terms that took the place of tokens unknown to the corpus.
    pub suggestions: Vec<String>,
}

/// Resolves the tokens of a query. The stem of a token stands for it where
/// the table knows the stem; otherwise the closest terms of the vocabulary
/// stand for it and are suggested.
pub fn resolve_query(query: &[String], idf: &IdfTable, cache: &mut StemCache) -> (resolution:
    Resolution)
    requires
        old(cache).wf(),
    ensures
        final(cache).wf(),
        final(cache)@ == remember_all(old(cache)@, views_of(query@)),
        views_of(resolution.resolved@) == resolved_terms(views_of(query@), idf@.frequencies),
        views_of(resolution.suggestions@) == suggested_terms(views_of(query@), idf@.frequencies),
{
    let ghost tokens = views_of(query@);
    let ghost vocabulary = idf@.frequencies;
    let mut resolved: Vec<String> = Vec::new();
    let mut suggestions: Vec<String> = Vec::new();
    let mut i: usize = 0;
    while i < query.len()
        invariant
            i <= query.len(),
            tokens == views_of(query@),
            vocabulary == idf@.frequencies,
            cache.wf(),
            cache@ == remember_all(old(cache)@, tokens.take(i as int)),
            views_of(resolved@) == resolved_terms(tokens.take(i as int), vocabulary),
            views_of(suggestions@) == suggested_terms(tokens.take(i as int), vocabulary),
        decreases query.len() - i,
    {
        proof {
            let next = tokens.take(i + 1);
            assert(next.drop_last() == tokens.take(i as int));
        }
        let stem = cache.stem_word(query[i].as_str());
        if idf.contains(&stem) {
            resolved.push(stem);
        } else {
            let found = suggest_words(stem.as_str(), idf.frequencies());
            append_copies(&mut suggestions, &found);
            append_copies(&mut resolved, &found);
        }
        i = i + 1;
    }
    assert(tokens.take(query.len() as int) == tokens);
    Resolution { resolved, suggestions }
}

} // verus!
