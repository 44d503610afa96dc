//! A table from terms to counts, kept in the order in which the terms were
//! first recorded.

use vstd::prelude::*;

verus! {

/// One line of a table: a term and how often it was recorded.
pub struct Entry {
    pub term: Seq<char>,
    pub count: nat,
}

/// Whether the table has a line for `term`.
pub open spec fn has_term(table: Seq<Entry>, term: Seq<char>) -> bool {
    exists|i: int| 0 <= i < table.len() && (#[trigger] table[i]).term == term
}

/// The position of a line for `term`. It is meaningful where `has_term` holds.
pub open spec fn index_of(table: Seq<Entry>, term: Seq<char>) -> int {
    choose|i: int| 0 <= i < table.len() && (#[trigger] table[i]).term == term
}

/// The count recorded for `term`: zero for a term without a line.
pub open spec fn count_of(table: Seq<Entry>, term: Seq<char>) -> nat {
    if has_term(table, term) {
        table[index_of(table, term)].count
    } else {
        0
    }
}

/// No term has two lines.
pub open spec fn distinct_terms(table: Seq<Entry>) -> bool {
    forall|i: int, j: int|
        0 <= i < j < table.len() ==> (#[trigger] table[i]).term != (#[trigger] table[j]).term
}

/// No term has two lines, and no line has a count of zero.
pub open spec fn well_formed(table: Seq<Entry>) -> bool {
    &&& distinct_terms(table)
    &&& forall|i: int| 0 <= i < table.len() ==> (#[trigger] table[i]).count >= 1
}

/// The sum of all counts.
pub open spec fn total(table: Seq<Entry>) -> nat
    decreases table.len(),
{
    if table.len() == 0 {
        0
    } else {
        total(table.drop_last()) + table.last().count
    }
}

/// The terms of the table, in the order of their lines.
pub open spec fn terms_of(table: Seq<Entry>) -> Seq<Seq<char>> {
    table.map_values(|e: Entry| e.term)
}

/// The table after one more occurrence of `term`: its count grows by one, or
/// it gets a new line at the end with count one.
pub open spec fn record(table: Seq<Entry>, term: Seq<char>) -> Seq<Entry> {
    if has_term(table, term) {
        let i = index_of(table, term);
        table.update(i, Entry { term, count: table[i].count + 1 })
    } else {
        table.push(Entry { term, count: 1 })
    }
}

/// The table after one occurrence of each of `terms`, taken in order.
pub open spec fn record_all(table: Seq<Entry>, terms: Seq<Seq<char>>) -> Seq<Entry>
    decreases terms.len(),
{
    if terms.len() == 0 {
        table
    } else {
        record(record_all(table, terms.drop_last()), terms.last())
    }
}

/// The table that counts the occurrences in `terms`.
pub open spec fn tally_of(terms: Seq<Seq<char>>) -> Seq<Entry> {
    record_all(Seq::empty(), terms)
}

/// How often `term` occurs in `terms`.
pub open spec fn occurrences(terms: Seq<Seq<char>>, term: Seq<char>) -> nat
    decreases terms.len(),
{
    if terms.len() == 0 {
        0
    } else {
        occurrences(terms.drop_last(), term) + if terms.last() == term {
            1nat
        } else {
            0nat
        }
    }
}

/// In a table without repeated terms, the line at `i` is the one that
/// `index_of` finds for its term.
pub proof fn lemma_index_of_unique(table: Seq<Entry>, i: int)
    requires
        distinct_terms(table),
        0 <= i < table.len(),
    ensures
        has_term(table, table[i].term),
        index_of(table, table[i].term) == i,
        count_of(table, table[i].term) == table[i].count,
{
}

/// Changing the count of one line of a table changes the total by as much.
pub proof fn lemma_total_update(table: Seq<Entry>, i: int, entry: Entry)
    requires
        0 <= i < table.len(),
    ensures
        total(table.update(i, entry)) + table[i].count == total(table) + entry.count,
    decreases table.len(),
{
    let updated = table.update(i, entry);
    if i == table.len() - 1 {
        assert(updated.drop_last() == table.drop_last());
    } else {
        assert(updated.drop_last() == table.drop_last().update(i, entry));
        lemma_total_update(table.drop_last(), i, entry);
    }
}

/// Recording a term keeps a table well formed, adds one to the count of that
/// term and to the total, and leaves every other count as it was.
pub proof fn lemma_record(table: Seq<Entry>, term: Seq<char>)
    requires
        well_formed(table),
    ensures
        well_formed(record(table, term)),
        total(record(table, term)) == total(table) + 1,
        has_term(record(table, term), term),
        count_of(record(table, term), term) == count_of(table, term) + 1,
        forall|other: Seq<char>|
            other != term ==> has_term(record(table, term), other) == has_term(table, other),
        forall|other: Seq<char>|
            other != term ==> count_of(record(table, term), other) == count_of(table, other),
{
    let after = record(table, term);
    if has_term(table, term) {
        let i = index_of(table, term);
        lemma_total_update(table, i, Entry { term, count: table[i].count + 1 });
        assert forall|a: int, b: int| 0 <= a < b < after.len() implies (#[trigger] after[a]).term != (
        #[trigger] after[b]).term by {}
        lemma_index_of_unique(after, i);
        assert forall|other: Seq<char>| other != term implies has_term(after, other) == has_term(
            table,
            other,
        ) && count_of(after, other) == count_of(table, other) by {
            if has_term(table, other) {
                let k = index_of(table, other);
                lemma_index_of_unique(after, k);
                lemma_index_of_unique(table, k);
            }
            if has_term(after, other) {
                let k = index_of(after, other);
                assert(table[k].term == other);
            }
        }
    } else {
        let n = table.len() as int;
        assert(after.drop_last() == table);
        assert forall|a: int, b: int| 0 <= a < b < after.len() implies (#[trigger] after[a]).term != (
        #[trigger] after[b]).term by {}
        lemma_index_of_unique(after, n);
        assert forall|other: Seq<char>| other != term implies has_term(after, other) == has_term(
            table,
            other,
        ) && count_of(after, other) == count_of(table, other) by {
            if has_term(table, other) {
                let k = index_of(table, other);
                lemma_index_of_unique(after, k);
                lemma_index_of_unique(table, k);
            }
        }
    }
}

/// Recording a run of terms keeps a table well formed, adds to each count
/// the number of times the term occurs in the run, and adds the length of
/// the run to the total.
pub proof fn lemma_record_all(table: Seq<Entry>, terms: Seq<Seq<char>>)
    requires
        well_formed(table),
    ensures
        well_formed(record_all(table, terms)),
        total(record_all(table, terms)) == total(table) + terms.len(),
        forall|term: Seq<char>|
            count_of(record_all(table, terms), term) == count_of(table, term) + occurrences(
                terms,
                term,
            ),
        forall|term: Seq<char>|
            has_term(record_all(table, terms), term) == (has_term(table, term) || occurrences(
                terms,
                term,
            ) > 0),
    decreases terms.len(),
{
    if terms.len() > 0 {
        let before = record_all(table, terms.drop_last());
        lemma_record_all(table, terms.drop_last());
        lemma_record(before, terms.last());
        assert forall|term: Seq<char>|
            count_of(record_all(table, terms), term) == count_of(table, term) + occurrences(
                terms,
                term,
            ) && has_term(record_all(table, terms), term) == (has_term(table, term) || occurrences(
                terms,
                term,
            ) > 0) by {
            if term != terms.last() {
                assert(count_of(record(before, terms.last()), term) == count_of(before, term));
            }
        }
    }
}

/// The table that counts a run of terms is well formed, holds for each term
/// the number of its occurrences, and sums up to the length of the run.
pub proof fn lemma_tally_counts(terms: Seq<Seq<char>>)
    ensures
        well_formed(tally_of(terms)),
        total(tally_of(terms)) == terms.len(),
        forall|term: Seq<char>| count_of(tally_of(terms), term) == occurrences(terms, term),
        forall|term: Seq<char>| has_term(tally_of(terms), term) == (occurrences(terms, term) > 0),
{
    let empty = Seq::<Entry>::empty();
    lemma_record_all(empty, terms);
    assert forall|term: Seq<char>| !has_term(empty, term) by {}
    assert forall|term: Seq<char>| count_of(tally_of(terms), term) == occurrences(terms, term) by {}
}

/// No count is larger than the total.
pub proof fn lemma_count_within_total(table: Seq<Entry>, i: int)
    requires
        0 <= i < table.len(),
    ensures
        table[i].count <= total(table),
    decreases table.len(),
{
    if i < table.len() - 1 {
        lemma_count_within_total(table.drop_last(), i);
    }
}

/// A term with its count.
pub struct TermCount {
    pub term: String,
    pub count: u128,
}

/// A table from terms to positive counts.
pub struct TermTable {
    entries: Vec<TermCount>,
}

impl View for TermTable {
    type V = Seq<Entry>;

    closed spec fn view(&self) -> Seq<Entry> {
        self.entries@.map_values(|e: TermCount| Entry { term: e.term@, count: e.count as nat })
    }
}

impl TermTable {
    /// No term has two lines, and every count is at least one.
    pub open spec fn wf(&self) -> bool {
        well_formed(self@)
    }

    /// A table without lines.
    pub fn new() -> (table: TermTable)
        ensures
            table@ == Seq::<Entry>::empty(),
            table.wf(),
    {
        TermTable { entries: Vec::new() }
    }

    /// The number of lines.
    pub fn len(&self) -> (n: usize)
        ensures
            n == self@.len(),
    {
        self.entries.len()
    }

    /// The term of line `i`.
    pub fn term(&self, i: usize) -> (term: &String)
        requires
            i < self@.len(),
        ensures
            term@ == self@[i as int].term,
    {
        &self.entries[i].term
    }

    /// The count of line `i`.
    pub fn count(&self, i: usize) -> (count: u128)
        requires
            i < self@.len(),
        ensures
            count == self@[i as int].count,
    {
        self.entries[i].count
    }

    /// The line that holds `term`, if there is one.
    pub fn position(&self, term: &String) -> (found: Option<usize>)
        ensures
            match found {
                Some(i) => i < self@.len() && self@[i as int].term == term@ && forall|k: int|
                    0 <= k < i ==> (#[trigger] self@[k]).term != term@,
                None => !has_term(self@, term@),
            },
    {
        let mut i: usize = 0;
        while i < self.entries.len()
            invariant
                i <= self.entries.len(),
                forall|k: int| 0 <= k < i ==> (#[trigger] self@[k]).term != term@,
            decreases self.entries.len() - i,
        {
            if self.entries[i].term == *term {
                return Some(i);
            }
            i = i + 1;
        }
        None
    }

    /// Whether `term` has a line.
    pub fn contains(&self, term: &String) -> (found: bool)
        ensures
            found == has_term(self@, term@),
    {
        self.position(term).is_some()
    }

    /// The count of `term`: zero where it has no line.
    pub fn frequency(&self, term: &String) -> (count: u128)
        requires
            self.wf(),
        ensures
            count == count_of(self@, term@),
    {
        match self.position(term) {
            Some(i) => {
                proof {
                    lemma_index_of_unique(self@, i as int);
                }
                self.entries[i].count
            },
            None => 0,
        }
    }

    /// Records one more occurrence of `term`.
    pub fn record(&mut self, term: String)
        requires
            old(self).wf(),
            count_of(old(self)@, term@) < u128::MAX,
        ensures
            final(self)@ == record(old(self)@, term@),
            final(self).wf(),
    {
        proof {
            lemma_record(self@, term@);
        }
        match self.position(&term) {
            Some(i) => {
                proof {
                    lemma_index_of_unique(self@, i as int);
                }
                let count = self.entries[i].count;
                self.entries[i].count = count + 1;
                assert(self@ =~= record(old(self)@, term@));
            },
            None => {
                self.entries.push(TermCount { term, count: 1 });
            },
        }
    }
}

} // verus!
