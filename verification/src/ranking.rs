//! Ranking: the order in which the matches of a search are shown.
//!
//! A match is ranked by a key, an integer that stands for its score: the
//! higher the score, the higher the key.

use vstd::prelude::*;

verus! {

/// Whether the item at position `a` is shown before the item at position
/// `b`: it has the higher key, or the same key and stands earlier.
pub open spec fn ranks_before(keys: Seq<u64>, a: int, b: int) -> bool {
    keys[a] > keys[b] || (keys[a] == keys[b] && a < b)
}

/// The position that `order` shows at place `p`.
pub open spec fn shown_at(order: Seq<usize>, p: int) -> int {
    order[p] as int
}

/// Whether `order` shows the position `k` at some place.
pub open spec fn shows(order: Seq<usize>, k: int) -> bool {
    exists|p: int| 0 <= p < order.len() && #[trigger] shown_at(order, p) == k
}

/// Whether `order` is the ranking of the first `n` positions of `keys`: it
/// shows each of them once, higher keys first, and positions with the same
/// key in ascending order.
pub open spec fn ranks_prefix(keys: Seq<u64>, order: Seq<usize>, n: int) -> bool {
    &&& order.len() == n
    &&& forall|p: int| 0 <= p < order.len() ==> 0 <= #[trigger] shown_at(order, p) < n
    &&& forall|p: int, q: int|
        0 <= p < q < order.len() ==> ranks_before(
            keys,
            #[trigger] shown_at(order, p),
            #[trigger] shown_at(order, q),
        )
    &&& forall|k: int| 0 <= k < n ==> #[trigger] shows(order, k)
}

/// Whether `order` is the ranking of `keys`.
pub open spec fn is_ranking(keys: Seq<u64>, order: Seq<usize>) -> bool {
    ranks_prefix(keys, order, keys.len() as int)
}

/// The keys determine the ranking: two rankings of the same keys are the
/// same.
pub proof fn lemma_ranking_is_unique(keys: Seq<u64>, first: Seq<usize>, second: Seq<usize>)
    requires
        is_ranking(keys, first),
        is_ranking(keys, second),
    ensures
        first == second,
{
    assert forall|p: int| 0 <= p < first.len() implies first[p] == second[p] by {
        lemma_rankings_agree(keys, first, second, p);
    }
}

/// Two rankings of the same keys show the same position at every place.
proof fn lemma_rankings_agree(keys: Seq<u64>, first: Seq<usize>, second: Seq<usize>, p: int)
    requires
        is_ranking(keys, first),
        is_ranking(keys, second),
        0 <= p < first.len(),
    ensures
        first[p] == second[p],
    decreases p,
{
    assert forall|q: int| 0 <= q < p implies first[q] == second[q] by {
        lemma_rankings_agree(keys, first, second, q);
    }
    let a = shown_at(first, p);
    let b = shown_at(second, p);
    if a != b {
        assert(shows(first, b));
        assert(shows(second, a));
        let q = choose|q: int| 0 <= q < first.len() && #[trigger] shown_at(first, q) == b;
        if q < p {
            assert(shown_at(second, q) == b);
        }
        let r = choose|r: int| 0 <= r < second.len() && #[trigger] shown_at(second, r) == a;
        if r < p {
            assert(shown_at(first, r) == a);
        }
    }
}

/// The place at which position `i` enters the ranking of the positions
/// before it: behind every item whose key is not lower.
fn place_of(keys: &Vec<u64>, order: &Vec<usize>, i: usize) -> (p: usize)
    requires
        i < keys.len(),
        ranks_prefix(keys@, order@, i as int),
    ensures
        p <= order.len(),
        forall|q: int|
            p <= q < order.len() ==> keys@[#[trigger] shown_at(order@, q)] < keys@[i as int],
        p > 0 ==> keys@[shown_at(order@, p - 1)] >= keys@[i as int],
{
    let mut p: usize = order.len();
    while p > 0
        invariant
            i < keys.len(),
            p <= order.len(),
            ranks_prefix(keys@, order@, i as int),
            forall|q: int|
                p <= q < order.len() ==> keys@[#[trigger] shown_at(order@, q)] < keys@[i as int],
        decreases p,
    {
        assert(0 <= shown_at(order@, p - 1) < i);
        if keys[order[p - 1]] >= keys[i] {
            return p;
        }
        p = p - 1;
    }
    p
}

/// The order in which to show items with these keys: descending by key,
/// and items with the same key in the order in which they stand.
pub fn rank(keys: &Vec<u64>) -> (order: Vec<usize>)
    ensures
        is_ranking(keys@, order@),
{
    let mut order: Vec<usize> = Vec::new();
    let mut i: usize = 0;
    while i < keys.len()
        invariant
            i <= keys.len(),
            ranks_prefix(keys@, order@, i as int),
        decreases keys.len() - i,
    {
        let p = place_of(keys, &order, i);
        let ghost before = order@;
        order.insert(p, i);
        proof {
            let after = order@;
            assert forall|q: int| 0 <= q < after.len() implies 0 <= #[trigger] shown_at(after, q) < i
                + 1 by {
                if q < p {
                    assert(shown_at(after, q) == shown_at(before, q));
                } else if q > p {
                    assert(shown_at(after, q) == shown_at(before, q - 1));
                }
            }
            assert forall|a: int, b: int| 0 <= a < b < after.len() implies ranks_before(
                keys@,
                #[trigger] shown_at(after, a),
                #[trigger] shown_at(after, b),
            ) by {
                if b < p {
                    assert(shown_at(after, a) == shown_at(before, a));
                    assert(shown_at(after, b) == shown_at(before, b));
                } else if b == p {
                    assert(shown_at(after, a) == shown_at(before, a));
                } else if a < p {
                    assert(shown_at(after, b) == shown_at(before, b - 1));
                } else if a == p {
                    assert(shown_at(after, b) == shown_at(before, b - 1));
                } else {
                    assert(shown_at(after, a) == shown_at(before, a - 1));
                    assert(shown_at(after, b) == shown_at(before, b - 1));
                }
            }
            assert forall|k: int| 0 <= k < i + 1 implies #[trigger] shows(after, k) by {
                if k == i {
                    assert(shown_at(after, p as int) == k);
                } else {
                    assert(shows(before, k));
                    let q = choose|q: int| 0 <= q < before.len() && #[trigger] shown_at(before, q) == k;
                    if q < p {
                        assert(shown_at(after, q) == k);
                    } else {
                        assert(shown_at(after, q + 1) == k);
                    }
                }
            }
        }
        i = i + 1;
    }
    order
}

} // verus!
