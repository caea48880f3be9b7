//! The order of a ranking: scores from high to low, horses without a score
//! last, ties in the order of entry.

use vstd::prelude::*;

verus! {

/// Whether a horse with the score `a` ranks strictly above one with the
/// score `b`: `a` is a score, and `b` is none or a lower one. A missing
/// score never ranks above anything.
pub open spec fn outranks(a: Option<i64>, b: Option<i64>) -> bool {
    match (a, b) {
        (Some(x), Some(y)) => x > y,
        (Some(_), None) => true,
        _ => false,
    }
}

/// Whether entry `i` stands before entry `j` in the ranking of `scores`:
/// it ranks above `j`, or ranks the same and was entered earlier.
pub open spec fn stands_before(scores: Seq<Option<i64>>, i: int, j: int) -> bool {
    outranks(scores[i], scores[j]) || (scores[i] == scores[j] && i < j)
}

/// Whether `order` lists the places of all entries of `scores`, each once,
/// such that every entry stands before those listed after it.
pub open spec fn is_ranking(order: Seq<int>, scores: Seq<Option<i64>>) -> bool {
    &&& order.len() == scores.len()
    &&& forall|k: int| 0 <= k < order.len() ==> 0 <= #[trigger] order[k] < scores.len()
    &&& forall|i: int| 0 <= i < scores.len() ==> order.contains(i)
    &&& forall|a: int, b: int|
        0 <= a < b < order.len() ==> stands_before(scores, #[trigger] order[a], #[trigger] order[b])
}

/// The ranking of `scores`.
pub open spec fn ranking_of(scores: Seq<Option<i64>>) -> Seq<int> {
    choose|order: Seq<int>| is_ranking(order, scores)
}

/// The places that `order` lists, as integers.
pub open spec fn places(order: Seq<usize>) -> Seq<int> {
    Seq::new(order.len(), |k: int| order[k] as int)
}

proof fn lemma_rankings_agree(a: Seq<int>, b: Seq<int>, scores: Seq<Option<i64>>, k: int)
    requires
        is_ranking(a, scores),
        is_ranking(b, scores),
        0 <= k <= scores.len(),
    ensures
        forall|j: int| 0 <= j < k ==> a[j] == b[j],
    decreases k,
{
    if k > 0 {
        lemma_rankings_agree(a, b, scores, k - 1);
        let x = a[k - 1];
        let y = b[k - 1];
        if x != y {
            assert(b.contains(x));
            let p = choose|p: int| 0 <= p < b.len() && b[p] == x;
            assert(a.contains(y));
            let q = choose|q: int| 0 <= q < a.len() && a[q] == y;
            if p < k - 1 {
                assert(a[p] == b[p]);
                assert(stands_before(scores, a[p], a[k - 1]));
            }
            if q < k - 1 {
                assert(a[q] == b[q]);
                assert(stands_before(scores, b[q], b[k - 1]));
            }
            assert(stands_before(scores, b[k - 1], b[p]));
            assert(stands_before(scores, a[k - 1], a[q]));
        }
    }
}

/// Where the entry `mine` goes into the ranking `before` of the entries
/// entered before it: in front of the entries at the end that it outranks,
/// looked for from the place `p` down.
spec fn place_of(before: Seq<int>, scores: Seq<Option<i64>>, mine: int, p: int) -> int
    decreases p,
{
    if p > 0 && outranks(scores[mine], scores[before[p - 1]]) {
        place_of(before, scores, mine, p - 1)
    } else {
        p
    }
}

proof fn lemma_place_of(before: Seq<int>, scores: Seq<Option<i64>>, mine: int, p: int)
    requires
        0 <= p <= before.len(),
    ensures
        0 <= place_of(before, scores, mine, p) <= p,
        forall|b: int|
            place_of(before, scores, mine, p) <= b < p ==> outranks(
                scores[mine],
                scores[#[trigger] before[b]],
            ),
        place_of(before, scores, mine, p) > 0 ==> !outranks(
            scores[mine],
            scores[before[place_of(before, scores, mine, p) - 1]],
        ),
    decreases p,
{
    if p > 0 && outranks(scores[mine], scores[before[p - 1]]) {
        lemma_place_of(before, scores, mine, p - 1);
    }
}

/// A ranking of the entries entered so far, with the next entry put in
/// front of the entries at the end that it outranks, is a ranking again.
proof fn lemma_ranking_grows(before: Seq<int>, scores: Seq<Option<i64>>, p: int)
    requires
        scores.len() > 0,
        is_ranking(before, scores.drop_last()),
        0 <= p <= before.len(),
        forall|b: int|
            p <= b < before.len() ==> outranks(scores.last(), scores[#[trigger] before[b]]),
        p > 0 ==> !outranks(scores.last(), scores[before[p - 1]]),
    ensures
        is_ranking(before.insert(p, scores.len() - 1), scores),
{
    let i = scores.len() - 1;
    let seen = scores.drop_last();
    let after = before.insert(p, i);
    assert forall|k: int| 0 <= k < after.len() implies 0 <= #[trigger] after[k] < scores.len() by {
        if k < p {
            assert(after[k] == before[k]);
        } else if k > p {
            assert(after[k] == before[k - 1]);
        }
    }
    assert forall|j: int| 0 <= j < scores.len() implies after.contains(j) by {
        if j == i {
            assert(after[p] == j);
        } else {
            assert(before.contains(j));
            let k = choose|k: int| 0 <= k < before.len() && before[k] == j;
            if k < p {
                assert(after[k] == j);
            } else {
                assert(after[k + 1] == j);
            }
        }
    }
    assert forall|a: int, b: int| 0 <= a < b < after.len() implies stands_before(
        scores,
        #[trigger] after[a],
        #[trigger] after[b],
    ) by {
        let ia = if a < p {
            a
        } else {
            a - 1
        };
        let ib = if b < p {
            b
        } else {
            b - 1
        };
        if a != p && b != p {
            assert(after[a] == before[ia]);
            assert(after[b] == before[ib]);
            assert(stands_before(seen, before[ia], before[ib]));
        } else if a == p {
            assert(after[b] == before[ib]);
            assert(outranks(scores[i], scores[before[ib]]));
        } else {
            assert(after[a] == before[ia]);
            let last = before[p - 1];
            assert(0 <= last < i);
            if ia < p - 1 {
                assert(stands_before(seen, before[ia], before[p - 1]));
            }
        }
    }
}

proof fn lemma_some_ranking(scores: Seq<Option<i64>>) -> (order: Seq<int>)
    ensures
        is_ranking(order, scores),
    decreases scores.len(),
{
    if scores.len() == 0 {
        Seq::empty()
    } else {
        let before = lemma_some_ranking(scores.drop_last());
        let mine = scores.len() - 1;
        let p = place_of(before, scores, mine, before.len() as int);
        lemma_place_of(before, scores, mine, before.len() as int);
        lemma_ranking_grows(before, scores, p);
        before.insert(p, mine)
    }
}

/// Every list of scores has a ranking, and `ranking_of` is one.
pub proof fn lemma_ranking_exists(scores: Seq<Option<i64>>)
    ensures
        is_ranking(ranking_of(scores), scores),
{
    let order = lemma_some_ranking(scores);
    assert(is_ranking(order, scores));
}

/// A list of scores has one ranking only.
pub proof fn lemma_ranking_unique(a: Seq<int>, b: Seq<int>, scores: Seq<Option<i64>>)
    requires
        is_ranking(a, scores),
        is_ranking(b, scores),
    ensures
        a == b,
{
    lemma_rankings_agree(a, b, scores, scores.len() as int);
    assert(a =~= b);
}

/// In a ranking no entry is outranked by one listed after it; so an entry
/// without a score is never listed before one with a score.
pub proof fn lemma_ranking_descends(order: Seq<int>, scores: Seq<Option<i64>>, a: int, b: int)
    requires
        is_ranking(order, scores),
        0 <= a < b < order.len(),
    ensures
        !outranks(scores[order[b]], scores[order[a]]),
        scores[order[a]] is None ==> scores[order[b]] is None,
{
    assert(stands_before(scores, order[a], order[b]));
}

/// A horse without a score ranks above no horse, whatever the other's
/// score.
pub proof fn lemma_none_never_outranks(other: Option<i64>)
    ensures
        !outranks(None, other),
{
}

/// The ranking of `scores`: the places of its entries from the highest
/// score to the lowest, entries without a score last, entries that rank
/// the same in the order in which they were entered.
pub fn stable_ranking(scores: &Vec<Option<i64>>) -> (order: Vec<usize>)
    ensures
        is_ranking(places(order@), scores@),
        places(order@) == ranking_of(scores@),
{
    let n: usize = scores.len();
    let mut order: Vec<usize> = Vec::new();
    let mut i: usize = 0;
    while i < n
        invariant
            n == scores@.len(),
            i <= n,
            is_ranking(places(order@), scores@.take(i as int)),
        decreases n - i,
    {
        let ghost before = places(order@);
        let ghost seen = scores@.take(i as int);
        let mine = scores[i];
        let mut p: usize = order.len();
        proof {
            assert forall|k: int| 0 <= k < i implies (#[trigger] order@[k]) < i by {
                assert(before[k] == order@[k]);
            }
        }
        while p > 0 && exec_outranks(mine, scores[order[p - 1]])
            invariant
                n == scores@.len(),
                i < n,
                order@.len() == i,
                p <= i,
                mine == scores@[i as int],
                before == places(order@),
                is_ranking(before, scores@.take(i as int)),
                forall|k: int| 0 <= k < i ==> (#[trigger] order@[k]) < i,
                forall|b: int| p <= b < i ==> outranks(mine, scores@[#[trigger] before[b]]),
            decreases p,
        {
            proof {
                assert(before[p - 1] == order@[p - 1]);
            }
            p -= 1;
        }
        proof {
            if p > 0 {
                assert(before[p - 1] == order@[p - 1]);
            }
        }
        order.insert(p, i);
        proof {
            let grown = scores@.take(i + 1);
            assert(grown.drop_last() =~= seen);
            assert forall|b: int| p <= b < before.len() implies outranks(
                grown.last(),
                grown[#[trigger] before[b]],
            ) by {
                assert(0 <= before[b] < i);
            }
            if p > 0 {
                assert(0 <= before[p - 1] < i);
            }
            lemma_ranking_grows(before, grown, p as int);
            assert(places(order@) =~= before.insert(p as int, i as int));
        }
        i += 1;
    }
    proof {
        assert(scores@.take(n as int) =~= scores@);
        lemma_ranking_unique(places(order@), ranking_of(scores@), scores@);
    }
    order
}

/// Whether a horse with the score `a` ranks strictly above one with the
/// score `b`.
pub fn exec_outranks(a: Option<i64>, b: Option<i64>) -> (r: bool)
    ensures
        r == outranks(a, b),
{
    match (a, b) {
        (Some(x), Some(y)) => x > y,
        (Some(_), None) => true,
        _ => false,
    }
}

} // verus!
