//! The order in which a finished search hands its results over.

use crate::spider::{hits_of, share, Hit, SearchResult};
use vstd::prelude::*;

verus! {

/// The hits whose path has `len` offsets, in their order.
pub open spec fn of_length(hits: Seq<Hit>, len: nat) -> Seq<Hit> {
    hits.filter(|h: Hit| h.path.len() == len)
}

/// The hits whose path has fewer than `bound` offsets: those without a path
/// first, then those behind one pointer, and so on; among hits of one path
/// length the order is kept.
pub open spec fn shorter_than(hits: Seq<Hit>, bound: nat) -> Seq<Hit>
    decreases bound,
{
    if bound == 0 {
        Seq::empty()
    } else {
        shorter_than(hits, (bound - 1) as nat) + of_length(hits, (bound - 1) as nat)
    }
}

/// The length of the longest path among `hits`.
pub open spec fn longest_path(hits: Seq<Hit>) -> nat
    decreases hits.len(),
{
    if hits.len() == 0 {
        0
    } else {
        let before = longest_path(hits.drop_last());
        if hits.last().path.len() > before {
            hits.last().path.len()
        } else {
            before
        }
    }
}

/// `hits` sorted by the length of their path, shortest first, the order
/// among equals kept.
pub open spec fn shallow_first(hits: Seq<Hit>) -> Seq<Hit> {
    shorter_than(hits, longest_path(hits) + 1)
}

/// Sorts results by the number of pointer hops that lead to them, fewest
/// first. Results with the same number of hops keep their order.
pub fn sort_by_depth(results: Vec<SearchResult>) -> (sorted: Vec<SearchResult>)
    ensures
        hits_of(sorted@) == shallow_first(hits_of(results@)),
{
    let ghost all = hits_of(results@);
    let mut longest: usize = 0;
    let mut i: usize = 0;
    while i < results.len()
        invariant
            i <= results@.len(),
            all == hits_of(results@),
            longest == longest_path(all.take(i as int)),
        decreases results@.len() - i,
    {
        assert(all.take(i + 1).drop_last() == all.take(i as int));
        assert(all.take(i + 1).last() == results@[i as int]@);
        if results[i].parent_offsets.len() > longest {
            longest = results[i].parent_offsets.len();
        }
        i += 1;
    }
    assert(all.take(results@.len() as int) == all);
    let mut sorted: Vec<SearchResult> = Vec::new();
    let mut len: usize = 0;
    loop
        invariant_except_break
            hits_of(sorted@) == shorter_than(all, len as nat),
        invariant
            len <= longest,
            all == hits_of(results@),
            longest == longest_path(all),
        ensures
            hits_of(sorted@) == shallow_first(all),
        decreases longest - len,
    {
        let ghost done = hits_of(sorted@);
        let mut k: usize = 0;
        while k < results.len()
            invariant
                k <= results@.len(),
                all == hits_of(results@),
                hits_of(sorted@) == done + of_length(all.take(k as int), len as nat),
            decreases results@.len() - k,
        {
            let ghost so_far = hits_of(sorted@);
            proof {
                assert(all.take(k + 1) == all.take(k as int).push(all[k as int]));
                all.take(k as int).lemma_filter_push(
                    all[k as int],
                    |h: Hit| h.path.len() == len as nat,
                );
                assert(all[k as int] == results@[k as int]@);
            }
            if results[k].parent_offsets.len() == len {
                sorted.push(
                    SearchResult {
                        parent_offsets: share(&results[k].parent_offsets),
                        offset: results[k].offset,
                        last_value: results[k].last_value,
                    },
                );
                assert(hits_of(sorted@) == so_far.push(results@[k as int]@));
            }
            k += 1;
        }
        assert(all.take(results@.len() as int) == all);
        if len == longest {
            break ;
        }
        len += 1;
    }
    sorted
}

/// How often `hit` occurs among the hits of one path length.
proof fn lemma_count_of_length(hits: Seq<Hit>, len: nat, hit: Hit)
    ensures
        of_length(hits, len).to_multiset().count(hit) == if hit.path.len() == len {
            hits.to_multiset().count(hit)
        } else {
            0
        },
    decreases hits.len(),
{
    broadcast use vstd::seq_lib::to_multiset_build;

    let pred = |h: Hit| h.path.len() == len;
    if hits.len() == 0 {
        assert(hits.filter(pred) == Seq::<Hit>::empty());
        hits.to_multiset_ensures();
        Seq::<Hit>::empty().to_multiset_ensures();
        assert(hits == Seq::<Hit>::empty());
    } else {
        let front = hits.drop_last();
        let last = hits.last();
        lemma_count_of_length(front, len, hit);
        assert(hits == front.push(last));
        front.lemma_filter_push(last, pred);
    }
}

/// How often `hit` occurs among the hits with a path shorter than `bound`.
proof fn lemma_count_shorter_than(hits: Seq<Hit>, bound: nat, hit: Hit)
    ensures
        shorter_than(hits, bound).to_multiset().count(hit) == if hit.path.len() < bound {
            hits.to_multiset().count(hit)
        } else {
            0
        },
    decreases bound,
{
    if bound == 0 {
        Seq::<Hit>::empty().to_multiset_ensures();
    } else {
        let below = (bound - 1) as nat;
        lemma_count_shorter_than(hits, below, hit);
        lemma_count_of_length(hits, below, hit);
        vstd::seq_lib::lemma_multiset_commutative(
            shorter_than(hits, below),
            of_length(hits, below),
        );
    }
}

/// No hit has a longer path than the longest.
proof fn lemma_longest_path_bounds(hits: Seq<Hit>, i: int)
    requires
        0 <= i < hits.len(),
    ensures
        hits[i].path.len() <= longest_path(hits),
    decreases hits.len(),
{
    if i < hits.len() - 1 {
        lemma_longest_path_bounds(hits.drop_last(), i);
    }
}

/// Every hit with a path shorter than `bound` has such a path.
proof fn lemma_shorter_than_is_shorter(hits: Seq<Hit>, bound: nat, i: int)
    requires
        0 <= i < shorter_than(hits, bound).len(),
    ensures
        shorter_than(hits, bound)[i].path.len() < bound,
    decreases bound,
{
    let below = (bound - 1) as nat;
    if i < shorter_than(hits, below).len() {
        lemma_shorter_than_is_shorter(hits, below, i);
    } else {
        let k = i - shorter_than(hits, below).len();
        hits.lemma_filter_pred(|h: Hit| h.path.len() == below, k);
    }
}

/// Among the hits with a path shorter than `bound`, a later one never has a
/// shorter path than an earlier one.
proof fn lemma_shorter_than_ascends(hits: Seq<Hit>, bound: nat, i: int, j: int)
    requires
        0 <= i <= j < shorter_than(hits, bound).len(),
    ensures
        shorter_than(hits, bound)[i].path.len() <= shorter_than(hits, bound)[j].path.len(),
    decreases bound,
{
    let below = (bound - 1) as nat;
    let front = shorter_than(hits, below);
    if j < front.len() {
        lemma_shorter_than_ascends(hits, below, i, j);
    } else {
        hits.lemma_filter_pred(|h: Hit| h.path.len() == below, j - front.len());
        if i < front.len() {
            lemma_shorter_than_is_shorter(hits, below, i);
        } else {
            hits.lemma_filter_pred(|h: Hit| h.path.len() == below, i - front.len());
        }
    }
}

/// Sorting by depth loses no result and adds none, and in what it gives a
/// later result never has a shorter path than an earlier one.
pub proof fn lemma_shallow_first_sorts(hits: Seq<Hit>)
    ensures
        shallow_first(hits).to_multiset() == hits.to_multiset(),
        shallow_first(hits).len() == hits.len(),
        forall|i: int, j: int|
            0 <= i <= j < shallow_first(hits).len() ==> (#[trigger] shallow_first(hits)[i]).path.len()
                <= (#[trigger] shallow_first(hits)[j]).path.len(),
{
    broadcast use vstd::seq_lib::to_multiset_contains;

    let bound = longest_path(hits) + 1;
    assert forall|hit: Hit|
        shallow_first(hits).to_multiset().count(hit) == hits.to_multiset().count(hit) by {
        lemma_count_shorter_than(hits, bound, hit);
        if hits.to_multiset().count(hit) > 0 {
            assert(hits.contains(hit));
            let i = choose|i: int| 0 <= i < hits.len() && hits[i] == hit;
            lemma_longest_path_bounds(hits, i);
        }
    }
    assert(shallow_first(hits).to_multiset() =~= hits.to_multiset());
    shallow_first(hits).to_multiset_ensures();
    hits.to_multiset_ensures();
    assert forall|i: int, j: int| 0 <= i <= j < shallow_first(hits).len() implies (
    #[trigger] shallow_first(hits)[i]).path.len() <= (#[trigger] shallow_first(
        hits,
    )[j]).path.len() by {
        lemma_shorter_than_ascends(hits, bound, i, j);
    }
}

} // verus!
