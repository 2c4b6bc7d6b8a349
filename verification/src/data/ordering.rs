//! The canonical order of a page: ascending by score rank, and stable.
//!
//! A sequence is the canonical order of another when it is ascending and, for
//! every rank, holds exactly the entries of that rank that the other holds, in
//! the same relative order. `lemma_canonical_order_unique` shows that these two
//! conditions leave no freedom: a sequence has one canonical order.

use vstd::prelude::*;
use crate::data::neuron_index::NeuronIndex;
use crate::data::score::Score;

verus! {

/// One entry of a page: a neuron and how important it is.
pub type Importance = (NeuronIndex, Score);

/// No entry is followed by one of lower rank.
pub open spec fn ascending(s: Seq<Importance>) -> bool {
    forall|i: int, j: int| 0 <= i < j < s.len() ==> s[i].1.rank() <= s[j].1.rank()
}

/// The entries of `s` whose score has the given rank, in the order they have in `s`.
pub open spec fn with_rank(s: Seq<Importance>, rank: int) -> Seq<Importance>
    decreases s.len(),
{
    if s.len() == 0 {
        Seq::empty()
    } else if s.last().1.rank() == rank {
        with_rank(s.drop_last(), rank).push(s.last())
    } else {
        with_rank(s.drop_last(), rank)
    }
}

/// `a` and `b` hold the same entries of every rank, in the same relative order.
pub open spec fn same_runs(a: Seq<Importance>, b: Seq<Importance>) -> bool {
    forall|rank: int| #[trigger] with_rank(a, rank) == with_rank(b, rank)
}

/// `sorted` is `given` put in ascending order without reordering entries of
/// equal rank.
pub open spec fn is_canonical_order_of(sorted: Seq<Importance>, given: Seq<Importance>) -> bool {
    &&& ascending(sorted)
    &&& same_runs(sorted, given)
}

/// Selecting by rank distributes over concatenation.
pub proof fn lemma_with_rank_concat(a: Seq<Importance>, b: Seq<Importance>, rank: int)
    ensures
        with_rank(a + b, rank) == with_rank(a, rank) + with_rank(b, rank),
    decreases b.len(),
{
    if b.len() == 0 {
        assert(a + b =~= a);
        assert(with_rank(a, rank) + with_rank(b, rank) =~= with_rank(a, rank));
    } else {
        assert((a + b).drop_last() =~= a + b.drop_last());
        assert((a + b).last() == b.last());
        lemma_with_rank_concat(a, b.drop_last(), rank);
        assert(with_rank(a, rank) + with_rank(b.drop_last(), rank).push(b.last()) =~= (with_rank(
            a,
            rank,
        ) + with_rank(b.drop_last(), rank)).push(b.last()));
    }
}

/// Every selected entry has the selected rank and comes from the sequence.
pub proof fn lemma_with_rank_members(s: Seq<Importance>, rank: int)
    ensures
        with_rank(s, rank).len() <= s.len(),
        forall|i: int|
            0 <= i < with_rank(s, rank).len() ==> (#[trigger] with_rank(s, rank)[i]).1.rank()
                == rank && s.contains(with_rank(s, rank)[i]),
        with_rank(s, rank).len() > 0 <==> exists|j: int|
            0 <= j < s.len() && (#[trigger] s[j]).1.rank() == rank,
    decreases s.len(),
{
    if s.len() > 0 {
        let front = s.drop_last();
        lemma_with_rank_members(front, rank);
        assert forall|i: int| 0 <= i < with_rank(s, rank).len() implies (#[trigger] with_rank(
            s,
            rank,
        )[i]).1.rank() == rank && s.contains(with_rank(s, rank)[i]) by {
            if i < with_rank(front, rank).len() {
                let e = with_rank(front, rank)[i];
                assert(front.contains(e));
                let j = choose|j: int| 0 <= j < front.len() && front[j] == e;
                assert(s[j] == e);
            } else {
                assert(s[s.len() - 1] == s.last());
            }
        }
        if with_rank(s, rank).len() > 0 {
            if s.last().1.rank() == rank {
                assert(s[s.len() - 1].1.rank() == rank);
            } else {
                let j = choose|j: int| 0 <= j < front.len() && (#[trigger] front[j]).1.rank() == rank;
                assert(s[j].1.rank() == rank);
            }
        }
        if exists|j: int| 0 <= j < s.len() && (#[trigger] s[j]).1.rank() == rank {
            let j = choose|j: int| 0 <= j < s.len() && (#[trigger] s[j]).1.rank() == rank;
            if j < front.len() {
                assert(front[j].1.rank() == rank);
            }
        }
    }
}

/// Putting `e` into an ascending sequence behind every entry that does not
/// outrank it keeps the sequence ascending, appends `e` to the run of its own
/// rank and leaves every other run as it was.
pub proof fn lemma_insert_behind_equals(s: Seq<Importance>, at: int, e: Importance)
    requires
        ascending(s),
        0 <= at <= s.len(),
        forall|i: int| 0 <= i < at ==> (#[trigger] s[i]).1.rank() <= e.1.rank(),
        forall|i: int| at <= i < s.len() ==> (#[trigger] s[i]).1.rank() > e.1.rank(),
    ensures
        ascending(s.insert(at, e)),
        with_rank(s.insert(at, e), e.1.rank()) == with_rank(s, e.1.rank()).push(e),
        forall|rank: int|
            rank != e.1.rank() ==> #[trigger] with_rank(s.insert(at, e), rank) == with_rank(
                s,
                rank,
            ),
{
    let front = s.subrange(0, at);
    let back = s.subrange(at, s.len() as int);
    let grown = s.insert(at, e);
    assert(s =~= front + back);
    assert(grown =~= front.push(e) + back);
    assert(front.push(e).drop_last() =~= front);
    assert forall|rank: int| true implies #[trigger] with_rank(grown, rank) == (if rank
        == e.1.rank() {
        with_rank(s, rank).push(e)
    } else {
        with_rank(s, rank)
    }) by {
        lemma_with_rank_concat(front, back, rank);
        lemma_with_rank_concat(front.push(e), back, rank);
        if rank == e.1.rank() {
            lemma_with_rank_members(back, rank);
            assert(with_rank(back, rank).len() == 0) by {
                if with_rank(back, rank).len() > 0 {
                    let j = choose|j: int|
                        0 <= j < back.len() && (#[trigger] back[j]).1.rank() == rank;
                    assert(back[j] == s[at + j]);
                }
            }
            assert(with_rank(front, rank) + with_rank(back, rank) =~= with_rank(front, rank));
            assert(with_rank(front.push(e), rank) + with_rank(back, rank) =~= with_rank(
                front.push(e),
                rank,
            ));
        }
    }
    assert forall|i: int, j: int| 0 <= i < j < grown.len() implies grown[i].1.rank()
        <= grown[j].1.rank() by {
        if i < at && j > at {
            assert(grown[i] == s[i] && grown[j] == s[j - 1]);
        } else if i < at && j == at {
            assert(grown[i] == s[i]);
        } else if i < at {
            assert(grown[i] == s[i] && grown[j] == s[j]);
        } else if i == at {
            assert(grown[j] == s[j - 1]);
        } else {
            assert(grown[i] == s[i - 1] && grown[j] == s[j - 1]);
        }
    }
}

/// Two ascending sequences with the same runs are the same sequence.
pub proof fn lemma_canonical_order_unique(a: Seq<Importance>, b: Seq<Importance>)
    requires
        ascending(a),
        ascending(b),
        same_runs(a, b),
    ensures
        a == b,
    decreases a.len(),
{
    if a.len() == 0 {
        if b.len() > 0 {
            let kb = b.last().1.rank();
            assert(with_rank(a, kb) == with_rank(b, kb));
            assert(with_rank(b, kb).len() > 0);
        }
        assert(a =~= b);
    } else {
        let ka = a.last().1.rank();
        assert(with_rank(a, ka) == with_rank(b, ka));
        assert(with_rank(a, ka) == with_rank(a.drop_last(), ka).push(a.last()));
        lemma_with_rank_members(b, ka);
        let jb = choose|j: int| 0 <= j < b.len() && (#[trigger] b[j]).1.rank() == ka;
        assert(b[jb].1.rank() <= b[b.len() - 1].1.rank());
        let kb = b.last().1.rank();
        assert(with_rank(a, kb) == with_rank(b, kb));
        assert(with_rank(b, kb) == with_rank(b.drop_last(), kb).push(b.last()));
        lemma_with_rank_members(a, kb);
        let ja = choose|j: int| 0 <= j < a.len() && (#[trigger] a[j]).1.rank() == kb;
        assert(a[ja].1.rank() <= a[a.len() - 1].1.rank());
        assert(ka == kb);
        assert(with_rank(a, ka).last() == a.last());
        assert(with_rank(b, ka).last() == b.last());
        assert(a.last() == b.last());
        let a0 = a.drop_last();
        let b0 = b.drop_last();
        assert forall|rank: int| #[trigger] with_rank(a0, rank) == with_rank(b0, rank) by {
            assert(with_rank(a, rank) == with_rank(b, rank));
            if rank == ka {
                assert(with_rank(a0, ka) =~= with_rank(a, ka).drop_last());
                assert(with_rank(b0, ka) =~= with_rank(b, ka).drop_last());
            }
        }
        assert(ascending(a0)) by {
            assert forall|i: int, j: int| 0 <= i < j < a0.len() implies a0[i].1.rank()
                <= a0[j].1.rank() by {
                assert(a0[i] == a[i] && a0[j] == a[j]);
            }
        }
        assert(ascending(b0)) by {
            assert forall|i: int, j: int| 0 <= i < j < b0.len() implies b0[i].1.rank()
                <= b0[j].1.rank() by {
                assert(b0[i] == b[i] && b0[j] == b[j]);
            }
        }
        lemma_canonical_order_unique(a0, b0);
        assert(a =~= a0.push(a.last()));
        assert(b =~= b0.push(b.last()));
    }
}

/// Puts the entries in canonical order: ascending by rank, entries of equal
/// rank in the order in which they were given.
pub fn sort_by_score(entries: &Vec<Importance>) -> (sorted: Vec<Importance>)
    ensures
        is_canonical_order_of(sorted@, entries@),
        sorted@.len() == entries@.len(),
        sorted@.to_multiset() == entries@.to_multiset(),
{
    let mut sorted: Vec<Importance> = Vec::new();
    let mut taken: usize = 0;
    proof {
        assert(entries@.take(0) =~= Seq::<Importance>::empty());
    }
    while taken < entries.len()
        invariant
            taken <= entries.len(),
            sorted@.len() == taken,
            ascending(sorted@),
            same_runs(sorted@, entries@.take(taken as int)),
            sorted@.to_multiset() == entries@.take(taken as int).to_multiset(),
        decreases entries.len() - taken,
    {
        let e = entries[taken];
        let mut at: usize = sorted.len();
        while at > 0 && !sorted[at - 1].1.at_most(e.1)
            invariant
                at <= sorted.len(),
                forall|i: int| at <= i < sorted@.len() ==> (#[trigger] sorted@[i]).1.rank() > e.1.rank(),
            decreases at,
        {
            at = at - 1;
        }
        proof {
            let before = sorted@;
            let seen = entries@.take(taken as int);
            let seen_next = entries@.take(taken + 1);
            assert forall|i: int| 0 <= i < at implies (#[trigger] before[i]).1.rank()
                <= e.1.rank() by {
                if at > 0 {
                    assert(before[i].1.rank() <= before[at - 1].1.rank());
                }
            }
            lemma_insert_behind_equals(before, at as int, e);
            assert(seen_next.drop_last() =~= seen);
            assert(seen_next.last() == e);
            assert forall|rank: int| #[trigger]
                with_rank(before.insert(at as int, e), rank) == with_rank(seen_next, rank) by {
                assert(with_rank(before, rank) == with_rank(seen, rank));
            }
            assert(seen_next =~= seen.push(e));
            vstd::seq_lib::to_multiset_build(seen, e);
            lemma_insert_to_multiset(before, at as int, e);
        }
        sorted.insert(at, e);
        taken = taken + 1;
    }
    proof {
        assert(entries@.take(taken as int) =~= entries@);
    }
    sorted
}

/// Inserting an entry anywhere adds it once to the entries held.
pub proof fn lemma_insert_to_multiset(s: Seq<Importance>, at: int, e: Importance)
    requires
        0 <= at <= s.len(),
    ensures
        s.insert(at, e).to_multiset() == s.to_multiset().insert(e),
{
    let grown = s.insert(at, e);
    assert(grown.remove(at) =~= s);
    assert(grown[at] == e);
    vstd::seq_lib::to_multiset_remove(grown, at);
    assert(grown.to_multiset().count(e) > 0) by {
        broadcast use vstd::seq_lib::group_to_multiset_ensures;
        assert(grown.contains(e));
    }
    assert(grown.to_multiset() =~= grown.to_multiset().remove(e).insert(e));
}

} // verus!
