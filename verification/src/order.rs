//! Keeping sequences in order.
//!
//! The lists of a report are kept sorted by putting each new entry behind
//! the last entry that may stand before it, so that entries of equal rank
//! stay in the order in which they came.

use vstd::prelude::*;

verus! {

/// Values with a rank to sort them by, smaller ranks first.
pub trait Ranked {
    spec fn rank(&self) -> int;
}

/// No entry of `s` has a smaller rank than an entry before it.
pub open spec fn in_order<T: Ranked>(s: Seq<T>) -> bool {
    forall|i: int, j: int| 0 <= i < j < s.len() ==> s[i].rank() <= s[j].rank()
}

/// `s` with `x` put behind the last entry whose rank is not larger than its
/// own.
pub open spec fn inserted<T: Ranked>(s: Seq<T>, x: T) -> Seq<T>
    decreases s.len(),
{
    if s.len() == 0 {
        seq![x]
    } else if s.last().rank() <= x.rank() {
        s.push(x)
    } else {
        inserted(s.drop_last(), x).push(s.last())
    }
}

/// The entries of `s` by ascending rank; entries of equal rank keep the order
/// they have in `s`.
pub open spec fn ranked<T: Ranked>(s: Seq<T>) -> Seq<T>
    decreases s.len(),
{
    if s.len() == 0 {
        s
    } else {
        inserted(ranked(s.drop_last()), s.last())
    }
}

/// Where `x` goes: behind the entry at `pos - 1`, whose rank is not larger,
/// and before all entries from `pos` on, whose ranks are.
pub proof fn lemma_inserted_at<T: Ranked>(s: Seq<T>, x: T, pos: int)
    requires
        0 <= pos <= s.len(),
        pos > 0 ==> s[pos - 1].rank() <= x.rank(),
        forall|i: int| pos <= i < s.len() ==> (#[trigger] s[i]).rank() > x.rank(),
    ensures
        inserted(s, x) == s.insert(pos, x),
    decreases s.len(),
{
    if s.len() == 0 {
        assert(seq![x] =~= s.insert(0, x));
    } else if pos == s.len() {
        assert(s.push(x) =~= s.insert(pos, x));
    } else {
        lemma_inserted_at(s.drop_last(), x, pos);
        assert(s.drop_last().insert(pos, x).push(s.last()) =~= s.insert(pos, x));
    }
}

/// Putting an entry into a sequence that is in order leaves it in order,
/// adds the entry and takes nothing away.
pub proof fn lemma_inserted<T: Ranked>(s: Seq<T>, x: T)
    requires
        in_order(s),
    ensures
        in_order(inserted(s, x)),
        inserted(s, x).len() == s.len() + 1,
        inserted(s, x).to_multiset() == s.to_multiset().insert(x),
        forall|i: int|
            0 <= i < inserted(s, x).len() ==> (#[trigger] inserted(s, x)[i]) == x || s.contains(
                inserted(s, x)[i],
            ),
    decreases s.len(),
{
    broadcast use vstd::seq_lib::group_to_multiset_ensures;

    let r = inserted(s, x);
    if s.len() == 0 {
        assert(s =~= Seq::<T>::empty());
        assert(r =~= s.push(x));
    } else if s.last().rank() <= x.rank() {
        assert forall|i: int| 0 <= i < r.len() implies (#[trigger] r[i]) == x || s.contains(
            r[i],
        ) by {
            if i < s.len() {
                assert(r[i] == s[i]);
            }
        }
        assert forall|i: int, j: int| 0 <= i < j < r.len() implies r[i].rank() <= r[j].rank() by {
            assert(r[i] == s[i]);
            if j == r.len() - 1 {
                if i < s.len() - 1 {
                    assert(s[i].rank() <= s[s.len() - 1].rank());
                }
            } else {
                assert(r[j] == s[j]);
            }
        }
    } else {
        let shorter = s.drop_last();
        let inner = inserted(shorter, x);
        lemma_inserted(shorter, x);
        assert(s =~= shorter.push(s.last()));
        assert(forall|i: int| 0 <= i < shorter.len() ==> shorter[i] == s[i]);
        assert forall|i: int, j: int| 0 <= i < j < r.len() implies r[i].rank() <= r[j].rank() by {
            if j == r.len() - 1 {
                assert(r[i] == inner[i]);
                if inner[i] != x {
                    let m = choose|m: int| 0 <= m < shorter.len() && shorter[m] == inner[i];
                    assert(s[m].rank() <= s[s.len() - 1].rank());
                }
            } else {
                assert(r[i] == inner[i] && r[j] == inner[j]);
            }
        }
        assert forall|i: int| 0 <= i < r.len() implies (#[trigger] r[i]) == x || s.contains(
            r[i],
        ) by {
            if i < inner.len() {
                assert(r[i] == inner[i]);
                if inner[i] != x {
                    let m = choose|m: int| 0 <= m < shorter.len() && shorter[m] == inner[i];
                    assert(s[m] == r[i]);
                }
            } else {
                assert(r[i] == s[s.len() - 1]);
            }
        }
        assert(r.to_multiset() =~= s.to_multiset().insert(x));
    }
}

/// Sorting yields the same entries, in order.
pub proof fn lemma_ranked<T: Ranked>(s: Seq<T>)
    ensures
        in_order(ranked(s)),
        ranked(s).len() == s.len(),
        ranked(s).to_multiset() == s.to_multiset(),
    decreases s.len(),
{
    broadcast use vstd::seq_lib::group_to_multiset_ensures;

    if s.len() > 0 {
        lemma_ranked(s.drop_last());
        lemma_inserted(ranked(s.drop_last()), s.last());
        assert(s =~= s.drop_last().push(s.last()));
    }
}

/// Putting an entry into a sequence puts it there and keeps what was there.
pub proof fn lemma_inserted_holds<T: Ranked>(s: Seq<T>, x: T)
    ensures
        inserted(s, x).contains(x),
        forall|y: T| s.contains(y) ==> inserted(s, x).contains(y),
    decreases s.len(),
{
    let r = inserted(s, x);
    if s.len() == 0 {
        assert(r[0] == x);
    } else if s.last().rank() <= x.rank() {
        assert(r[s.len() as int] == x);
        assert forall|y: T| s.contains(y) implies r.contains(y) by {
            let i = choose|i: int| 0 <= i < s.len() && s[i] == y;
            assert(r[i] == y);
        }
    } else {
        let shorter = s.drop_last();
        let inner = inserted(shorter, x);
        lemma_inserted_holds(shorter, x);
        let at = choose|i: int| 0 <= i < inner.len() && inner[i] == x;
        assert(r[at] == x);
        assert forall|y: T| s.contains(y) implies r.contains(y) by {
            let i = choose|i: int| 0 <= i < s.len() && s[i] == y;
            if i == s.len() - 1 {
                assert(r[inner.len() as int] == y);
            } else {
                assert(shorter[i] == y);
                assert(shorter.contains(y));
                let j = choose|j: int| 0 <= j < inner.len() && inner[j] == y;
                assert(r[j] == y);
            }
        }
    }
}

} // verus!
