//! Stable sorting.

use vstd::prelude::*;

verus! {

/// Something with a place in an order.
pub trait Ranked: Sized {
    /// The place.
    spec fn rank(&self) -> int;

    /// Whether this does not come after the other.
    fn not_after(&self, other: &Self) -> (b: bool)
        ensures
            b == (self.rank() <= other.rank()),
    ;
}

/// Nothing comes after something of a higher rank.
pub open spec fn in_order<T: Ranked>(items: Seq<T>) -> bool {
    forall|i: int, j: int|
        0 <= i <= j < items.len() ==> (#[trigger] items[i]).rank() <= (#[trigger] items[j]).rank()
}

/// The items of a rank, in order.
pub open spec fn of_rank<T: Ranked>(items: Seq<T>, rank: int) -> Seq<T> {
    items.filter(|x: T| x.rank() == rank)
}

/// The same items, in order, with those of the same rank as they were.
pub open spec fn stably_sorted<T: Ranked>(before: Seq<T>, after: Seq<T>) -> bool {
    &&& in_order(after)
    &&& after.len() == before.len()
    &&& forall|rank: int| #[trigger] of_rank(after, rank) == of_rank(before, rank)
}

proof fn lemma_no_rank<T: Ranked>(items: Seq<T>, rank: int)
    requires
        forall|i: int| 0 <= i < items.len() ==> (#[trigger] items[i]).rank() != rank,
    ensures
        of_rank(items, rank) == Seq::<T>::empty(),
    decreases items.len(),
{
    reveal(Seq::filter);
    if items.len() > 0 {
        assert forall|i: int| 0 <= i < items.drop_last().len() implies (
        #[trigger] items.drop_last()[i]).rank() != rank by {
            assert(items.drop_last()[i] == items[i]);
        }
        lemma_no_rank(items.drop_last(), rank);
        assert(items.last() == items[items.len() - 1]);
    }
    assert(of_rank(items, rank) =~= Seq::<T>::empty());
}

proof fn lemma_insertion<T: Ranked>(items: Seq<T>, at: int, item: T, rank: int)
    requires
        0 <= at <= items.len(),
        forall|i: int|
            at <= i < items.len() ==> (#[trigger] items[i]).rank() > item.rank(),
    ensures
        of_rank(items.insert(at, item), rank) == of_rank(items.push(item), rank),
{
    let pred = |x: T| x.rank() == rank;
    let front = items.subrange(0, at);
    let back = items.subrange(at, items.len() as int);
    let one = seq![item];
    assert(items =~= front + back);
    assert(items.insert(at, item) =~= (front + one) + back);
    assert(items.push(item) =~= (front + back) + one);
    Seq::filter_distributes_over_add(front + one, back, pred);
    Seq::filter_distributes_over_add(front, one, pred);
    Seq::filter_distributes_over_add(front + back, one, pred);
    Seq::filter_distributes_over_add(front, back, pred);
    if rank == item.rank() {
        assert forall|i: int| 0 <= i < back.len() implies (#[trigger] back[i]).rank() != rank by {
            assert(back[i] == items[at + i]);
        }
        lemma_no_rank(back, rank);
        assert(front.filter(pred) + one.filter(pred) + Seq::<T>::empty() =~= front.filter(pred)
            + Seq::<T>::empty() + one.filter(pred));
    } else {
        assert forall|i: int| 0 <= i < one.len() implies (#[trigger] one[i]).rank() != rank by {
        }
        lemma_no_rank(one, rank);
        assert(front.filter(pred) + Seq::<T>::empty() + back.filter(pred) =~= front.filter(pred)
            + back.filter(pred) + Seq::<T>::empty());
    }
}

/// Sorts the items by their ranks. Those of the same rank stay in the order in which they were.
#[verifier::loop_isolation(false)]
pub fn stable_sort<T: Ranked>(items: Vec<T>) -> (sorted: Vec<T>)
    ensures
        stably_sorted(items@, sorted@),
{
    let ghost all = items@;
    let mut items = items;
    let mut sorted: Vec<T> = Vec::new();
    let ghost mut done: int = 0;
    proof {
        assert(items@ =~= all.subrange(0, all.len() as int));
        assert(all.subrange(0, 0) =~= Seq::<T>::empty());
    }
    while items.len() > 0
        invariant
            0 <= done <= all.len(),
            items@ == all.subrange(done, all.len() as int),
            stably_sorted(all.subrange(0, done), sorted@),
        decreases items@.len(),
    {
        let ghost before = sorted@;
        let item = items.remove(0);
        let mut at = sorted.len();
        while at > 0 && !sorted[at - 1].not_after(&item)
            invariant
                at <= sorted@.len(),
                sorted@ == before,
                forall|i: int|
                    at <= i < sorted@.len() ==> (#[trigger] sorted@[i]).rank() > item.rank(),
            decreases at,
        {
            at -= 1;
        }
        sorted.insert(at, item);
        proof {
            assert(item == all[done]);
            assert(items@ =~= all.subrange(done + 1, all.len() as int));
            let upto = all.subrange(0, done + 1);
            assert(upto =~= all.subrange(0, done).push(item));
            assert forall|rank: int| #[trigger] of_rank(sorted@, rank) == of_rank(upto, rank) by {
                lemma_insertion(before, at as int, item, rank);
                assert(of_rank(before, rank) == of_rank(all.subrange(0, done), rank));
                reveal(Seq::filter);
                assert(before.push(item).drop_last() =~= before);
                assert(upto.drop_last() =~= all.subrange(0, done));
            }
            assert(in_order(sorted@)) by {
                assert forall|i: int, j: int| 0 <= i <= j < sorted@.len() implies (
                #[trigger] sorted@[i]).rank() <= (#[trigger] sorted@[j]).rank() by {
                    if at > 0 {
                        assert(before[at - 1].rank() <= item.rank());
                    }
                    let old_i = if i < at {
                        i
                    } else {
                        i - 1
                    };
                    let old_j = if j < at {
                        j
                    } else {
                        j - 1
                    };
                    if i != at && j != at {
                        assert(sorted@[i] == before[old_i] && sorted@[j] == before[old_j]);
                    } else if i == at && j != at {
                        assert(sorted@[j] == before[old_j]);
                    } else if i != at {
                        assert(sorted@[i] == before[old_i]);
                    }
                }
            }
            done = done + 1;
        }
    }
    proof {
        assert(all.subrange(0, done) =~= all);
    }
    sorted
}

/// How something is stably sorted is determined: two stable sortings of the same items are the
/// same.
pub proof fn law_stable_sorting_is_determined<T: Ranked>(items: Seq<T>, one: Seq<T>, other: Seq<T>)
    requires
        stably_sorted(items, one),
        stably_sorted(items, other),
    ensures
        one == other,
{
    lemma_determined(one, other);
}

proof fn lemma_rank_occurs<T: Ranked>(items: Seq<T>, i: int)
    requires
        0 <= i < items.len(),
    ensures
        of_rank(items, items[i].rank()).contains(items[i]),
        of_rank(items, items[i].rank()).len() > 0,
{
    let pred = |x: T| x.rank() == items[i].rank();
    items.lemma_filter_contains(pred, i);
    assert(of_rank(items, items[i].rank()).contains(items[i]));
}

proof fn lemma_of_rank_from<T: Ranked>(items: Seq<T>, rank: int, g: int)
    requires
        0 <= g < of_rank(items, rank).len(),
    ensures
        items.contains(of_rank(items, rank)[g]),
    decreases items.len(),
{
    reveal(Seq::filter);
    let front = items.drop_last();
    if g < of_rank(front, rank).len() {
        lemma_of_rank_from(front, rank, g);
        let k = front.index_of(of_rank(front, rank)[g]);
        assert(items[k] == of_rank(items, rank)[g]);
    } else {
        assert(items[items.len() - 1] == of_rank(items, rank)[g]);
    }
}

proof fn lemma_kept<T: Ranked>(before: Seq<T>, after: Seq<T>, i: int)
    requires
        forall|rank: int| #[trigger] of_rank(after, rank) == of_rank(before, rank),
        0 <= i < before.len(),
    ensures
        after.contains(before[i]),
{
    let rank = before[i].rank();
    lemma_rank_occurs(before, i);
    assert(of_rank(after, rank) == of_rank(before, rank));
    let g = of_rank(before, rank).index_of(before[i]);
    lemma_of_rank_from(after, rank, g);
}

/// Sorting loses nothing and makes nothing up: what was there is there afterwards, and nothing
/// else.
pub proof fn law_sorting_keeps_the_items<T: Ranked>(before: Seq<T>, after: Seq<T>)
    requires
        stably_sorted(before, after),
    ensures
        after.len() == before.len(),
        forall|i: int| 0 <= i < before.len() ==> after.contains(#[trigger] before[i]),
        forall|i: int| 0 <= i < after.len() ==> before.contains(#[trigger] after[i]),
{
    assert forall|i: int| 0 <= i < before.len() implies after.contains(#[trigger] before[i]) by {
        lemma_kept(before, after, i);
    }
    assert forall|rank: int| #[trigger] of_rank(before, rank) == of_rank(after, rank) by {
        assert(of_rank(after, rank) == of_rank(before, rank));
    }
    assert forall|i: int| 0 <= i < after.len() implies before.contains(#[trigger] after[i]) by {
        lemma_kept(after, before, i);
    }
}

proof fn lemma_last_of_rank<T: Ranked>(items: Seq<T>)
    requires
        items.len() > 0,
    ensures
        of_rank(items, items.last().rank()).len() > 0,
        of_rank(items, items.last().rank()).last() == items.last(),
        forall|rank: int|
            #[trigger] of_rank(items.drop_last(), rank) == if rank == items.last().rank() {
                of_rank(items, rank).drop_last()
            } else {
                of_rank(items, rank)
            },
{
    reveal(Seq::filter);
    assert forall|rank: int|
        #[trigger] of_rank(items.drop_last(), rank) == if rank == items.last().rank() {
            of_rank(items, rank).drop_last()
        } else {
            of_rank(items, rank)
        } by {
        if rank == items.last().rank() {
            assert(of_rank(items, rank).drop_last() =~= of_rank(items.drop_last(), rank));
        }
    }
}

proof fn lemma_determined<T: Ranked>(one: Seq<T>, other: Seq<T>)
    requires
        in_order(one),
        in_order(other),
        one.len() == other.len(),
        forall|rank: int| #[trigger] of_rank(one, rank) == of_rank(other, rank),
    ensures
        one == other,
    decreases one.len(),
{
    if one.len() > 0 {
        // the last ones have the highest rank that there is, which is the same in both
        let a = one.last();
        let b = other.last();
        lemma_last_of_rank(one);
        lemma_last_of_rank(other);
        lemma_rank_occurs(one, one.len() - 1);
        lemma_rank_occurs(other, other.len() - 1);
        assert(a.rank() <= b.rank()) by {
            assert(of_rank(one, a.rank()) == of_rank(other, a.rank()));
            if a.rank() > b.rank() {
                assert forall|i: int| 0 <= i < other.len() implies (#[trigger] other[i]).rank()
                    != a.rank() by {
                    assert(other[i].rank() <= other[other.len() - 1].rank());
                }
                lemma_no_rank(other, a.rank());
            }
        }
        assert(b.rank() <= a.rank()) by {
            assert(of_rank(one, b.rank()) == of_rank(other, b.rank()));
            if b.rank() > a.rank() {
                assert forall|i: int| 0 <= i < one.len() implies (#[trigger] one[i]).rank()
                    != b.rank() by {
                    assert(one[i].rank() <= one[one.len() - 1].rank());
                }
                lemma_no_rank(one, b.rank());
            }
        }
        assert(of_rank(one, a.rank()) == of_rank(other, a.rank()));
        assert(a == b);
        let (p, q) = (one.drop_last(), other.drop_last());
        assert forall|rank: int| #[trigger] of_rank(p, rank) == of_rank(q, rank) by {
            assert(of_rank(one, rank) == of_rank(other, rank));
        }
        assert(in_order(p)) by {
            assert forall|i: int, j: int| 0 <= i <= j < p.len() implies (#[trigger] p[i]).rank()
                <= (#[trigger] p[j]).rank() by {
                assert(one[i].rank() <= one[j].rank());
            }
        }
        assert(in_order(q)) by {
            assert forall|i: int, j: int| 0 <= i <= j < q.len() implies (#[trigger] q[i]).rank()
                <= (#[trigger] q[j]).rank() by {
                assert(other[i].rank() <= other[j].rank());
            }
        }
        lemma_determined(p, q);
        assert(one =~= p.push(a));
        assert(other =~= q.push(b));
    } else {
        assert(one =~= other);
    }
}

} // verus!
