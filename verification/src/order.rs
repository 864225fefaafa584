//! Stable sorting by insertion, for any way of ranking two items.
//!
//! The order that results is defined for every relation `le`, also one
//! that is no order at all: each item in turn is placed behind the last
//! item already placed that `le` ranks no later than it.  Where `le` is
//! reflexive, total and transitive this is the stable sort under `le`.

use crate::model::views;
use vstd::prelude::*;

verus! {

/// Items that can be ranked by what they hold.
pub trait Ranked: View + Sized {
    /// Whether an item holding `v` can be ranked at all.
    spec fn rankable(v: Self::V) -> bool;

    /// Whether an item holding `a` ranks no later than one holding `b`.
    spec fn no_later(a: Self::V, b: Self::V) -> bool;

    /// Whether this item ranks no later than `other`.
    fn ranks_no_later(&self, other: &Self) -> (r: bool)
        requires
            Self::rankable(self@),
            Self::rankable(other@),
        ensures
            r == Self::no_later(self@, other@),
    ;
}

/// The ranking of `T`, as a relation.
pub open spec fn ranking<T: Ranked>() -> spec_fn(T::V, T::V) -> bool {
    |a: T::V, b: T::V| T::no_later(a, b)
}

/// Where `x` goes into `placed`: just behind the last item that `le`
/// ranks no later than `x`, or in front where there is none.
pub open spec fn insertion_point<T>(placed: Seq<T>, x: T, le: spec_fn(T, T) -> bool) -> int
    decreases placed.len(),
{
    if placed.len() == 0 || le(placed.last(), x) {
        placed.len() as int
    } else {
        insertion_point(placed.drop_last(), x, le)
    }
}

/// The items of `s` placed one after another, each at its insertion point.
pub open spec fn stable_sort<T>(s: Seq<T>, le: spec_fn(T, T) -> bool) -> Seq<T>
    decreases s.len(),
{
    if s.len() == 0 {
        Seq::empty()
    } else {
        let placed = stable_sort(s.drop_last(), le);
        placed.insert(insertion_point(placed, s.last(), le), s.last())
    }
}

/// Whether `le` ranks every item of `s` no later than each item behind it.
pub open spec fn ranked<T>(s: Seq<T>, le: spec_fn(T, T) -> bool) -> bool {
    forall|i: int, j: int| 0 <= i < j < s.len() ==> le(#[trigger] s[i], #[trigger] s[j])
}

/// Whether `le` ranks any two items one way or the other, and ranks
/// transitively.
pub open spec fn total_preorder<T>(le: spec_fn(T, T) -> bool) -> bool {
    &&& forall|a: T, b: T| #[trigger] le(a, b) || #[trigger] le(b, a)
    &&& forall|a: T, b: T, c: T| #[trigger] le(a, b) && #[trigger] le(b, c) ==> le(a, c)
}

/// An insertion point lies within the sequence or just behind it; the
/// item in front of it ranks no later than `x`, and no item behind it does.
pub proof fn lemma_insertion_point<T>(placed: Seq<T>, x: T, le: spec_fn(T, T) -> bool)
    ensures
        0 <= insertion_point(placed, x, le) <= placed.len(),
        insertion_point(placed, x, le) > 0 ==> le(placed[insertion_point(placed, x, le) - 1], x),
        forall|k: int|
            insertion_point(placed, x, le) <= k < placed.len() ==> !le(#[trigger] placed[k], x),
    decreases placed.len(),
{
    if placed.len() == 0 || le(placed.last(), x) {
    } else {
        let front = placed.drop_last();
        lemma_insertion_point(front, x, le);
        assert forall|k: int| insertion_point(placed, x, le) <= k < placed.len() implies !le(
            #[trigger] placed[k],
            x,
        ) by {
            if k < front.len() {
                assert(placed[k] == front[k]);
            }
        }
    }
}

/// Sorting keeps the items: each occurs as often after as before.
pub proof fn lemma_stable_sort_permutes<T>(s: Seq<T>, le: spec_fn(T, T) -> bool)
    ensures
        stable_sort(s, le).len() == s.len(),
        stable_sort(s, le).to_multiset() == s.to_multiset(),
    decreases s.len(),
{
    broadcast use vstd::seq_lib::group_to_multiset_ensures;

    if s.len() == 0 {
        assert(s =~= Seq::<T>::empty());
    } else {
        let placed = stable_sort(s.drop_last(), le);
        lemma_stable_sort_permutes(s.drop_last(), le);
        lemma_insertion_point(placed, s.last(), le);
        assert(s.drop_last().push(s.last()) =~= s);
    }
}

/// Under a total preorder the result is ranked from front to back.
pub proof fn lemma_stable_sort_ranks<T>(s: Seq<T>, le: spec_fn(T, T) -> bool)
    requires
        total_preorder(le),
    ensures
        ranked(stable_sort(s, le), le),
    decreases s.len(),
{
    if s.len() > 0 {
        let placed = stable_sort(s.drop_last(), le);
        let x = s.last();
        let p = insertion_point(placed, x, le);
        let out = placed.insert(p, x);
        lemma_stable_sort_ranks(s.drop_last(), le);
        lemma_insertion_point(placed, x, le);
        assert forall|i: int, j: int| 0 <= i < j < out.len() implies le(
            #[trigger] out[i],
            #[trigger] out[j],
        ) by {
            if j < p {
                assert(out[i] == placed[i] && out[j] == placed[j]);
            } else if j == p {
                assert(out[i] == placed[i]);
                if i < p - 1 {
                    assert(le(placed[i], placed[p - 1]));
                }
            } else if i == p {
                assert(out[j] == placed[j - 1]);
                assert(!le(placed[j - 1], x));
            } else if i < p {
                assert(out[i] == placed[i] && out[j] == placed[j - 1]);
            } else {
                assert(out[i] == placed[i - 1] && out[j] == placed[j - 1]);
            }
        }
    }
}

/// Whether an item ranks alike with `e`: no later than `e`, and `e` no
/// later than it.
pub open spec fn ties_with<T>(e: T, le: spec_fn(T, T) -> bool) -> spec_fn(T) -> bool {
    |x: T| le(e, x) && le(x, e)
}

/// Under a total preorder items that rank alike keep their order: those
/// that rank alike with `e` stand in the result as they stood before.
pub proof fn lemma_stable_sort_keeps_ties<T>(s: Seq<T>, le: spec_fn(T, T) -> bool, e: T)
    requires
        total_preorder(le),
    ensures
        stable_sort(s, le).filter(ties_with(e, le)) == s.filter(ties_with(e, le)),
    decreases s.len(),
{
    let tie = ties_with(e, le);
    if s.len() == 0 {
        assert(stable_sort(s, le) =~= s);
    } else {
        let front = s.drop_last();
        let x = s.last();
        let placed = stable_sort(front, le);
        let p = insertion_point(placed, x, le);
        lemma_stable_sort_keeps_ties(front, le, e);
        lemma_insertion_point(placed, x, le);
        let head = placed.take(p);
        let tail = placed.skip(p);
        assert(placed =~= head + tail);
        assert(placed.insert(p, x) =~= head.push(x) + tail);
        assert(front.push(x) =~= s);
        Seq::filter_distributes_over_add(head, tail, tie);
        Seq::filter_distributes_over_add(head.push(x), tail, tie);
        head.lemma_filter_push(x, tie);
        front.lemma_filter_push(x, tie);
        if tie(x) {
            assert forall|k: int| 0 <= k < tail.len() implies !tie(#[trigger] tail[k]) by {
                assert(tail[k] == placed[p + k]);
                assert(!le(placed[p + k], x));
                if tie(tail[k]) {
                    assert(le(tail[k], e) && le(e, x));
                }
            }
            assert(tail.all(|y: T| !tie(y)));
            tail.lemma_all_neg_filter_empty(tie);
            assert(tail.filter(tie) =~= Seq::<T>::empty());
            assert(head.filter(tie).push(x) + tail.filter(tie) =~= (head.filter(tie) + tail.filter(
                tie,
            )).push(x));
        }
    }
}

/// Sorts `items` stably by their ranking.
pub fn sort<T: Ranked>(items: Vec<T>) -> (sorted: Vec<T>)
    requires
        forall|i: int| 0 <= i < items.len() ==> T::rankable(#[trigger] items[i]@),
    ensures
        views(sorted@) == stable_sort(views(items@), ranking::<T>()),
        sorted.len() == items.len(),
{
    let ghost all = items@;
    let mut rest = items;
    let mut sorted: Vec<T> = Vec::new();
    while rest.len() > 0
        invariant
            sorted.len() + rest.len() == all.len(),
            rest@ == all.skip(sorted.len() as int),
            views(sorted@) == stable_sort(views(all.take(sorted.len() as int)), ranking::<T>()),
            forall|i: int| 0 <= i < all.len() ==> T::rankable(#[trigger] all[i]@),
            forall|i: int| 0 <= i < sorted.len() ==> T::rankable(#[trigger] sorted[i]@),
        decreases rest.len(),
    {
        let ghost done = sorted.len() as int;
        let ghost placed = views(sorted@);
        let item = rest.remove(0);
        assert(item == all[done]);
        let mut at: usize = sorted.len();
        assert(placed.take(at as int) =~= placed);
        while at > 0 && !sorted[at - 1].ranks_no_later(&item)
            invariant
                at <= sorted.len(),
                placed == views(sorted@),
                T::rankable(item@),
                forall|i: int| 0 <= i < sorted.len() ==> T::rankable(#[trigger] sorted[i]@),
                insertion_point(placed, item@, ranking::<T>()) == insertion_point(
                    placed.take(at as int),
                    item@,
                    ranking::<T>(),
                ),
            decreases at,
        {
            assert(placed.take(at as int).drop_last() =~= placed.take(at - 1));
            at = at - 1;
        }
        proof {
            assert(placed.take(sorted.len() as int) =~= placed);
            lemma_insertion_point(placed.take(at as int), item@, ranking::<T>());
            if at > 0 {
                assert(placed.take(at as int).last() == sorted[at - 1]@);
            }
            assert(insertion_point(placed, item@, ranking::<T>()) == at);
            let prefix = views(all.take(done + 1));
            assert(prefix.drop_last() =~= views(all.take(done)));
            assert(prefix.last() == item@);
        }
        sorted.insert(at, item);
        proof {
            assert(views(sorted@) =~= placed.insert(at as int, item@));
            assert(rest@ =~= all.skip(sorted.len() as int));
        }
    }
    proof {
        assert(all.take(all.len() as int) =~= all);
    }
    sorted
}

} // verus!
