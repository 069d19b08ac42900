//! Releasing values in index order, whatever order they resolve in.
//!
//! Concurrent fetches complete scrambled relative to their list, and a table
//! filling in scattered order reads as glitchy. Parking each value as it lands
//! and releasing only the run of resolved slots at the front makes the table
//! fill top-down while leaving the fetches fully concurrent.

use vstd::prelude::*;

verus! {

/// A list of slots that resolve in any order.
pub struct InOrder<T> {
    /// `None` = not resolved yet; `Some(None)` = resolved with nothing to
    /// release.
    pub slots: Vec<Option<Option<T>>>,
    /// The next slot to release; everything below it has been.
    pub next: usize,
}

/// Where the run of resolved slots that starts at `from` ends.
pub open spec fn run_end<T>(slots: Seq<Option<Option<T>>>, from: int) -> int
    decreases slots.len() - from,
{
    if 0 <= from < slots.len() && slots[from] is Some {
        run_end(slots, from + 1)
    } else {
        from
    }
}

/// The values in the slots of `from..to`, each with the slot's index.
pub open spec fn released<T>(slots: Seq<Option<Option<T>>>, from: int, to: int) -> Seq<
    (usize, T),
>
    decreases to - from,
{
    if from >= to {
        Seq::empty()
    } else {
        let earlier = released(slots, from, to - 1);
        match slots[to - 1] {
            Some(Some(value)) => earlier.push(((to - 1) as usize, value)),
            _ => earlier,
        }
    }
}

/// The slots with those of `from..to` emptied.
pub open spec fn emptied<T>(slots: Seq<Option<Option<T>>>, from: int, to: int) -> Seq<
    Option<Option<T>>,
> {
    Seq::new(
        slots.len(),
        |j: int|
            if from <= j < to {
                None
            } else {
                slots[j]
            },
    )
}

proof fn lemma_run_end<T>(slots: Seq<Option<Option<T>>>, from: int)
    requires
        0 <= from <= slots.len(),
    ensures
        from <= run_end(slots, from) <= slots.len(),
        forall|j: int| from <= j < run_end(slots, from) ==> slots[j] is Some,
        run_end(slots, from) < slots.len() ==> slots[run_end(slots, from)] is None,
    decreases slots.len() - from,
{
    if from < slots.len() && slots[from] is Some {
        lemma_run_end(slots, from + 1);
    }
}

/// The run from a point inside a run ends where the run does.
proof fn lemma_run_end_within<T>(slots: Seq<Option<Option<T>>>, from: int, mid: int)
    requires
        0 <= from <= mid <= slots.len(),
        forall|j: int| from <= j < mid ==> slots[j] is Some,
    ensures
        run_end(slots, from) == run_end(slots, mid),
    decreases mid - from,
{
    if from < mid {
        lemma_run_end_within(slots, from + 1, mid);
    }
}

/// A run depends on nothing in front of it.
proof fn lemma_run_end_agrees<T>(
    a: Seq<Option<Option<T>>>,
    b: Seq<Option<Option<T>>>,
    from: int,
)
    requires
        a.len() == b.len(),
        0 <= from <= a.len(),
        forall|j: int| from <= j < a.len() ==> a[j] == b[j],
    ensures
        run_end(a, from) == run_end(b, from),
    decreases a.len() - from,
{
    if from < a.len() && a[from] is Some {
        lemma_run_end_agrees(a, b, from + 1);
    }
}

proof fn lemma_released_agrees<T>(
    a: Seq<Option<Option<T>>>,
    b: Seq<Option<Option<T>>>,
    from: int,
    to: int,
)
    requires
        0 <= from <= to <= a.len(),
        a.len() == b.len(),
        forall|j: int| from <= j < to ==> a[j] == b[j],
    ensures
        released(a, from, to) == released(b, from, to),
    decreases to - from,
{
    if from < to {
        lemma_released_agrees(a, b, from, to - 1);
    }
}

proof fn lemma_released_split<T>(slots: Seq<Option<Option<T>>>, from: int, mid: int, to: int)
    requires
        0 <= from <= mid <= to <= slots.len(),
    ensures
        released(slots, from, to) == released(slots, from, mid) + released(slots, mid, to),
    decreases to - mid,
{
    if mid < to {
        lemma_released_split(slots, from, mid, to - 1);
        assert(released(slots, from, to) =~= released(slots, from, mid) + released(
            slots,
            mid,
            to,
        ));
    } else {
        assert(released(slots, from, to) =~= released(slots, from, mid) + released(
            slots,
            mid,
            to,
        ));
    }
}

impl<T> InOrder<T> {
    pub open spec fn wf(self) -> bool {
        self.next <= self.slots@.len()
    }

    pub fn new(len: usize) -> (r: Self)
        ensures
            r.wf(),
            r.next == 0,
            r.slots@ == Seq::new(len as nat, |j: int| None::<Option<T>>),
    {
        let mut slots: Vec<Option<Option<T>>> = Vec::new();
        let mut i: usize = 0;
        while i < len
            invariant
                i <= len,
                slots@ == Seq::new(i as nat, |j: int| None::<Option<T>>),
            decreases len - i,
        {
            slots.push(None);
            i = i + 1;
            assert(slots@ =~= Seq::new(i as nat, |j: int| None::<Option<T>>));
        }
        InOrder { slots, next: 0 }
    }

    /// Record slot `i` as resolved, then release however much of the front
    /// that unblocked — nothing at all unless `i` was itself the next one due.
    /// A `None` value consumes its slot without being released, so a value that
    /// fails to resolve can't stall the ones after it.
    pub fn resolve(&mut self, i: usize, value: Option<T>) -> (r: Vec<(usize, T)>)
        requires
            old(self).wf(),
            i < old(self).slots@.len(),
        ensures
            final(self).wf(),
            ({
                let filled = old(self).slots@.update(i as int, Some(value));
                let from = old(self).next as int;
                let to = run_end(filled, from);
                &&& final(self).next == to
                &&& final(self).slots@ == emptied(filled, from, to)
                &&& r@ == released(filled, from, to)
            }),
    {
        let ghost filled = self.slots@.update(i as int, Some(value));
        let ghost from = self.next as int;
        self.slots.set(i, Some(value));
        let mut out: Vec<(usize, T)> = Vec::new();
        proof {
            assert(self.slots@ =~= emptied(filled, from, from));
        }
        while self.next < self.slots.len() && self.slots[self.next].is_some()
            invariant
                0 <= from <= self.next <= filled.len(),
                self.slots@ == emptied(filled, from, self.next as int),
                run_end(filled, from) == run_end(filled, self.next as int),
                out@ == released(filled, from, self.next as int),
            decreases filled.len() - self.next,
        {
            let at: usize = self.next;
            let mut slot: Option<Option<T>> = None;
            std::mem::swap(&mut slot, &mut self.slots[at]);
            self.next = at + 1;
            proof {
                assert(slot == filled[at as int]);
                assert(self.slots@ =~= emptied(filled, from, at + 1));
            }
            if let Some(Some(value)) = slot {
                out.push((at, value));
            }
        }
        out
    }
}

/// The slots after `calls` in which each slot resolved at most once: what each
/// one resolved with.
pub open spec fn resolved<T>(len: nat, calls: Seq<(int, Option<T>)>) -> Seq<Option<Option<T>>>
    decreases calls.len(),
{
    if calls.len() == 0 {
        Seq::new(len, |j: int| None)
    } else {
        resolved(len, calls.drop_last()).update(calls.last().0, Some(calls.last().1))
    }
}

/// What an [`InOrder`] holds, and what it has released, after `calls`.
pub open spec fn state_after<T>(len: nat, calls: Seq<(int, Option<T>)>) -> (
    Seq<Option<Option<T>>>,
    int,
    Seq<(usize, T)>,
)
    decreases calls.len(),
{
    if calls.len() == 0 {
        (Seq::new(len, |j: int| None), 0, Seq::empty())
    } else {
        let (slots, next, out) = state_after(len, calls.drop_last());
        let filled = slots.update(calls.last().0, Some(calls.last().1));
        let to = run_end(filled, next);
        (emptied(filled, next, to), to, out + released(filled, next, to))
    }
}

/// Each call names a slot, and no slot is named twice.
pub open spec fn each_once<T>(len: nat, calls: Seq<(int, Option<T>)>) -> bool {
    &&& forall|k: int| 0 <= k < calls.len() ==> 0 <= (#[trigger] calls[k]).0 < len
    &&& forall|k: int, l: int|
        0 <= k < l < calls.len() ==> (#[trigger] calls[k]).0 != (#[trigger] calls[l]).0
}

/// One of the calls names slot `j`.
pub open spec fn names<T>(calls: Seq<(int, Option<T>)>, j: int) -> bool {
    exists|k: int| 0 <= k < calls.len() && (#[trigger] calls[k]).0 == j
}

proof fn lemma_resolved<T>(len: nat, calls: Seq<(int, Option<T>)>)
    requires
        each_once(len, calls),
    ensures
        resolved(len, calls).len() == len,
        forall|j: int|
            0 <= j < len && (#[trigger] resolved(len, calls)[j]) is Some ==> exists|k: int|
                0 <= k < calls.len() && (#[trigger] calls[k]).0 == j,
        forall|k: int|
            0 <= k < calls.len() ==> resolved(len, calls)[(#[trigger] calls[k]).0] == Some(
                calls[k].1,
            ),
    decreases calls.len(),
{
    if calls.len() > 0 {
        let before = calls.drop_last();
        assert(each_once(len, before)) by {
            assert forall|k: int| 0 <= k < before.len() implies 0 <= (#[trigger] before[k]).0
                < len by {
                assert(before[k] == calls[k]);
            }
            assert forall|k: int, l: int| 0 <= k < l < before.len() implies (
            #[trigger] before[k]).0 != (#[trigger] before[l]).0 by {
                assert(before[k] == calls[k] && before[l] == calls[l]);
            }
        }
        lemma_resolved(len, before);
        let now = resolved(len, calls);
        assert(calls.last() == calls[calls.len() - 1]);
        assert forall|j: int| 0 <= j < len && (#[trigger] now[j]) is Some implies exists|k: int|
            0 <= k < calls.len() && (#[trigger] calls[k]).0 == j by {
            if j == calls.last().0 {
                assert(calls[calls.len() - 1].0 == j);
            } else {
                assert(resolved(len, before)[j] is Some);
                let k = choose|k: int| 0 <= k < before.len() && (#[trigger] before[k]).0 == j;
                assert(calls[k].0 == j);
            }
        }
        assert forall|k: int| 0 <= k < calls.len() implies now[(#[trigger] calls[k]).0] == Some(
            calls[k].1,
        ) by {
            if k < before.len() {
                assert(before[k] == calls[k]);
                assert(calls[k].0 != calls[calls.len() - 1].0);
            }
        }
    }
}

/// However the slots resolve, what has been released is the values of the
/// resolved slots in front of the first unresolved one, in index order, each
/// of them once.
pub proof fn released_in_index_order<T>(len: nat, calls: Seq<(int, Option<T>)>)
    requires
        each_once(len, calls),
    ensures
        ({
            let values = resolved(len, calls);
            let (slots, next, out) = state_after(len, calls);
            &&& next == run_end(values, 0)
            &&& out == released(values, 0, next)
            &&& slots.len() == len
            &&& forall|j: int| next <= j < len ==> slots[j] == values[j]
        }),
    decreases calls.len(),
{
    lemma_resolved(len, calls);
    if calls.len() == 0 {
        let values = resolved(len, calls);
        assert(run_end(values, 0) == 0);
        assert(released(values, 0, 0) =~= Seq::empty());
    } else {
        let before = calls.drop_last();
        assert(each_once(len, before)) by {
            assert forall|k: int| 0 <= k < before.len() implies 0 <= (#[trigger] before[k]).0
                < len by {
                assert(before[k] == calls[k]);
            }
            assert forall|k: int, l: int| 0 <= k < l < before.len() implies (
            #[trigger] before[k]).0 != (#[trigger] before[l]).0 by {
                assert(before[k] == calls[k] && before[l] == calls[l]);
            }
        }
        released_in_index_order(len, before);
        lemma_resolved(len, before);
        let i = calls.last().0;
        assert(calls.last() == calls[calls.len() - 1]);
        let was = resolved(len, before);
        let values = resolved(len, calls);
        let (slots, next, out) = state_after(len, before);
        let filled = slots.update(i, Some(calls.last().1));
        let to = run_end(filled, next);
        lemma_run_end(was, 0);
        // The slot that resolves now is not among those released.
        assert(was[i] is None) by {
            if was[i] is Some {
                let k = choose|k: int| 0 <= k < before.len() && (#[trigger] before[k]).0 == i;
                assert(calls[k].0 == i);
                assert(false);
            }
        }
        assert(i >= next);
        lemma_run_end_within(values, 0, next);
        lemma_run_end_agrees(filled, values, next);
        lemma_run_end(filled, next);
        lemma_released_agrees(was, values, 0, next);
        lemma_released_agrees(filled, values, next, to);
        lemma_released_split(values, 0, next, to);
    }
}

/// Once every slot has resolved, everything has been released.
pub proof fn all_released_at_the_end<T>(len: nat, calls: Seq<(int, Option<T>)>)
    requires
        each_once(len, calls),
        forall|j: int|
            0 <= j < len ==> #[trigger] names(calls, j),
    ensures
        state_after(len, calls).1 == len,
        state_after(len, calls).2 == released(resolved(len, calls), 0, len as int),
{
    released_in_index_order(len, calls);
    lemma_resolved(len, calls);
    let values = resolved(len, calls);
    lemma_run_end(values, 0);
    let end = run_end(values, 0);
    if end < len {
        assert(names(calls, end));
        let k = choose|k: int| 0 <= k < calls.len() && (#[trigger] calls[k]).0 == end;
        assert(values[calls[k].0] is Some);
        assert(false);
    }
}

/// The indices of what is released ascend.
pub proof fn released_indices_ascend<T>(slots: Seq<Option<Option<T>>>, from: int, to: int)
    requires
        0 <= from <= to <= slots.len(),
        slots.len() <= usize::MAX,
    ensures
        forall|k: int|
            0 <= k < released(slots, from, to).len() ==> from <= (
            #[trigger] released(slots, from, to)[k]).0 < to,
        forall|k: int, l: int|
            0 <= k < l < released(slots, from, to).len() ==> (#[trigger] released(
                slots,
                from,
                to,
            )[k]).0 < (#[trigger] released(slots, from, to)[l]).0,
    decreases to - from,
{
    if from < to {
        released_indices_ascend(slots, from, to - 1);
        let earlier = released(slots, from, to - 1);
        let all = released(slots, from, to);
        assert forall|k: int| 0 <= k < all.len() implies from <= (#[trigger] all[k]).0 < to by {
            if k < earlier.len() {
                assert(all[k] == earlier[k]);
            }
        }
        assert forall|k: int, l: int| 0 <= k < l < all.len() implies (#[trigger] all[k]).0 < (
        #[trigger] all[l]).0 by {
            assert(all[k] == earlier[k]);
            if l < earlier.len() {
                assert(all[l] == earlier[l]);
            }
        }
    }
}

/// What is released of a run of slots is every value in it, each with its place,
/// and nothing else.
pub proof fn every_value_of_a_run_is_released<T>(
    slots: Seq<Option<Option<T>>>,
    from: int,
    to: int,
    i: int,
    value: T,
)
    requires
        0 <= from <= to <= slots.len(),
        slots.len() <= usize::MAX,
        0 <= i < slots.len(),
    ensures
        released(slots, from, to).contains((i as usize, value)) <==> from <= i < to && slots[i]
            == Some(Some(value)),
    decreases to - from,
{
    let all = released(slots, from, to);
    let it = (i as usize, value);
    if from < to {
        let earlier = released(slots, from, to - 1);
        every_value_of_a_run_is_released(slots, from, to - 1, i, value);
        if earlier.contains(it) {
            let k = earlier.index_of(it);
            assert(all[k] == it);
        }
        if i == to - 1 && slots[i] == Some(Some(value)) {
            assert(all[all.len() - 1] == it);
        }
        if all.contains(it) {
            let k = all.index_of(it);
            if k < earlier.len() {
                assert(earlier[k] == it);
            } else {
                assert(all[k].0 == (to - 1) as usize);
            }
        }
    }
}

/// A run of resolved slots goes on up to the first that is not.
pub proof fn runs_end_at_the_first_open_slot<T>(slots: Seq<Option<Option<T>>>, from: int)
    requires
        0 <= from <= slots.len(),
    ensures
        from <= run_end(slots, from) <= slots.len(),
        forall|j: int| from <= j < run_end(slots, from) ==> slots[j] is Some,
        run_end(slots, from) < slots.len() ==> slots[run_end(slots, from)] is None,
{
    lemma_run_end(slots, from);
}

/// Only what was released leaves its slot.
pub proof fn only_released_slots_are_emptied<T>(
    slots: Seq<Option<Option<T>>>,
    from: int,
    to: int,
    j: int,
)
    requires
        0 <= j < slots.len(),
    ensures
        emptied(slots, from, to).len() == slots.len(),
        from <= j && j < to ==> emptied(slots, from, to)[j] is None,
        j < from || to <= j ==> emptied(slots, from, to)[j] == slots[j],
{
}

} // verus!
