//! Removing elements in one pass: which elements stay, and the bookkeeping
//! that closes the holes they leave.

use crate::memory::{Memory, MemoryState};
use crate::shift::{move_down, spec_moved};
use vstd::prelude::*;

verus! {

/// The elements of `vals` whose flag in `keep` is set, in their order.
pub open spec fn retained<T>(vals: Seq<T>, keep: Seq<bool>) -> Seq<T>
    decreases vals.len(),
{
    if vals.len() == 0 {
        Seq::empty()
    } else {
        let front = retained(vals.drop_last(), keep.drop_last());
        if keep.last() {
            front.push(vals.last())
        } else {
            front
        }
    }
}

/// The number of flags that are set.
pub open spec fn count_kept(keep: Seq<bool>) -> nat
    decreases keep.len(),
{
    if keep.len() == 0 {
        0
    } else {
        count_kept(keep.drop_last()) + if keep.last() {
            1nat
        } else {
            0nat
        }
    }
}

/// As many elements stay as flags are set, and never more than there were.
pub proof fn lemma_retained_len<T>(vals: Seq<T>, keep: Seq<bool>)
    requires
        vals.len() == keep.len(),
    ensures
        retained(vals, keep).len() == count_kept(keep),
        retained(vals, keep).len() <= vals.len(),
    decreases vals.len(),
{
    if vals.len() > 0 {
        lemma_retained_len(vals.drop_last(), keep.drop_last());
    }
}

/// Visiting one more element appends it to what stayed, or leaves that as it
/// was.
pub proof fn lemma_retained_push<T>(vals: Seq<T>, keep: Seq<bool>, val: T, flag: bool)
    requires
        vals.len() == keep.len(),
    ensures
        retained(vals.push(val), keep.push(flag)) == if flag {
            retained(vals, keep).push(val)
        } else {
            retained(vals, keep)
        },
{
    assert(vals.push(val).drop_last() =~= vals);
    assert(keep.push(flag).drop_last() =~= keep);
}

/// The positions whose flag in `keep` is set, in ascending order.
pub open spec fn kept_indices(keep: Seq<bool>) -> Seq<int>
    decreases keep.len(),
{
    if keep.len() == 0 {
        Seq::empty()
    } else {
        let front = kept_indices(keep.drop_last());
        if keep.last() {
            front.push(keep.len() - 1)
        } else {
            front
        }
    }
}

/// The elements that stay keep their order: they are the elements at the
/// flagged positions, every flagged position once, in ascending order of
/// position.
pub proof fn lemma_retained_order<T>(vals: Seq<T>, keep: Seq<bool>)
    requires
        vals.len() == keep.len(),
    ensures
        kept_indices(keep).len() == retained(vals, keep).len(),
        forall|k: int|
            0 <= k < kept_indices(keep).len() ==> {
                &&& 0 <= #[trigger] kept_indices(keep)[k] < vals.len()
                &&& keep[kept_indices(keep)[k]]
                &&& retained(vals, keep)[k] == vals[kept_indices(keep)[k]]
            },
        forall|j: int, k: int|
            0 <= j < k < kept_indices(keep).len() ==> #[trigger] kept_indices(keep)[j]
                < #[trigger] kept_indices(keep)[k],
        forall|i: int|
            0 <= i < keep.len() && #[trigger] keep[i] ==> kept_indices(keep).contains(i),
    decreases vals.len(),
{
    if vals.len() > 0 {
        let front_vals = vals.drop_last();
        let front_keep = keep.drop_last();
        lemma_retained_order(front_vals, front_keep);
        let front = kept_indices(front_keep);
        let all = kept_indices(keep);
        assert forall|i: int| 0 <= i < keep.len() && #[trigger] keep[i] implies all.contains(
            i,
        ) by {
            if i < keep.len() - 1 {
                assert(front_keep[i]);
                let k = choose|k: int| 0 <= k < front.len() && front[k] == i;
                assert(all[k] == i);
            } else {
                assert(all[all.len() - 1] == i);
            }
        }
    }
}

/// Where the flags are the answers of a predicate on the elements, what
/// stays is the sequence filtered by the predicate.
pub proof fn lemma_retained_filter<T>(vals: Seq<T>, keep: Seq<bool>, pred: spec_fn(T) -> bool)
    requires
        vals.len() == keep.len(),
        forall|i: int| 0 <= i < vals.len() ==> #[trigger] keep[i] == pred(vals[i]),
    ensures
        retained(vals, keep) == vals.filter(pred),
    decreases vals.len(),
{
    reveal(Seq::filter);
    if vals.len() > 0 {
        lemma_retained_filter(vals.drop_last(), keep.drop_last(), pred);
        assert(keep.last() == pred(vals.last()));
    } else {
        assert(retained(vals, keep) =~= vals.filter(pred));
    }
}

/// Of a single element that is flagged, the element stays.
pub proof fn lemma_retained_single<T>(vals: Seq<T>, keep: Seq<bool>)
    requires
        vals.len() == 1,
        keep.len() == 1,
        keep[0],
    ensures
        retained(vals, keep) == vals,
{
    assert(retained(vals.drop_last(), keep.drop_last()) =~= Seq::<T>::empty());
    assert(retained(vals, keep) =~= vals);
}

/// The cursors of a pass that removes elements from a buffer in place.
///
/// The buffer is cut in three: in front the elements that stay, then a hole
/// as wide as the number of elements removed, then the elements that the pass
/// has not looked at. While the pass runs the stored length is zero, so that
/// it never counts an element behind a hole. Closing the hole is the last
/// step of every pass, whether it looked at every element or stopped early,
/// and the length stored then counts the elements that stay and no other.
pub struct Backshift {
    /// How many elements the pass has looked at.
    pub processed_len: usize,
    /// How many of those it removed.
    pub deleted_cnt: usize,
    /// How many elements there were.
    pub initial_len: usize,
}

impl Backshift {
    /// The cursors are in order and lie inside the buffer, whose stored
    /// length is zero.
    pub open spec fn fits<T>(&self, state: MemoryState<T>) -> bool {
        &&& state.aligned
        &&& state.len == 0
        &&& self.deleted_cnt <= self.processed_len <= self.initial_len <= state.capacity()
    }

    /// The place that the next element to stay moves to.
    pub open spec fn slot(&self) -> int {
        self.processed_len - self.deleted_cnt
    }

    /// Starts a pass over the elements of `mem`: stores length zero and
    /// remembers the length there was.
    pub fn begin<T: Copy, A: Memory<T>>(mem: &mut A) -> (guard: Self)
        requires
            old(mem)@.bindable(),
        ensures
            guard.fits(final(mem)@),
            final(mem)@ == old(mem)@.with_len(0),
            guard.processed_len == 0,
            guard.deleted_cnt == 0,
            guard.initial_len == old(mem)@.len,
    {
        let initial_len: usize = mem.len();
        mem.set_len(0);
        Backshift { processed_len: 0, deleted_cnt: 0, initial_len }
    }

    /// The next element to look at.
    pub fn current<T: Copy, A: Memory<T>>(&self, mem: &A) -> (value: T)
        requires
            self.fits(mem@),
            self.processed_len < self.initial_len,
        ensures
            value == mem@.buffer[self.processed_len as int],
    {
        mem.as_slice()[self.processed_len]
    }

    /// The element looked at stays as it is: it moves down into the hole,
    /// where there is one.
    pub fn keep_current<T: Copy, A: Memory<T>>(&mut self, mem: &mut A)
        requires
            old(self).fits(old(mem)@),
            old(self).processed_len < old(self).initial_len,
        ensures
            final(self).fits(final(mem)@),
            final(mem)@ == old(mem)@.with_buffer(
                old(mem)@.buffer.update(
                    old(self).slot(),
                    old(mem)@.buffer[old(self).processed_len as int],
                ),
            ),
            final(self).processed_len == old(self).processed_len + 1,
            final(self).deleted_cnt == old(self).deleted_cnt,
            final(self).initial_len == old(self).initial_len,
    {
        if self.deleted_cnt > 0 {
            let slice = mem.as_mut_slice();
            slice[self.processed_len - self.deleted_cnt] = slice[self.processed_len];
        } else {
            assert(mem@.buffer.update(self.slot(), mem@.buffer[self.processed_len as int])
                =~= mem@.buffer);
        }
        self.processed_len = self.processed_len + 1;
    }

    /// The element looked at stays and holds `value` from now on: the value
    /// is written into the hole, or over the element where there is no hole.
    pub fn replace_current<T: Copy, A: Memory<T>>(&mut self, mem: &mut A, value: T)
        requires
            old(self).fits(old(mem)@),
            old(self).processed_len < old(self).initial_len,
        ensures
            final(self).fits(final(mem)@),
            final(mem)@ == old(mem)@.with_buffer(old(mem)@.buffer.update(old(self).slot(), value)),
            final(self).processed_len == old(self).processed_len + 1,
            final(self).deleted_cnt == old(self).deleted_cnt,
            final(self).initial_len == old(self).initial_len,
    {
        let slice = mem.as_mut_slice();
        slice[self.processed_len - self.deleted_cnt] = value;
        self.processed_len = self.processed_len + 1;
    }

    /// Writes `value` over the element under the cursor, which stays among
    /// the elements not yet looked at.
    pub fn restore_current<T: Copy, A: Memory<T>>(&self, mem: &mut A, value: T)
        requires
            self.fits(old(mem)@),
            self.processed_len < self.initial_len,
        ensures
            self.fits(final(mem)@),
            final(mem)@ == old(mem)@.with_buffer(
                old(mem)@.buffer.update(self.processed_len as int, value),
            ),
    {
        let slice = mem.as_mut_slice();
        slice[self.processed_len] = value;
    }

    /// The element looked at goes: the hole grows by one.
    pub fn discard_current(&mut self)
        requires
            old(self).processed_len < old(self).initial_len,
            old(self).deleted_cnt <= old(self).processed_len,
        ensures
            final(self).processed_len == old(self).processed_len + 1,
            final(self).deleted_cnt == old(self).deleted_cnt + 1,
            final(self).initial_len == old(self).initial_len,
    {
        self.processed_len = self.processed_len + 1;
        self.deleted_cnt = self.deleted_cnt + 1;
    }

    /// Ends the pass: moves the elements not looked at down over the hole and
    /// stores the length, which is the number of elements looked at less the
    /// number of elements removed. After a pass that stopped early the
    /// elements not looked at lie behind the length, in the spare capacity.
    pub fn finish<T: Copy, A: Memory<T>>(self, mem: &mut A)
        requires
            self.fits(old(mem)@),
        ensures
            final(mem)@ == old(mem)@.with_buffer(
                spec_moved(
                    old(mem)@.buffer,
                    self.processed_len as int,
                    self.slot(),
                    self.initial_len - self.processed_len,
                ),
            ).with_len((self.processed_len - self.deleted_cnt) as nat),
            final(mem)@.bindable(),
    {
        if self.deleted_cnt > 0 {
            let slice = mem.as_mut_slice();
            move_down(
                slice,
                self.processed_len,
                self.processed_len - self.deleted_cnt,
                self.initial_len - self.processed_len,
            );
        } else {
            assert(spec_moved(
                mem@.buffer,
                self.processed_len as int,
                self.slot(),
                self.initial_len - self.processed_len,
            ) =~= mem@.buffer);
        }
        mem.set_len(self.processed_len - self.deleted_cnt);
    }
}

/// How a buffer stands in the middle of a pass that removes elements: in
/// front lie the elements that stay, and from the cursor on the elements
/// not yet looked at, where they were.
pub open spec fn backshift_holds<T>(
    buffer: Seq<T>,
    initial: Seq<T>,
    vals: Seq<T>,
    keep: Seq<bool>,
    guard: Backshift,
) -> bool {
    &&& guard.deleted_cnt <= guard.processed_len <= guard.initial_len <= buffer.len()
    &&& initial.len() == guard.initial_len
    &&& vals.len() == guard.processed_len
    &&& keep.len() == guard.processed_len
    &&& buffer.subrange(0, guard.slot()) == retained(vals, keep)
    &&& buffer.subrange(guard.processed_len as int, guard.initial_len as int)
        == initial.subrange(guard.processed_len as int, guard.initial_len as int)
}

/// Before the pass has looked at anything the buffer stands as the pass
/// needs it.
pub proof fn lemma_backshift_begin<T>(buffer: Seq<T>, guard: Backshift)
    requires
        guard.processed_len == 0,
        guard.deleted_cnt == 0,
        guard.initial_len <= buffer.len(),
    ensures
        backshift_holds(
            buffer,
            buffer.take(guard.initial_len as int),
            Seq::empty(),
            Seq::empty(),
            guard,
        ),
{
    assert(buffer.subrange(0, 0) =~= retained(Seq::<T>::empty(), Seq::<bool>::empty()));
    assert(buffer.subrange(0, guard.initial_len as int) =~= buffer.take(
        guard.initial_len as int,
    ).subrange(0, guard.initial_len as int));
}

/// Keeping the element under the cursor, with the value `value`, keeps the
/// buffer as the pass needs it.
pub proof fn lemma_backshift_keep<T>(
    buffer: Seq<T>,
    initial: Seq<T>,
    vals: Seq<T>,
    keep: Seq<bool>,
    guard: Backshift,
    value: T,
    next: Backshift,
)
    requires
        backshift_holds(buffer, initial, vals, keep, guard),
        guard.processed_len < guard.initial_len,
        next.processed_len == guard.processed_len + 1,
        next.deleted_cnt == guard.deleted_cnt,
        next.initial_len == guard.initial_len,
    ensures
        backshift_holds(
            buffer.update(guard.slot(), value),
            initial,
            vals.push(value),
            keep.push(true),
            next,
        ),
{
    let after = buffer.update(guard.slot(), value);
    lemma_retained_push(vals, keep, value, true);
    assert(after.subrange(0, next.slot()) =~= buffer.subrange(0, guard.slot()).push(value));
    assert(after.subrange(next.processed_len as int, next.initial_len as int)
        =~= initial.subrange(next.processed_len as int, next.initial_len as int)) by {
        assert forall|i: int| next.processed_len <= i < next.initial_len implies after[i]
            == initial[i] by {
            assert(buffer.subrange(
                guard.processed_len as int,
                guard.initial_len as int,
            )[i - guard.processed_len] == buffer[i]);
        }
    }
}

/// Removing the element under the cursor, which held `value`, keeps the
/// buffer as the pass needs it.
pub proof fn lemma_backshift_discard<T>(
    buffer: Seq<T>,
    initial: Seq<T>,
    vals: Seq<T>,
    keep: Seq<bool>,
    guard: Backshift,
    value: T,
    next: Backshift,
)
    requires
        backshift_holds(buffer, initial, vals, keep, guard),
        guard.processed_len < guard.initial_len,
        next.processed_len == guard.processed_len + 1,
        next.deleted_cnt == guard.deleted_cnt + 1,
        next.initial_len == guard.initial_len,
    ensures
        backshift_holds(buffer, initial, vals.push(value), keep.push(false), next),
{
    lemma_retained_push(vals, keep, value, false);
    assert(buffer.subrange(next.processed_len as int, next.initial_len as int)
        =~= initial.subrange(next.processed_len as int, next.initial_len as int)) by {
        assert forall|i: int| next.processed_len <= i < next.initial_len implies buffer[i]
            == initial[i] by {
            assert(buffer.subrange(
                guard.processed_len as int,
                guard.initial_len as int,
            )[i - guard.processed_len] == buffer[i]);
        }
    }
}

/// Writing `value` over the element under the cursor keeps the buffer as the
/// pass needs it, for elements that held `value` there from the start.
pub proof fn lemma_backshift_restore<T>(
    buffer: Seq<T>,
    initial: Seq<T>,
    vals: Seq<T>,
    keep: Seq<bool>,
    guard: Backshift,
    value: T,
)
    requires
        backshift_holds(buffer, initial, vals, keep, guard),
        guard.processed_len < guard.initial_len,
    ensures
        backshift_holds(
            buffer.update(guard.processed_len as int, value),
            initial.update(guard.processed_len as int, value),
            vals,
            keep,
            guard,
        ),
        initial.update(guard.processed_len as int, value).subrange(
            guard.processed_len as int,
            guard.initial_len as int,
        ) == seq![value] + initial.subrange(guard.processed_len + 1, guard.initial_len as int),
{
    let after = buffer.update(guard.processed_len as int, value);
    let changed = initial.update(guard.processed_len as int, value);
    assert(after.subrange(0, guard.slot()) =~= buffer.subrange(0, guard.slot()));
    assert(after.subrange(guard.processed_len as int, guard.initial_len as int)
        =~= changed.subrange(guard.processed_len as int, guard.initial_len as int)) by {
        assert forall|i: int| guard.processed_len <= i < guard.initial_len implies after[i]
            == changed[i] by {
            assert(buffer.subrange(
                guard.processed_len as int,
                guard.initial_len as int,
            )[i - guard.processed_len] == buffer[i]);
        }
    }
    assert(changed.subrange(guard.processed_len as int, guard.initial_len as int) =~= seq![value]
        + initial.subrange(guard.processed_len + 1, guard.initial_len as int));
}

/// Once the hole is closed the buffer holds in front the elements that stay,
/// as many as were looked at and not removed, and right behind them the
/// elements that the pass never looked at.
pub proof fn lemma_backshift_finish<T>(
    buffer: Seq<T>,
    initial: Seq<T>,
    vals: Seq<T>,
    keep: Seq<bool>,
    guard: Backshift,
)
    requires
        backshift_holds(buffer, initial, vals, keep, guard),
    ensures
        spec_moved(
            buffer,
            guard.processed_len as int,
            guard.slot(),
            guard.initial_len - guard.processed_len,
        ).take(guard.slot()) == retained(vals, keep),
        spec_moved(
            buffer,
            guard.processed_len as int,
            guard.slot(),
            guard.initial_len - guard.processed_len,
        ).subrange(guard.slot(), guard.initial_len - guard.deleted_cnt) == initial.subrange(
            guard.processed_len as int,
            guard.initial_len as int,
        ),
{
    let moved = spec_moved(
        buffer,
        guard.processed_len as int,
        guard.slot(),
        guard.initial_len - guard.processed_len,
    );
    let kept = retained(vals, keep);
    let rest = initial.subrange(guard.processed_len as int, guard.initial_len as int);
    assert(kept.len() == guard.slot());
    assert forall|i: int| 0 <= i < guard.initial_len - guard.deleted_cnt implies moved[i] == (kept
        + rest)[i] by {
        if i < guard.slot() {
            assert(buffer.subrange(0, guard.slot())[i] == buffer[i]);
        } else {
            assert(buffer.subrange(
                guard.processed_len as int,
                guard.initial_len as int,
            )[i - guard.slot()] == buffer[i - guard.slot() + guard.processed_len]);
        }
    }
    assert(moved.take(guard.initial_len - guard.deleted_cnt) =~= kept + rest);
    assert(moved.take(guard.slot()) =~= (kept + rest).take(guard.slot()));
    assert((kept + rest).take(guard.slot()) =~= kept);
    assert(moved.subrange(guard.slot(), guard.initial_len - guard.deleted_cnt) =~= (kept
        + rest).subrange(guard.slot(), guard.initial_len - guard.deleted_cnt));
    assert((kept + rest).subrange(guard.slot(), guard.initial_len - guard.deleted_cnt) =~= rest);
}

/// One comparison of a pass that removes repeats: what the element looked
/// at and the last element kept before it held after the comparison, and
/// whether the two were judged the same.
pub struct Judgement<T> {
    /// What the element looked at held afterwards.
    pub cur: T,
    /// What the last element kept before it held afterwards.
    pub prev: T,
    /// Whether the two were judged the same, so that the element looked at
    /// goes.
    pub same: bool,
}

/// What is left of `vals` when each element from the second on is compared
/// with the last element kept before it and goes where the two are judged
/// the same. `trace` holds the comparisons in order, one for each element
/// but the first.
pub open spec fn deduped<T>(vals: Seq<T>, trace: Seq<Judgement<T>>) -> Seq<T>
    decreases vals.len(),
{
    if vals.len() <= 1 {
        vals
    } else {
        let front = deduped(vals.drop_last(), trace.drop_last());
        let settled = front.drop_last().push(trace.last().prev);
        if trace.last().same {
            settled
        } else {
            settled.push(trace.last().cur)
        }
    }
}

/// Something is always left of a sequence that is not empty, and never more
/// than there was.
pub proof fn lemma_deduped_len<T>(vals: Seq<T>, trace: Seq<Judgement<T>>)
    requires
        vals.len() > 0,
    ensures
        1 <= deduped(vals, trace).len() <= vals.len(),
    decreases vals.len(),
{
    if vals.len() > 1 {
        lemma_deduped_len(vals.drop_last(), trace.drop_last());
    }
}

/// One more comparison settles the last element kept and appends the element
/// looked at, unless the two were judged the same.
pub proof fn lemma_deduped_push<T>(
    vals: Seq<T>,
    trace: Seq<Judgement<T>>,
    val: T,
    judgement: Judgement<T>,
)
    requires
        vals.len() > 0,
    ensures
        deduped(vals.push(val), trace.push(judgement)) == if judgement.same {
            deduped(vals, trace).drop_last().push(judgement.prev)
        } else {
            deduped(vals, trace).drop_last().push(judgement.prev).push(judgement.cur)
        },
{
    assert(vals.push(val).drop_last() =~= vals);
    assert(trace.push(judgement).drop_last() =~= trace);
}

/// Whether `trace` holds the comparisons of a pass over `vals` that change
/// nothing and judge by the relation `same`: each element from the second on
/// is compared with the last element kept before it.
pub open spec fn judged_by<T>(
    vals: Seq<T>,
    trace: Seq<Judgement<T>>,
    same: spec_fn(T, T) -> bool,
) -> bool {
    &&& trace.len() + 1 == vals.len() || (trace.len() == 0 && vals.len() == 0)
    &&& forall|r: int|
        0 <= r < trace.len() ==> #[trigger] trace[r] == (Judgement {
            cur: vals[r + 1],
            prev: deduped(vals.take(r + 1), trace.take(r)).last(),
            same: same(vals[r + 1], deduped(vals.take(r + 1), trace.take(r)).last()),
        })
}

/// A pass whose comparisons change nothing leaves no element next to one
/// that it is judged the same as, keeps the first element, and keeps only
/// elements that were there.
pub proof fn lemma_deduped_no_repeats<T>(
    vals: Seq<T>,
    trace: Seq<Judgement<T>>,
    same: spec_fn(T, T) -> bool,
)
    requires
        judged_by(vals, trace, same),
    ensures
        forall|k: int|
            0 <= k < deduped(vals, trace).len() - 1 ==> !same(
                #[trigger] deduped(vals, trace)[k + 1],
                deduped(vals, trace)[k],
            ),
        vals.len() > 0 ==> deduped(vals, trace).len() > 0 && deduped(vals, trace)[0] == vals[0],
        forall|k: int|
            0 <= k < deduped(vals, trace).len() ==> vals.contains(#[trigger] deduped(vals, trace)[k]),
    decreases vals.len(),
{
    if vals.len() > 1 {
        let front_vals = vals.drop_last();
        let front_trace = trace.drop_last();
        assert(judged_by(front_vals, front_trace, same)) by {
            assert forall|r: int| 0 <= r < front_trace.len() implies #[trigger] front_trace[r] == (
            Judgement {
                cur: front_vals[r + 1],
                prev: deduped(front_vals.take(r + 1), front_trace.take(r)).last(),
                same: same(
                    front_vals[r + 1],
                    deduped(front_vals.take(r + 1), front_trace.take(r)).last(),
                ),
            }) by {
                assert(front_vals.take(r + 1) =~= vals.take(r + 1));
                assert(front_trace.take(r) =~= trace.take(r));
                assert(front_trace[r] == trace[r]);
            }
        }
        lemma_deduped_no_repeats(front_vals, front_trace, same);
        lemma_deduped_len(front_vals, front_trace);
        let front = deduped(front_vals, front_trace);
        let last = trace.len() - 1;
        assert(vals.take(last + 1) =~= front_vals);
        assert(trace.take(last) =~= front_trace);
        assert(trace[last].prev == front.last());
        assert(front.drop_last().push(front.last()) =~= front);
        assert forall|k: int| 0 <= k < deduped(vals, trace).len() implies vals.contains(
            #[trigger] deduped(vals, trace)[k],
        ) by {
            if k < front.len() {
                let i = choose|i: int| 0 <= i < front_vals.len() && front_vals[i] == front[k];
                assert(vals[i] == front[k]);
            } else {
                assert(vals[vals.len() - 1] == deduped(vals, trace)[k]);
            }
        }
    } else if vals.len() == 1 {
        assert(vals[0] == deduped(vals, trace)[0]);
    }
}

/// The cursors of a pass that removes repeats from a buffer in place.
///
/// In front of `write` lie the elements kept, from `read` on the elements
/// not yet looked at, and between the two a gap as wide as the number of
/// elements removed. Closing the gap is the last step of every pass, whether
/// it looked at every element or stopped early.
pub struct FillGap {
    /// The place of the element to look at next.
    pub read: usize,
    /// The place that the next element kept moves to.
    pub write: usize,
}

impl FillGap {
    /// The cursors are in order and lie inside the elements of the buffer.
    pub open spec fn fits<T>(&self, state: MemoryState<T>) -> bool {
        &&& state.aligned
        &&& 1 <= self.write <= self.read <= state.len <= state.capacity()
        &&& state.len <= usize::MAX
    }

    /// Starts a pass behind the first element, which is kept.
    pub fn begin() -> (guard: Self)
        ensures
            guard.read == 1,
            guard.write == 1,
    {
        FillGap { read: 1, write: 1 }
    }

    /// The element to look at next.
    pub fn current<T: Copy, A: Memory<T>>(&self, mem: &A) -> (value: T)
        requires
            self.fits(mem@),
            self.read < mem@.len,
        ensures
            value == mem@.buffer[self.read as int],
    {
        mem.as_slice()[self.read]
    }

    /// The last element kept.
    pub fn previous<T: Copy, A: Memory<T>>(&self, mem: &A) -> (value: T)
        requires
            self.fits(mem@),
        ensures
            value == mem@.buffer[self.write - 1],
    {
        mem.as_slice()[self.write - 1]
    }

    /// The element looked at stays as it is: it moves down to the front of
    /// the gap, where there is one.
    pub fn keep_current<T: Copy, A: Memory<T>>(&mut self, mem: &mut A)
        requires
            old(self).fits(old(mem)@),
            old(self).read < old(mem)@.len,
        ensures
            final(self).fits(final(mem)@),
            final(mem)@ == old(mem)@.with_buffer(
                old(mem)@.buffer.update(
                    old(self).write as int,
                    old(mem)@.buffer[old(self).read as int],
                ),
            ),
            final(self).read == old(self).read + 1,
            final(self).write == old(self).write + 1,
    {
        if self.write < self.read {
            let slice = mem.as_mut_slice();
            slice[self.write] = slice[self.read];
        } else {
            assert(mem@.buffer.update(self.write as int, mem@.buffer[self.read as int])
                =~= mem@.buffer);
        }
        self.write = self.write + 1;
        self.read = self.read + 1;
    }

    /// The element looked at goes as it is: the gap grows by one.
    pub fn skip_current(&mut self)
        requires
            old(self).read < usize::MAX,
        ensures
            final(self).read == old(self).read + 1,
            final(self).write == old(self).write,
    {
        self.read = self.read + 1;
    }

    /// Records a comparison that may have changed both elements: the last
    /// element kept holds `prev` from now on, and the element looked at
    /// goes, if `same`, or else moves to the front of the gap holding `cur`.
    pub fn settle<T: Copy, A: Memory<T>>(&mut self, mem: &mut A, cur: T, prev: T, same: bool)
        requires
            old(self).fits(old(mem)@),
            old(self).read < old(mem)@.len,
        ensures
            final(self).fits(final(mem)@),
            final(mem)@ == old(mem)@.with_buffer(
                if same {
                    old(mem)@.buffer.update(old(self).write - 1, prev)
                } else {
                    old(mem)@.buffer.update(old(self).write - 1, prev).update(
                        old(self).write as int,
                        cur,
                    )
                },
            ),
            final(self).read == old(self).read + 1,
            final(self).write == if same {
                old(self).write as int
            } else {
                old(self).write + 1
            },
    {
        let slice = mem.as_mut_slice();
        slice[self.write - 1] = prev;
        if !same {
            slice[self.write] = cur;
            self.write = self.write + 1;
        }
        self.read = self.read + 1;
    }

    /// Writes `prev` over the last element kept and `cur` over the element
    /// looked at, which stays among the elements not yet looked at.
    pub fn restore<T: Copy, A: Memory<T>>(&self, mem: &mut A, cur: T, prev: T)
        requires
            self.fits(old(mem)@),
            self.read < old(mem)@.len,
        ensures
            self.fits(final(mem)@),
            final(mem)@ == old(mem)@.with_buffer(
                old(mem)@.buffer.update(self.write - 1, prev).update(self.read as int, cur),
            ),
    {
        let slice = mem.as_mut_slice();
        slice[self.write - 1] = prev;
        slice[self.read] = cur;
    }

    /// Ends the pass: moves the elements not looked at down over the gap and
    /// stores the length, which is the length there was less the width of
    /// the gap.
    pub fn finish<T: Copy, A: Memory<T>>(self, mem: &mut A)
        requires
            self.fits(old(mem)@),
        ensures
            final(mem)@ == old(mem)@.with_buffer(
                spec_moved(
                    old(mem)@.buffer,
                    self.read as int,
                    self.write as int,
                    old(mem)@.len - self.read,
                ),
            ).with_len((old(mem)@.len - (self.read - self.write)) as nat),
            final(mem)@.bindable(),
    {
        let len: usize = mem.len();
        if self.write < self.read {
            let slice = mem.as_mut_slice();
            move_down(slice, self.read, self.write, len - self.read);
            mem.set_len(len - (self.read - self.write));
        } else {
            assert(spec_moved(
                mem@.buffer,
                self.read as int,
                self.write as int,
                mem@.len - self.read,
            ) =~= mem@.buffer);
        }
    }
}

/// How a buffer stands in the middle of a pass that removes repeats: in
/// front lie the elements kept, and from `read` on the elements not yet
/// looked at, where they were.
pub open spec fn fill_gap_holds<T>(
    buffer: Seq<T>,
    initial: Seq<T>,
    kept: Seq<T>,
    guard: FillGap,
) -> bool {
    &&& 1 <= guard.write <= guard.read <= initial.len() <= buffer.len()
    &&& kept.len() == guard.write
    &&& buffer.subrange(0, guard.write as int) == kept
    &&& buffer.subrange(guard.read as int, initial.len() as int) == initial.subrange(
        guard.read as int,
        initial.len() as int,
    )
}

/// Before the pass has looked at anything the buffer stands as the pass
/// needs it.
pub proof fn lemma_fill_gap_begin<T>(buffer: Seq<T>, len: nat, guard: FillGap)
    requires
        guard.read == 1,
        guard.write == 1,
        1 <= len <= buffer.len(),
    ensures
        fill_gap_holds(buffer, buffer.take(len as int), buffer.take(1), guard),
{
    assert(buffer.subrange(0, 1) =~= buffer.take(1));
    assert(buffer.subrange(1, len as int) =~= buffer.take(len as int).subrange(1, len as int));
}

/// Recording a comparison keeps the buffer as the pass needs it.
pub proof fn lemma_fill_gap_settle<T>(
    buffer: Seq<T>,
    initial: Seq<T>,
    kept: Seq<T>,
    guard: FillGap,
    cur: T,
    prev: T,
    same: bool,
    next: FillGap,
)
    requires
        fill_gap_holds(buffer, initial, kept, guard),
        guard.read < initial.len(),
        next.read == guard.read + 1,
        next.write == if same {
            guard.write as int
        } else {
            guard.write + 1
        },
    ensures
        same ==> fill_gap_holds(
            buffer.update(guard.write - 1, prev),
            initial,
            kept.drop_last().push(prev),
            next,
        ),
        !same ==> fill_gap_holds(
            buffer.update(guard.write - 1, prev).update(guard.write as int, cur),
            initial,
            kept.drop_last().push(prev).push(cur),
            next,
        ),
{
    let settled = buffer.update(guard.write - 1, prev);
    let after = if same {
        settled
    } else {
        settled.update(guard.write as int, cur)
    };
    assert forall|i: int| next.read <= i < initial.len() implies after[i] == initial[i] by {
        assert(buffer.subrange(guard.read as int, initial.len() as int)[i - guard.read]
            == buffer[i]);
    }
    assert(after.subrange(next.read as int, initial.len() as int) =~= initial.subrange(
        next.read as int,
        initial.len() as int,
    ));
    assert forall|i: int| 0 <= i < guard.write - 1 implies after[i] == kept[i] by {
        assert(buffer.subrange(0, guard.write as int)[i] == buffer[i]);
    }
    if same {
        assert(after.subrange(0, next.write as int) =~= kept.drop_last().push(prev));
    } else {
        assert(after.subrange(0, next.write as int) =~= kept.drop_last().push(prev).push(cur));
    }
}

/// Writing back the two elements of a comparison that failed keeps the
/// buffer as the pass needs it, for elements that held `cur` under the
/// cursor from the start.
pub proof fn lemma_fill_gap_restore<T>(
    buffer: Seq<T>,
    initial: Seq<T>,
    kept: Seq<T>,
    guard: FillGap,
    cur: T,
    prev: T,
)
    requires
        fill_gap_holds(buffer, initial, kept, guard),
        guard.read < initial.len(),
    ensures
        fill_gap_holds(
            buffer.update(guard.write - 1, prev).update(guard.read as int, cur),
            initial.update(guard.read as int, cur),
            kept.drop_last().push(prev),
            guard,
        ),
        initial.update(guard.read as int, cur).subrange(guard.read as int, initial.len() as int)
            == seq![cur] + initial.subrange(guard.read + 1, initial.len() as int),
{
    let after = buffer.update(guard.write - 1, prev).update(guard.read as int, cur);
    let changed = initial.update(guard.read as int, cur);
    assert forall|i: int| guard.read <= i < initial.len() implies after[i] == changed[i] by {
        assert(buffer.subrange(guard.read as int, initial.len() as int)[i - guard.read]
            == buffer[i]);
    }
    assert(after.subrange(guard.read as int, initial.len() as int) =~= changed.subrange(
        guard.read as int,
        initial.len() as int,
    ));
    assert forall|i: int| 0 <= i < guard.write - 1 implies after[i] == kept[i] by {
        assert(buffer.subrange(0, guard.write as int)[i] == buffer[i]);
    }
    assert(after.subrange(0, guard.write as int) =~= kept.drop_last().push(prev));
    assert(changed.subrange(guard.read as int, initial.len() as int) =~= seq![cur]
        + initial.subrange(guard.read + 1, initial.len() as int));
}

/// Once the gap is closed the vector holds the elements kept, followed by
/// the elements that the pass never looked at.
pub proof fn lemma_fill_gap_finish<T>(
    buffer: Seq<T>,
    initial: Seq<T>,
    kept: Seq<T>,
    guard: FillGap,
)
    requires
        fill_gap_holds(buffer, initial, kept, guard),
    ensures
        spec_moved(
            buffer,
            guard.read as int,
            guard.write as int,
            initial.len() - guard.read,
        ).take(initial.len() - (guard.read - guard.write)) == kept + initial.subrange(
            guard.read as int,
            initial.len() as int,
        ),
{
    let moved = spec_moved(
        buffer,
        guard.read as int,
        guard.write as int,
        initial.len() - guard.read,
    );
    let rest = initial.subrange(guard.read as int, initial.len() as int);
    assert forall|i: int| 0 <= i < initial.len() - (guard.read - guard.write) implies moved[i]
        == (kept + rest)[i] by {
        if i < guard.write {
            assert(buffer.subrange(0, guard.write as int)[i] == buffer[i]);
        } else {
            assert(buffer.subrange(guard.read as int, initial.len() as int)[i - guard.write]
                == buffer[i - guard.write + guard.read]);
        }
    }
    assert(moved.take(initial.len() - (guard.read - guard.write)) =~= kept + rest);
}

} // verus!
