//! Moving runs of elements inside a buffer.

use vstd::prelude::*;

verus! {

/// What a buffer holds after `count` elements from `src` on were copied to the
/// places from `dst` on.
pub open spec fn spec_moved<T>(buffer: Seq<T>, src: int, dst: int, count: int) -> Seq<T> {
    Seq::new(
        buffer.len(),
        |i: int|
            if dst <= i < dst + count {
                buffer[i - dst + src]
            } else {
                buffer[i]
            },
    )
}

/// Copies `count` elements from `src` on to the places from `dst` on, which
/// start no higher. The two ranges may overlap.
pub fn move_down<T: Copy>(slice: &mut [T], src: usize, dst: usize, count: usize)
    requires
        dst <= src,
        src + count <= old(slice)@.len(),
    ensures
        final(slice)@ == spec_moved(old(slice)@, src as int, dst as int, count as int),
{
    let total: usize = slice.len();
    let mut done: usize = 0;
    while done < count
        invariant
            dst <= src,
            src + count <= total == old(slice)@.len(),
            done <= count,
            slice@.len() == old(slice)@.len(),
            forall|i: int|
                0 <= i < slice@.len() ==> slice@[i] == if dst <= i < dst + done {
                    old(slice)@[i - dst + src]
                } else {
                    old(slice)@[i]
                },
        decreases count - done,
    {
        slice[dst + done] = slice[src + done];
        done = done + 1;
    }
    assert(slice@ =~= spec_moved(old(slice)@, src as int, dst as int, count as int));
}

/// Moves the elements from `from` up to, not including, `to` one place up.
pub fn move_up<T: Copy>(slice: &mut [T], from: usize, to: usize)
    requires
        from <= to < old(slice)@.len(),
    ensures
        final(slice)@ == spec_moved(old(slice)@, from as int, from + 1, to - from),
{
    let mut at: usize = to;
    while at > from
        invariant
            from <= at <= to < old(slice)@.len(),
            slice@.len() == old(slice)@.len(),
            forall|i: int|
                0 <= i < slice@.len() ==> slice@[i] == if at < i <= to {
                    old(slice)@[i - 1]
                } else {
                    old(slice)@[i]
                },
        decreases at - from,
    {
        slice[at] = slice[at - 1];
        at = at - 1;
    }
    assert(slice@ =~= spec_moved(old(slice)@, from as int, from + 1, to - from));
}

} // verus!
