//! The contract between a growable container and the buffer behind it.

use vstd::prelude::*;

verus! {

/// Why a memory capability could not be bound to an element type.
#[derive(Debug, Clone, Copy, PartialEq, Eq, Structural)]
pub enum MemoryConversionError {
    /// The region does not start on an element boundary, or does not end on one.
    AlignMismatch,
    /// The stored element count is larger than the number of elements the
    /// region holds.
    SizeMismatch,
}

/// What a memory capability holds, as mathematics.
pub struct MemoryState<T> {
    /// Every addressable element, in order. Its length is the capacity.
    pub buffer: Seq<T>,
    /// The stored element count.
    pub len: nat,
    /// Whether the region can be read as whole elements of `T`.
    pub aligned: bool,
}

impl<T> MemoryState<T> {
    /// The number of addressable elements.
    pub open spec fn capacity(self) -> nat {
        self.buffer.len()
    }

    /// The elements that count as content: the first `len` of the buffer.
    pub open spec fn content(self) -> Seq<T> {
        self.buffer.take(self.len as int)
    }

    /// The region can be read as elements and the stored count fits in it.
    pub open spec fn bindable(self) -> bool {
        self.aligned && self.len <= self.buffer.len()
    }

    /// The same region with another stored count.
    pub open spec fn with_len(self, len: nat) -> Self {
        MemoryState { len, ..self }
    }

    /// The same region with other elements.
    pub open spec fn with_buffer(self, buffer: Seq<T>) -> Self {
        MemoryState { buffer, ..self }
    }
}

/// A buffer of elements of `T` that tracks a stored element count apart from
/// its capacity and can be resized in place.
///
/// The container built on it is verified against the contracts below, for
/// every implementation that keeps them.
pub trait Memory<T: Copy>: Sized {
    /// What a failed resize reports.
    type Err;

    /// The state that the contracts speak of. A verified implementation defines
    /// it over its fields. An implementation written outside verified code
    /// cannot, and keeps this body. Such an implementation is not verified:
    /// what is proved of the container holds of it as far as its methods
    /// behave as the contracts below say of some state.
    open spec fn view(&self) -> MemoryState<T> {
        arbitrary()
    }

    /// Whether the region starts and ends on element boundaries.
    fn is_aligned(&self) -> (aligned: bool)
        ensures
            aligned == self@.aligned,
    ;

    /// The stored element count.
    fn len(&self) -> (len: usize)
        ensures
            len == self@.len,
    ;

    /// Stores another element count. The buffer is left as it is.
    fn set_len(&mut self, len: usize)
        ensures
            final(self)@ == old(self)@.with_len(len as nat),
    ;

    /// The whole buffer, spare capacity included.
    fn as_slice(&self) -> (slice: &[T])
        requires
            self@.aligned,
        ensures
            slice@ == self@.buffer,
    ;

    /// The whole buffer, spare capacity included, for writing.
    fn as_mut_slice(&mut self) -> (slice: &mut [T])
        requires
            old(self)@.aligned,
        ensures
            slice@ == old(self)@.buffer,
            final(self)@ == old(self)@.with_buffer(final(slice)@),
    ;

    /// Makes room for at least `capacity` elements. Nothing happens when there
    /// is room already. The elements already there keep their places. On
    /// failure the region is as it was.
    fn reserve(&mut self, capacity: usize) -> (result: Result<(), Self::Err>)
        ensures
            capacity <= old(self)@.capacity() ==> result is Ok && final(self)@ == old(self)@,
            result is Ok ==> {
                &&& final(self)@.capacity() >= capacity
                &&& final(self)@.capacity() >= old(self)@.capacity()
                &&& final(self)@.buffer.take(old(self)@.capacity() as int) == old(self)@.buffer
                &&& final(self)@.len == old(self)@.len
                &&& final(self)@.aligned == old(self)@.aligned
            },
            result is Err ==> final(self)@ == old(self)@,
    ;

    /// Gives back the room beyond `capacity` elements. Nothing happens when
    /// the region is no larger than that. The elements that remain keep their
    /// places. On failure the region is as it was.
    fn shrink(&mut self, capacity: usize) -> (result: Result<(), Self::Err>)
        requires
            old(self)@.len <= capacity,
        ensures
            old(self)@.capacity() <= capacity ==> result is Ok && final(self)@ == old(self)@,
            result is Ok && capacity < old(self)@.capacity() ==> final(self)@ == old(self)@.with_buffer(
                old(self)@.buffer.take(capacity as int),
            ),
            result is Err ==> final(self)@ == old(self)@,
    ;
}

} // verus!
