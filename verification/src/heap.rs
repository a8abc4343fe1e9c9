//! Memory capabilities that live on the heap.

use crate::memory::{Memory, MemoryState};
use core::convert::Infallible;
use vstd::prelude::*;

verus! {

/// An in-memory buffer with a stored element count. It grows to exactly the
/// capacity asked for and never fails to. Fresh capacity holds copies of one
/// filler value.
#[derive(Debug)]
pub struct HeapMemory<T> {
    data: Vec<T>,
    len: usize,
    fill: T,
}

impl<T: Copy> HeapMemory<T> {
    /// The filler value that fresh capacity holds.
    pub closed spec fn filler(&self) -> T {
        self.fill
    }

    /// An empty buffer.
    pub fn new(fill: T) -> (mem: Self)
        ensures
            mem@.buffer == Seq::<T>::empty(),
            mem@.len == 0,
            mem@.aligned,
            mem.filler() == fill,
    {
        HeapMemory { data: Vec::new(), len: 0, fill }
    }

    /// A buffer over the given elements with the given stored count, which is
    /// not checked against the number of elements.
    pub fn from_parts(data: Vec<T>, len: usize, fill: T) -> (mem: Self)
        ensures
            mem@.buffer == data@,
            mem@.len == len,
            mem@.aligned,
            mem.filler() == fill,
    {
        HeapMemory { data, len, fill }
    }
}

impl<T: Copy> Memory<T> for HeapMemory<T> {
    type Err = Infallible;

    closed spec fn view(&self) -> MemoryState<T> {
        MemoryState { buffer: self.data@, len: self.len as nat, aligned: true }
    }

    fn is_aligned(&self) -> (aligned: bool) {
        true
    }

    fn len(&self) -> (len: usize) {
        self.len
    }

    fn set_len(&mut self, len: usize)
        ensures
            final(self).filler() == old(self).filler(),
    {
        self.len = len;
    }

    fn as_slice(&self) -> (slice: &[T]) {
        self.data.as_slice()
    }

    fn as_mut_slice(&mut self) -> (slice: &mut [T])
        ensures
            final(self).filler() == old(self).filler(),
    {
        self.data.as_mut_slice()
    }

    fn reserve(&mut self, capacity: usize) -> (result: Result<(), Infallible>)
        ensures
            result is Ok,
            old(self)@.capacity() < capacity ==> {
                &&& final(self)@.capacity() == capacity
                &&& forall|i: int|
                    old(self)@.capacity() <= i < capacity ==> final(self)@.buffer[i] == old(
                        self,
                    ).filler()
            },
            final(self).filler() == old(self).filler(),
    {
        if capacity <= self.data.len() {
            return Ok(());
        }
        let ghost before = self.data@;
        while self.data.len() < capacity
            invariant
                before.len() <= self.data.len() <= capacity,
                self.data@.take(before.len() as int) == before,
                forall|i: int| before.len() <= i < self.data.len() ==> self.data@[i] == self.fill,
                self.len == old(self).len,
                self.fill == old(self).fill,
            decreases capacity - self.data.len(),
        {
            self.data.push(self.fill);
        }
        Ok(())
    }

    fn shrink(&mut self, capacity: usize) -> (result: Result<(), Infallible>)
        ensures
            result is Ok,
            final(self).filler() == old(self).filler(),
    {
        if capacity < self.data.len() {
            self.data.truncate(capacity);
        }
        Ok(())
    }
}

/// A request for more room than a [`BoundedMemory`] may take.
#[derive(Debug, Clone, Copy, PartialEq, Eq, Structural)]
pub struct LimitExceeded {
    /// The capacity that was asked for.
    pub requested: usize,
    /// The largest capacity the buffer may have.
    pub limit: usize,
}

/// An in-memory buffer that refuses to grow beyond `LIMIT` elements and
/// otherwise is a [`HeapMemory`].
#[derive(Debug)]
pub struct BoundedMemory<T, const LIMIT: usize> {
    heap: HeapMemory<T>,
}

impl<T: Copy, const LIMIT: usize> BoundedMemory<T, LIMIT> {
    /// The filler value that fresh capacity holds.
    pub closed spec fn filler(&self) -> T {
        self.heap.filler()
    }

    /// An empty buffer.
    pub fn new(fill: T) -> (mem: Self)
        ensures
            mem@.buffer == Seq::<T>::empty(),
            mem@.len == 0,
            mem@.aligned,
            mem.filler() == fill,
    {
        BoundedMemory { heap: HeapMemory::new(fill) }
    }
}

impl<T: Copy, const LIMIT: usize> Memory<T> for BoundedMemory<T, LIMIT> {
    type Err = LimitExceeded;

    closed spec fn view(&self) -> MemoryState<T> {
        self.heap@
    }

    fn is_aligned(&self) -> (aligned: bool) {
        self.heap.is_aligned()
    }

    fn len(&self) -> (len: usize) {
        self.heap.len()
    }

    fn set_len(&mut self, len: usize)
        ensures
            final(self).filler() == old(self).filler(),
    {
        self.heap.set_len(len);
    }

    fn as_slice(&self) -> (slice: &[T]) {
        self.heap.as_slice()
    }

    fn as_mut_slice(&mut self) -> (slice: &mut [T])
        ensures
            final(self).filler() == old(self).filler(),
    {
        self.heap.as_mut_slice()
    }

    fn reserve(&mut self, capacity: usize) -> (result: Result<(), LimitExceeded>)
        ensures
            result is Err <==> old(self)@.capacity() < capacity && LIMIT < capacity,
            result is Err ==> result == Err::<(), LimitExceeded>(
                LimitExceeded { requested: capacity, limit: LIMIT },
            ),
            result is Ok && old(self)@.capacity() < capacity ==> {
                &&& final(self)@.capacity() == capacity
                &&& forall|i: int|
                    old(self)@.capacity() <= i < capacity ==> final(self)@.buffer[i] == old(
                        self,
                    ).filler()
            },
            final(self).filler() == old(self).filler(),
    {
        if capacity > self.heap.as_slice().len() && capacity > LIMIT {
            return Err(LimitExceeded { requested: capacity, limit: LIMIT });
        }
        let _grown: Result<(), Infallible> = self.heap.reserve(capacity);
        Ok(())
    }

    fn shrink(&mut self, capacity: usize) -> (result: Result<(), LimitExceeded>)
        ensures
            result is Ok,
            final(self).filler() == old(self).filler(),
    {
        let _shrunk: Result<(), Infallible> = self.heap.shrink(capacity);
        Ok(())
    }
}

} // verus!
