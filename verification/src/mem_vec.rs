//! The growable container.

use crate::growth::{amortized_capacity, spec_amortized_capacity, spec_needs_to_grow};
use crate::memory::{Memory, MemoryConversionError, MemoryState};
use crate::shift::{move_down, move_up, spec_moved};
use core::marker::PhantomData;
use vstd::prelude::*;
use vstd::slice::slice_subrange;

verus! {

/// A growable array that keeps its elements, its length and its capacity in a
/// memory capability. It has no state of its own.
#[derive(Debug)]
pub struct MemVec<'a, T: Copy, A: 'a + Memory<T>> {
    pub(crate) mem: A,
    pub(crate) _marker: PhantomData<&'a T>,
}

impl<'a, T: Copy, A: 'a + Memory<T>> View for MemVec<'a, T, A> {
    type V = Seq<T>;

    /// The elements of the vector: the first `len` elements of the buffer.
    open spec fn view(&self) -> Seq<T> {
        self.state().content()
    }
}

impl<'a, T: Copy, A: 'a + Memory<T>> MemVec<'a, T, A> {
    /// The memory capability behind the vector.
    pub open(crate) spec fn memory(&self) -> A {
        self.mem
    }

    /// What the memory capability holds.
    pub open spec fn state(&self) -> MemoryState<T> {
        self.memory()@
    }

    /// The invariant of the vector: its memory can be read as elements and the
    /// length does not exceed the capacity.
    pub open spec fn wf(&self) -> bool {
        self.state().bindable()
    }

    /// The number of elements the buffer has room for.
    pub open spec fn spec_capacity(&self) -> nat {
        self.state().capacity()
    }

    /// Binds a memory capability to the element type. The alignment is checked
    /// first, then the stored length against the capacity. On failure the
    /// capability comes back untouched with the reason.
    pub fn try_from_memory(mem: A) -> (result: Result<Self, (A, MemoryConversionError)>)
        ensures
            match result {
                Ok(vec) => {
                    &&& mem@.bindable()
                    &&& vec.memory() == mem
                    &&& vec.wf()
                    &&& vec@ == mem@.content()
                },
                Err((back, error)) => {
                    &&& back == mem
                    &&& !mem@.bindable()
                    &&& error == if mem@.aligned {
                        MemoryConversionError::SizeMismatch
                    } else {
                        MemoryConversionError::AlignMismatch
                    }
                },
            },
    {
        if !mem.is_aligned() {
            return Err((mem, MemoryConversionError::AlignMismatch));
        }
        if mem.len() > mem.as_slice().len() {
            return Err((mem, MemoryConversionError::SizeMismatch));
        }
        Ok(MemVec { mem, _marker: PhantomData })
    }

    /// Gives the memory capability back. Its stored length and buffer are
    /// those of the vector, so that binding it again gives a vector of the
    /// same elements.
    pub fn into_mem(self) -> (mem: A)
        ensures
            mem == self.memory(),
            mem@.content() == self@,
            self.wf() ==> mem@.bindable(),
    {
        self.mem
    }

    /// The memory capability behind the vector.
    pub fn as_mem(&self) -> (mem: &A)
        ensures
            *mem == self.memory(),
    {
        &self.mem
    }

    /// The memory capability behind the vector, for changing it. Whoever
    /// changes it answers for the invariant.
    pub fn as_mem_mut(&mut self) -> (mem: &mut A)
        ensures
            *mem == old(self).memory(),
            final(self).memory() == *final(mem),
    {
        &mut self.mem
    }

    /// The number of elements the buffer has room for.
    pub fn capacity(&self) -> (capacity: usize)
        requires
            self.wf(),
        ensures
            capacity == self.spec_capacity(),
    {
        self.mem.as_slice().len()
    }

    /// The number of elements in the vector.
    pub fn len(&self) -> (len: usize)
        ensures
            len == self.state().len,
            self.wf() ==> len == self@.len(),
    {
        self.mem.len()
    }

    /// Whether the vector holds no element.
    pub fn is_empty(&self) -> (empty: bool)
        ensures
            empty == (self.state().len == 0),
            self.wf() ==> empty == (self@.len() == 0),
    {
        self.mem.len() == 0
    }

    /// The whole buffer: the elements of the vector and, behind them, the
    /// spare capacity.
    pub fn as_slice(&self) -> (slice: &[T])
        requires
            self.wf(),
        ensures
            slice@ == self.state().buffer,
            slice@.take(self@.len() as int) == self@,
    {
        self.mem.as_slice()
    }

    /// The whole buffer, for writing: the elements of the vector and, behind
    /// them, the spare capacity. What is written becomes the buffer.
    pub fn as_mut_slice(&mut self) -> (slice: &mut [T])
        requires
            old(self).wf(),
        ensures
            slice@ == old(self).state().buffer,
            final(self).state() == old(self).state().with_buffer(final(slice)@),
    {
        self.mem.as_mut_slice()
    }

    /// The elements of the vector.
    pub fn deref(&self) -> (elements: &[T])
        requires
            self.wf(),
        ensures
            elements@ == self@,
    {
        let len: usize = self.mem.len();
        slice_subrange(self.mem.as_slice(), 0, len)
    }

    /// The elements of the vector, for writing. What is written becomes the
    /// elements. The spare capacity is out of reach.
    pub fn deref_mut(&mut self) -> (elements: &mut [T])
        requires
            old(self).wf(),
        ensures
            elements@ == old(self)@,
            final(self).state() == old(self).state().with_buffer(
                final(elements)@ + old(self).state().buffer.skip(old(self)@.len() as int),
            ),
    {
        let len: usize = self.mem.len();
        let (front, _) = self.mem.as_mut_slice().split_at_mut(len);
        front
    }

    /// The spare capacity: the part of the buffer behind the elements, for
    /// writing. What is written there becomes part of the vector once the
    /// length is set to cover it.
    pub fn spare_capacity_mut(&mut self) -> (spare: &mut [T])
        requires
            old(self).wf(),
        ensures
            spare@ == old(self).state().buffer.skip(old(self)@.len() as int),
            final(self).state() == old(self).state().with_buffer(old(self)@ + final(spare)@),
    {
        let len: usize = self.mem.len();
        let (_, spare) = self.mem.as_mut_slice().split_at_mut(len);
        spare
    }

    /// Sets the length without looking at the elements: the first `len`
    /// elements of the buffer, whatever they hold, become the vector.
    pub fn set_len(&mut self, len: usize)
        requires
            old(self).wf(),
            len <= old(self).spec_capacity(),
        ensures
            final(self).wf(),
            final(self).state() == old(self).state().with_len(len as nat),
            final(self)@ == old(self).state().buffer.take(len as int),
    {
        self.mem.set_len(len);
    }

    /// Keeps the first `len` elements and drops the rest. Does nothing when
    /// the vector holds no more than `len` elements. The capacity stays.
    pub fn truncate(&mut self, len: usize)
        requires
            old(self).wf(),
        ensures
            final(self).wf(),
            len >= old(self)@.len() ==> final(self).state() == old(self).state(),
            len < old(self)@.len() ==> final(self).state() == old(self).state().with_len(
                len as nat,
            ),
            len >= old(self)@.len() ==> final(self)@ == old(self)@,
            len < old(self)@.len() ==> final(self)@ == old(self)@.take(len as int),
    {
        if len > self.mem.len() {
            return ;
        }
        self.mem.set_len(len);
    }

    /// Drops every element. The capacity stays.
    pub fn clear(&mut self)
        requires
            old(self).wf(),
        ensures
            final(self).wf(),
            final(self).state() == old(self).state().with_len(0),
            final(self)@ == Seq::<T>::empty(),
    {
        self.truncate(0)
    }

    /// Takes the last element off, or returns `None` when there is none.
    pub fn pop(&mut self) -> (popped: Option<T>)
        requires
            old(self).wf(),
        ensures
            final(self).wf(),
            old(self)@.len() == 0 ==> popped is None && final(self).state() == old(self).state(),
            old(self)@.len() > 0 ==> {
                &&& popped == Some(old(self)@.last())
                &&& final(self)@ == old(self)@.drop_last()
                &&& final(self).state() == old(self).state().with_len(
                    (old(self)@.len() - 1) as nat,
                )
            },
    {
        let len: usize = self.mem.len();
        if len == 0 {
            None
        } else {
            self.mem.set_len(len - 1);
            Some(self.mem.as_slice()[len - 1])
        }
    }

    /// Whether `additional` elements behind the first `len` need more room
    /// than the buffer has.
    fn needs_to_grow(&self, len: usize, additional: usize) -> (needed: bool)
        requires
            self.wf(),
            len <= self.spec_capacity(),
        ensures
            needed == spec_needs_to_grow(self.spec_capacity(), len as nat, additional as nat),
    {
        additional > self.capacity() - len
    }

    /// Grows the buffer for `len + additional` elements, to at least twice
    /// its capacity: asks the memory to reserve the capacity that amortized
    /// growth asks for and hands on what the memory answers. Where that
    /// capacity is there already, nothing is touched and the answer is `Ok`.
    fn grow_amortized(&mut self, len: usize, additional: usize) -> (result: Result<(), A::Err>)
        requires
            old(self).wf(),
            len + additional <= usize::MAX,
        ensures
            final(self).wf(),
            final(self)@ == old(self)@,
            exists|handed: &mut A, capacity: usize|
                #![trigger call_ensures(A::reserve, (handed, capacity), result)]
                {
                    &&& *handed == old(self).memory()
                    &&& *final(handed) == final(self).memory()
                    &&& capacity == spec_amortized_capacity(
                        old(self).spec_capacity(),
                        (len + additional) as nat,
                        vstd::layout::size_of::<T>(),
                    )
                    &&& call_ensures(A::reserve, (handed, capacity), result)
                },
            spec_amortized_capacity(
                old(self).spec_capacity(),
                (len + additional) as nat,
                vstd::layout::size_of::<T>(),
            ) <= old(self).spec_capacity() ==> result is Ok && final(self).state() == old(
                self,
            ).state(),
            match result {
                Ok(_) => {
                    &&& final(self).spec_capacity() >= spec_amortized_capacity(
                        old(self).spec_capacity(),
                        (len + additional) as nat,
                        vstd::layout::size_of::<T>(),
                    )
                    &&& final(self).state().buffer.take(old(self).spec_capacity() as int) == old(
                        self,
                    ).state().buffer
                    &&& final(self).state().len == old(self).state().len
                },
                Err(_) => final(self).state() == old(self).state(),
            },
    {
        let required_cap: usize = len + additional;
        let cap: usize = amortized_capacity(
            self.capacity(),
            required_cap,
            core::mem::size_of::<T>(),
        );
        let result = self.mem.reserve(cap);
        proof {
            if result is Ok {
                lemma_take_of_take(
                    self.state().buffer,
                    old(self).state().buffer,
                    old(self).state().len,
                );
            }
        }
        result
    }

    /// Grows the buffer for exactly `len + additional` elements: asks the
    /// memory to reserve that capacity and hands on what the memory answers.
    /// Where that capacity is there already, nothing is touched and the
    /// answer is `Ok`.
    fn grow_exact(&mut self, len: usize, additional: usize) -> (result: Result<(), A::Err>)
        requires
            old(self).wf(),
            len + additional <= usize::MAX,
        ensures
            final(self).wf(),
            final(self)@ == old(self)@,
            exists|handed: &mut A, capacity: usize|
                #![trigger call_ensures(A::reserve, (handed, capacity), result)]
                {
                    &&& *handed == old(self).memory()
                    &&& *final(handed) == final(self).memory()
                    &&& capacity == len + additional
                    &&& call_ensures(A::reserve, (handed, capacity), result)
                },
            len + additional <= old(self).spec_capacity() ==> result is Ok && final(self).state()
                == old(self).state(),
            match result {
                Ok(_) => {
                    &&& final(self).spec_capacity() >= len + additional
                    &&& final(self).spec_capacity() >= old(self).spec_capacity()
                    &&& final(self).state().buffer.take(old(self).spec_capacity() as int) == old(
                        self,
                    ).state().buffer
                    &&& final(self).state().len == old(self).state().len
                },
                Err(_) => final(self).state() == old(self).state(),
            },
    {
        let cap: usize = len + additional;
        let result = self.mem.reserve(cap);
        proof {
            if result is Ok {
                lemma_take_of_take(
                    self.state().buffer,
                    old(self).state().buffer,
                    old(self).state().len,
                );
            }
        }
        result
    }

    /// Makes room for one more element behind the first `len`, growing the
    /// buffer to at least twice its capacity: asks the memory to reserve the
    /// capacity that amortized growth asks for and hands on what the memory
    /// answers. Where that capacity is there already, nothing is touched and
    /// the answer is `Ok`.
    pub fn reserve_for_push(&mut self, len: usize) -> (result: Result<(), A::Err>)
        requires
            old(self).wf(),
            len < usize::MAX,
        ensures
            final(self).wf(),
            final(self)@ == old(self)@,
            exists|handed: &mut A, capacity: usize|
                #![trigger call_ensures(A::reserve, (handed, capacity), result)]
                {
                    &&& *handed == old(self).memory()
                    &&& *final(handed) == final(self).memory()
                    &&& capacity == spec_amortized_capacity(
                        old(self).spec_capacity(),
                        (len + 1) as nat,
                        vstd::layout::size_of::<T>(),
                    )
                    &&& call_ensures(A::reserve, (handed, capacity), result)
                },
            spec_amortized_capacity(
                old(self).spec_capacity(),
                (len + 1) as nat,
                vstd::layout::size_of::<T>(),
            ) <= old(self).spec_capacity() ==> result is Ok && final(self).state() == old(
                self,
            ).state(),
            match result {
                Ok(_) => {
                    &&& final(self).spec_capacity() >= spec_amortized_capacity(
                        old(self).spec_capacity(),
                        (len + 1) as nat,
                        vstd::layout::size_of::<T>(),
                    )
                    &&& final(self).spec_capacity() > len
                    &&& final(self).state().buffer.take(old(self).spec_capacity() as int) == old(
                        self,
                    ).state().buffer
                },
                Err(_) => final(self).state() == old(self).state(),
            },
    {
        self.grow_amortized(len, 1)
    }

    /// Makes room for `additional` more elements. When the buffer has to grow,
    /// it grows to at least twice its capacity: the memory is asked once to
    /// reserve the capacity that amortized growth asks for, and its answer is
    /// handed on. The elements stay as they are. Succeeds without touching
    /// the buffer when there is room already. On failure nothing has changed.
    pub fn try_reserve(&mut self, additional: usize) -> (result: Result<(), A::Err>)
        requires
            old(self).wf(),
            old(self)@.len() + additional <= usize::MAX,
        ensures
            final(self).wf(),
            final(self)@ == old(self)@,
            !spec_needs_to_grow(old(self).spec_capacity(), old(self)@.len(), additional as nat)
                ==> result is Ok && final(self).memory() == old(self).memory(),
            spec_needs_to_grow(old(self).spec_capacity(), old(self)@.len(), additional as nat)
                ==> exists|handed: &mut A, capacity: usize|
                #![trigger call_ensures(A::reserve, (handed, capacity), result)]
                {
                    &&& *handed == old(self).memory()
                    &&& *final(handed) == final(self).memory()
                    &&& capacity == spec_amortized_capacity(
                        old(self).spec_capacity(),
                        old(self)@.len() + additional as nat,
                        vstd::layout::size_of::<T>(),
                    )
                    &&& call_ensures(A::reserve, (handed, capacity), result)
                },
            match result {
                Ok(_) => {
                    &&& final(self).spec_capacity() >= old(self)@.len() + additional
                    &&& final(self).spec_capacity() >= old(self).spec_capacity()
                    &&& spec_needs_to_grow(
                        old(self).spec_capacity(),
                        old(self)@.len(),
                        additional as nat,
                    ) ==> final(self).spec_capacity() >= spec_amortized_capacity(
                        old(self).spec_capacity(),
                        old(self)@.len() + additional as nat,
                        vstd::layout::size_of::<T>(),
                    )
                    &&& final(self).state().buffer.take(old(self).spec_capacity() as int) == old(
                        self,
                    ).state().buffer
                },
                Err(_) => final(self).state() == old(self).state(),
            },
    {
        let len: usize = self.len();
        if self.needs_to_grow(len, additional) {
            self.grow_amortized(len, additional)
        } else {
            assert(self.state().buffer.take(self.spec_capacity() as int) =~= self.state().buffer);
            Ok(())
        }
    }

    /// Makes room for `additional` more elements, as [`MemVec::try_reserve`]
    /// does.
    pub fn reserve(&mut self, additional: usize) -> (result: Result<(), A::Err>)
        requires
            old(self).wf(),
            old(self)@.len() + additional <= usize::MAX,
        ensures
            final(self).wf(),
            final(self)@ == old(self)@,
            !spec_needs_to_grow(old(self).spec_capacity(), old(self)@.len(), additional as nat)
                ==> result is Ok && final(self).memory() == old(self).memory(),
            spec_needs_to_grow(old(self).spec_capacity(), old(self)@.len(), additional as nat)
                ==> exists|handed: &mut A, capacity: usize|
                #![trigger call_ensures(A::reserve, (handed, capacity), result)]
                {
                    &&& *handed == old(self).memory()
                    &&& *final(handed) == final(self).memory()
                    &&& capacity == spec_amortized_capacity(
                        old(self).spec_capacity(),
                        old(self)@.len() + additional as nat,
                        vstd::layout::size_of::<T>(),
                    )
                    &&& call_ensures(A::reserve, (handed, capacity), result)
                },
            match result {
                Ok(_) => {
                    &&& final(self).spec_capacity() >= old(self)@.len() + additional
                    &&& final(self).spec_capacity() >= old(self).spec_capacity()
                    &&& spec_needs_to_grow(
                        old(self).spec_capacity(),
                        old(self)@.len(),
                        additional as nat,
                    ) ==> final(self).spec_capacity() >= spec_amortized_capacity(
                        old(self).spec_capacity(),
                        old(self)@.len() + additional as nat,
                        vstd::layout::size_of::<T>(),
                    )
                    &&& final(self).state().buffer.take(old(self).spec_capacity() as int) == old(
                        self,
                    ).state().buffer
                },
                Err(_) => final(self).state() == old(self).state(),
            },
    {
        self.try_reserve(additional)
    }

    /// Makes room for `additional` more elements and asks for no more than
    /// that: when the buffer has to grow, the memory is asked once to reserve
    /// the length plus `additional`, and its answer is handed on. The
    /// elements stay as they are. Succeeds without touching the buffer when
    /// there is room already. On failure nothing has changed.
    pub fn try_reserve_exact(&mut self, additional: usize) -> (result: Result<(), A::Err>)
        requires
            old(self).wf(),
            old(self)@.len() + additional <= usize::MAX,
        ensures
            final(self).wf(),
            final(self)@ == old(self)@,
            !spec_needs_to_grow(old(self).spec_capacity(), old(self)@.len(), additional as nat)
                ==> result is Ok && final(self).memory() == old(self).memory(),
            spec_needs_to_grow(old(self).spec_capacity(), old(self)@.len(), additional as nat)
                ==> exists|handed: &mut A, capacity: usize|
                #![trigger call_ensures(A::reserve, (handed, capacity), result)]
                {
                    &&& *handed == old(self).memory()
                    &&& *final(handed) == final(self).memory()
                    &&& capacity == old(self)@.len() + additional
                    &&& call_ensures(A::reserve, (handed, capacity), result)
                },
            match result {
                Ok(_) => {
                    &&& final(self).spec_capacity() >= old(self)@.len() + additional
                    &&& final(self).spec_capacity() >= old(self).spec_capacity()
                    &&& final(self).state().buffer.take(old(self).spec_capacity() as int) == old(
                        self,
                    ).state().buffer
                },
                Err(_) => final(self).state() == old(self).state(),
            },
    {
        let len: usize = self.len();
        if self.needs_to_grow(len, additional) {
            self.grow_exact(len, additional)
        } else {
            assert(self.state().buffer.take(self.spec_capacity() as int) =~= self.state().buffer);
            Ok(())
        }
    }

    /// Makes room for `additional` more elements, as
    /// [`MemVec::try_reserve_exact`] does.
    pub fn reserve_exact(&mut self, additional: usize) -> (result: Result<(), A::Err>)
        requires
            old(self).wf(),
            old(self)@.len() + additional <= usize::MAX,
        ensures
            final(self).wf(),
            final(self)@ == old(self)@,
            !spec_needs_to_grow(old(self).spec_capacity(), old(self)@.len(), additional as nat)
                ==> result is Ok && final(self).memory() == old(self).memory(),
            spec_needs_to_grow(old(self).spec_capacity(), old(self)@.len(), additional as nat)
                ==> exists|handed: &mut A, capacity: usize|
                #![trigger call_ensures(A::reserve, (handed, capacity), result)]
                {
                    &&& *handed == old(self).memory()
                    &&& *final(handed) == final(self).memory()
                    &&& capacity == old(self)@.len() + additional
                    &&& call_ensures(A::reserve, (handed, capacity), result)
                },
            match result {
                Ok(_) => {
                    &&& final(self).spec_capacity() >= old(self)@.len() + additional
                    &&& final(self).spec_capacity() >= old(self).spec_capacity()
                    &&& final(self).state().buffer.take(old(self).spec_capacity() as int) == old(
                        self,
                    ).state().buffer
                },
                Err(_) => final(self).state() == old(self).state(),
            },
    {
        self.try_reserve_exact(additional)
    }

    /// Gives back all spare capacity: afterwards the capacity is the length.
    /// Where there is spare capacity the memory is asked once to shrink to
    /// the length, and its answer is handed on. Succeeds without touching
    /// the memory when there is no spare capacity. On failure nothing has
    /// changed.
    pub fn shrink_to_fit(&mut self) -> (result: Result<(), A::Err>)
        requires
            old(self).wf(),
        ensures
            final(self).wf(),
            final(self)@ == old(self)@,
            old(self).spec_capacity() == old(self)@.len() ==> result is Ok && final(self).memory()
                == old(self).memory(),
            old(self).spec_capacity() > old(self)@.len() ==> exists|
                handed: &mut A,
                capacity: usize,
            |
                #![trigger call_ensures(A::shrink, (handed, capacity), result)]
                {
                    &&& *handed == old(self).memory()
                    &&& *final(handed) == final(self).memory()
                    &&& capacity == old(self)@.len()
                    &&& call_ensures(A::shrink, (handed, capacity), result)
                },
            match result {
                Ok(_) => {
                    &&& final(self).spec_capacity() == final(self)@.len()
                    &&& final(self).state() == old(self).state().with_buffer(old(self)@)
                },
                Err(_) => final(self).state() == old(self).state(),
            },
    {
        let len: usize = self.len();
        if self.capacity() > len {
            self.mem.shrink(len)
        } else {
            assert(self.state().buffer.take(len as int) =~= self.state().buffer);
            Ok(())
        }
    }

    /// Gives back the spare capacity beyond `min_capacity` elements, and never
    /// any element: afterwards the capacity is the smaller of what it was and
    /// the larger of `min_capacity` and the length. Where the capacity is
    /// more than `min_capacity` the memory is asked once to shrink to the
    /// larger of `min_capacity` and the length, and its answer is handed on.
    /// Succeeds without touching the memory when the capacity is no more
    /// than `min_capacity`. On failure nothing has changed.
    pub fn shrink_to(&mut self, min_capacity: usize) -> (result: Result<(), A::Err>)
        requires
            old(self).wf(),
        ensures
            final(self).wf(),
            final(self)@ == old(self)@,
            old(self).spec_capacity() <= min_capacity ==> result is Ok && final(self).memory()
                == old(self).memory(),
            old(self).spec_capacity() > min_capacity ==> exists|handed: &mut A, capacity: usize|
                #![trigger call_ensures(A::shrink, (handed, capacity), result)]
                {
                    &&& *handed == old(self).memory()
                    &&& *final(handed) == final(self).memory()
                    &&& capacity == if old(self)@.len() >= min_capacity {
                        old(self)@.len()
                    } else {
                        min_capacity as nat
                    }
                    &&& call_ensures(A::shrink, (handed, capacity), result)
                },
            match result {
                Ok(_) => final(self).state() == old(self).state().with_buffer(
                    old(self).state().buffer.take(
                        spec_shrink_target(
                            old(self).spec_capacity(),
                            old(self)@.len(),
                            min_capacity as nat,
                        ) as int,
                    ),
                ),
                Err(_) => final(self).state() == old(self).state(),
            },
    {
        let len: usize = self.len();
        let capacity: usize = self.capacity();
        if capacity > min_capacity {
            let target: usize = if len >= min_capacity {
                len
            } else {
                min_capacity
            };
            let result = self.mem.shrink(target);
            proof {
                if result is Ok {
                    if target < capacity {
                        assert(self.state().buffer.take(len as int) =~= old(
                            self,
                        ).state().buffer.take(len as int));
                    }
                }
                assert(old(self).state().buffer.take(capacity as int) =~= old(
                    self,
                ).state().buffer);
            }
            result
        } else {
            assert(self.state().buffer.take(capacity as int) =~= self.state().buffer);
            Ok(())
        }
    }

    /// Appends an element. While there is room the buffer is written to and
    /// nothing else happens. When the buffer is full it first grows to at
    /// least twice its capacity, which then exceeds the length that made it
    /// grow: the memory is asked once to reserve the capacity that amortized
    /// growth asks for, and the element is written into the memory as that
    /// call left it. The only way to fail is that the memory fails to
    /// reserve: then its failure is handed on and nothing else has happened.
    pub fn push(&mut self, value: T) -> (result: Result<(), A::Err>)
        requires
            old(self).wf(),
            old(self)@.len() < usize::MAX,
        ensures
            final(self).wf(),
            old(self)@.len() < old(self).spec_capacity() ==> result is Ok,
            old(self)@.len() == old(self).spec_capacity() ==> exists|
                handed: &mut A,
                capacity: usize,
            |
                #![trigger call_ensures(A::reserve, (handed, capacity), result)]
                {
                    &&& *handed == old(self).memory()
                    &&& capacity == spec_amortized_capacity(
                        old(self).spec_capacity(),
                        old(self)@.len() + 1,
                        vstd::layout::size_of::<T>(),
                    )
                    &&& call_ensures(A::reserve, (handed, capacity), result)
                    &&& match result {
                        Ok(_) => final(self).state() == (*final(handed))@.with_buffer(
                            (*final(handed))@.buffer.update(old(self)@.len() as int, value),
                        ).with_len(old(self)@.len() + 1),
                        Err(_) => final(self).memory() == *final(handed),
                    }
                },
            match result {
                Ok(_) => {
                    &&& final(self)@ == old(self)@.push(value)
                    &&& final(self).spec_capacity() > old(self)@.len()
                    &&& if old(self)@.len() < old(self).spec_capacity() {
                        final(self).state() == old(self).state().with_buffer(
                            old(self).state().buffer.update(old(self)@.len() as int, value),
                        ).with_len(old(self)@.len() + 1)
                    } else {
                        final(self).spec_capacity() >= spec_amortized_capacity(
                            old(self).spec_capacity(),
                            old(self)@.len() + 1,
                            vstd::layout::size_of::<T>(),
                        )
                    }
                },
                Err(_) => final(self).state() == old(self).state(),
            },
    {
        let len: usize = self.len();
        let answer: Result<(), A::Err> = if len == self.capacity() {
            self.reserve_for_push(len)
        } else {
            Ok(())
        };
        if answer.is_err() {
            return answer;
        }
        let ghost reserved = self.state();
        let slice = self.mem.as_mut_slice();
        slice[len] = value;
        self.mem.set_len(len + 1);
        assert(self@ =~= old(self)@.push(value)) by {
            assert(reserved.buffer.take(len as int) == old(self)@);
        }
        assert(self.state() == reserved.with_buffer(
            reserved.buffer.update(len as int, value),
        ).with_len((len + 1) as nat));
        answer
    }

    /// Takes the element at `index` out and puts the last element in its
    /// place. The order of the others is kept but for that one move.
    pub fn swap_remove(&mut self, index: usize) -> (removed: T)
        requires
            old(self).wf(),
            index < old(self)@.len(),
        ensures
            final(self).wf(),
            removed == old(self)@[index as int],
            final(self)@ == old(self)@.update(index as int, old(self)@.last()).drop_last(),
            final(self).spec_capacity() == old(self).spec_capacity(),
    {
        let len: usize = self.len();
        let slice = self.mem.as_mut_slice();
        let value: T = slice[index];
        slice[index] = slice[len - 1];
        self.mem.set_len(len - 1);
        assert(self@ =~= old(self)@.update(index as int, old(self)@.last()).drop_last());
        value
    }

    /// Puts an element at `index` and moves the elements from there on one
    /// place up. When the buffer is full it first grows: the memory is asked
    /// once to reserve the capacity that amortized growth asks for, and the
    /// elements are moved in the memory as that call left it. The only way
    /// to fail is that the memory fails to reserve: then its failure is
    /// handed on and nothing else has happened.
    pub fn insert(&mut self, index: usize, element: T) -> (result: Result<(), A::Err>)
        requires
            old(self).wf(),
            index <= old(self)@.len(),
            old(self)@.len() < usize::MAX,
        ensures
            final(self).wf(),
            old(self)@.len() < old(self).spec_capacity() ==> result is Ok,
            old(self)@.len() == old(self).spec_capacity() ==> exists|
                handed: &mut A,
                capacity: usize,
            |
                #![trigger call_ensures(A::reserve, (handed, capacity), result)]
                {
                    &&& *handed == old(self).memory()
                    &&& capacity == spec_amortized_capacity(
                        old(self).spec_capacity(),
                        old(self)@.len() + 1,
                        vstd::layout::size_of::<T>(),
                    )
                    &&& call_ensures(A::reserve, (handed, capacity), result)
                    &&& match result {
                        Ok(_) => final(self).state() == (*final(handed))@.with_buffer(
                            spec_moved(
                                (*final(handed))@.buffer,
                                index as int,
                                index + 1,
                                old(self)@.len() - index,
                            ).update(index as int, element),
                        ).with_len(old(self)@.len() + 1),
                        Err(_) => final(self).memory() == *final(handed),
                    }
                },
            match result {
                Ok(_) => {
                    &&& final(self)@ == old(self)@.insert(index as int, element)
                    &&& if old(self)@.len() < old(self).spec_capacity() {
                        final(self).spec_capacity() == old(self).spec_capacity()
                    } else {
                        final(self).spec_capacity() >= spec_amortized_capacity(
                            old(self).spec_capacity(),
                            old(self)@.len() + 1,
                            vstd::layout::size_of::<T>(),
                        )
                    }
                },
                Err(_) => final(self).state() == old(self).state(),
            },
    {
        let len: usize = self.len();
        let answer: Result<(), A::Err> = if len == self.capacity() {
            self.reserve(1)
        } else {
            Ok(())
        };
        if answer.is_err() {
            return answer;
        }
        let ghost reserved = self.state();
        assert(reserved.buffer.take(len as int) == old(self)@);
        let slice = self.mem.as_mut_slice();
        move_up(slice, index, len);
        slice[index] = element;
        self.mem.set_len(len + 1);
        assert(self@ =~= old(self)@.insert(index as int, element));
        assert(self.state() == reserved.with_buffer(
            spec_moved(reserved.buffer, index as int, index + 1, len - index).update(
                index as int,
                element,
            ),
        ).with_len((len + 1) as nat));
        answer
    }

    /// Takes the element at `index` out and moves the elements behind it one
    /// place down.
    pub fn remove(&mut self, index: usize) -> (removed: T)
        requires
            old(self).wf(),
            index < old(self)@.len(),
        ensures
            final(self).wf(),
            removed == old(self)@[index as int],
            final(self)@ == old(self)@.remove(index as int),
            final(self).spec_capacity() == old(self).spec_capacity(),
    {
        let len: usize = self.len();
        let slice = self.mem.as_mut_slice();
        let value: T = slice[index];
        move_down(slice, index + 1, index, len - index - 1);
        self.mem.set_len(len - 1);
        assert(self@ =~= old(self)@.remove(index as int));
        value
    }

    /// Brings the vector to `new_len` elements: drops the elements behind the
    /// first `new_len`, or appends values that `f` makes, one call for each,
    /// in order. Where the buffer has no room for `new_len` elements it first
    /// grows: the memory is asked once to reserve the capacity that amortized
    /// growth asks for, and the values are written into the memory as that
    /// call left it. The only way to fail is that the memory fails to
    /// reserve: then its failure is handed on and nothing else has happened.
    pub fn resize_with<F>(&mut self, new_len: usize, f: F) -> (result: Result<(), A::Err>) where
        F: FnMut() -> T,

        requires
            old(self).wf(),
            call_requires(f, ()),
        ensures
            final(self).wf(),
            new_len <= old(self).spec_capacity() ==> result is Ok && final(self).spec_capacity()
                == old(self).spec_capacity(),
            new_len > old(self).spec_capacity() ==> exists|handed: &mut A, capacity: usize|
                #![trigger call_ensures(A::reserve, (handed, capacity), result)]
                {
                    &&& *handed == old(self).memory()
                    &&& capacity == spec_amortized_capacity(
                        old(self).spec_capacity(),
                        new_len as nat,
                        vstd::layout::size_of::<T>(),
                    )
                    &&& call_ensures(A::reserve, (handed, capacity), result)
                    &&& match result {
                        Ok(_) => {
                            &&& final(self).spec_capacity() == (*final(handed))@.capacity()
                            &&& final(self).state().buffer.skip(new_len as int)
                                == (*final(handed))@.buffer.skip(new_len as int)
                        },
                        Err(_) => final(self).memory() == *final(handed),
                    }
                },
            new_len <= old(self)@.len() ==> final(self).state() == old(self).state().with_len(
                new_len as nat,
            ),
            match result {
                Ok(_) => {
                    &&& final(self)@.len() == new_len
                    &&& new_len <= old(self)@.len() ==> final(self)@ == old(self)@.take(
                        new_len as int,
                    )
                    &&& new_len > old(self)@.len() ==> final(self)@.take(old(self)@.len() as int)
                        == old(self)@
                    &&& forall|i: int|
                        old(self)@.len() <= i < new_len ==> call_ensures(
                            f,
                            (),
                            #[trigger] final(self)@[i],
                        )
                },
                Err(_) => final(self).state() == old(self).state(),
            },
    {
        let len: usize = self.len();
        if new_len > len {
            self.extend_with(new_len - len, f)
        } else {
            self.truncate(new_len);
            Ok(())
        }
    }

    /// Appends `n` values that `f` makes, one call for each, in order. The
    /// length grows with every value written.
    fn extend_with<F>(&mut self, n: usize, f: F) -> (result: Result<(), A::Err>) where
        F: FnMut() -> T,

        requires
            old(self).wf(),
            old(self)@.len() + n <= usize::MAX,
            call_requires(f, ()),
        ensures
            final(self).wf(),
            old(self)@.len() + n <= old(self).spec_capacity() ==> result is Ok
                && final(self).spec_capacity() == old(self).spec_capacity(),
            old(self)@.len() + n > old(self).spec_capacity() ==> exists|
                handed: &mut A,
                capacity: usize,
            |
                #![trigger call_ensures(A::reserve, (handed, capacity), result)]
                {
                    &&& *handed == old(self).memory()
                    &&& capacity == spec_amortized_capacity(
                        old(self).spec_capacity(),
                        old(self)@.len() + n as nat,
                        vstd::layout::size_of::<T>(),
                    )
                    &&& call_ensures(A::reserve, (handed, capacity), result)
                    &&& match result {
                        Ok(_) => {
                            &&& final(self).spec_capacity() == (*final(handed))@.capacity()
                            &&& final(self).state().buffer.skip(old(self)@.len() + n)
                                == (*final(handed))@.buffer.skip(old(self)@.len() + n)
                        },
                        Err(_) => final(self).memory() == *final(handed),
                    }
                },
            match result {
                Ok(_) => {
                    &&& final(self)@.len() == old(self)@.len() + n
                    &&& final(self)@.take(old(self)@.len() as int) == old(self)@
                    &&& forall|i: int|
                        old(self)@.len() <= i < old(self)@.len() + n ==> call_ensures(
                            f,
                            (),
                            #[trigger] final(self)@[i],
                        )
                },
                Err(_) => final(self).state() == old(self).state(),
            },
    {
        let answer: Result<(), A::Err> = self.reserve(n);
        if answer.is_err() {
            return answer;
        }
        let ghost reserved = self.state();
        let mut make = f;
        let start: usize = self.len();
        let mut written: usize = 0;
        while written < n
            invariant
                self.wf(),
                make == f,
                call_requires(f, ()),
                written <= n,
                start == old(self)@.len(),
                start + n <= self.spec_capacity(),
                self.spec_capacity() == reserved.capacity(),
                self.state().buffer.skip(start + written) == reserved.buffer.skip(start + written),
                self@.len() == start + written,
                self@.take(start as int) == old(self)@,
                forall|i: int| start <= i < start + written ==> call_ensures(f, (), #[trigger] self@[i]),
            decreases n - written,
        {
            let ghost before = self@;
            let ghost buffer = self.state().buffer;
            let value: T = make();
            let len: usize = self.mem.len();
            let slice = self.mem.as_mut_slice();
            slice[len] = value;
            self.mem.set_len(len + 1);
            written = written + 1;
            assert(self@ =~= before.push(value));
            assert(self@.take(start as int) =~= before.take(start as int));
            assert(self.state().buffer.skip(start + written) =~= reserved.buffer.skip(
                start + written,
            )) by {
                assert forall|i: int| start + written <= i < buffer.len() implies buffer[i]
                    == reserved.buffer[i] by {
                    assert(buffer.skip(start + written - 1)[i - (start + written - 1)]
                        == buffer[i]);
                }
            }
        }
        answer
    }
}

/// A buffer that was extended holds the same first elements as before.
proof fn lemma_take_of_take<T>(longer: Seq<T>, shorter: Seq<T>, len: nat)
    requires
        shorter.len() <= longer.len(),
        longer.take(shorter.len() as int) == shorter,
        len <= shorter.len(),
    ensures
        longer.take(len as int) == shorter.take(len as int),
{
    assert(longer.take(len as int) =~= longer.take(shorter.len() as int).take(len as int));
}

/// The capacity that is left when the spare capacity beyond `min_capacity`
/// elements is given back and the `len` elements are kept.
pub open spec fn spec_shrink_target(capacity: nat, len: nat, min_capacity: nat) -> nat {
    let floor = if len >= min_capacity {
        len
    } else {
        min_capacity
    };
    if capacity <= floor {
        capacity
    } else {
        floor
    }
}

} // verus!
