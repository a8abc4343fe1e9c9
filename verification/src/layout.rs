//! How a persistent vector lies in a file, and when a region of bytes can be
//! read as elements.
//!
//! The file starts with a header that holds the element count as one 64-bit
//! word. The elements follow, packed, from the end of the header to the end
//! of the file. Whatever lies behind the elements counted is spare capacity.

use crate::memory::MemoryConversionError;
use vstd::prelude::*;

verus! {

/// The number of bytes that the header takes at the start of the file.
pub const HEADER_LEN: usize = 8;

/// The size and the alignment of an element type, in bytes.
#[derive(Debug, Clone, Copy, PartialEq, Eq, Structural)]
pub struct ElementLayout {
    /// The number of bytes that one element takes.
    pub size: usize,
    /// The alignment that an element needs.
    pub align: usize,
}

/// Where a region of bytes lies in memory.
#[derive(Debug, Clone, Copy, PartialEq, Eq, Structural)]
pub struct Region {
    /// The address of its first byte.
    pub addr: usize,
    /// Its length in bytes.
    pub byte_len: usize,
}

/// What opening a file has to do with it.
#[derive(Debug, Clone, Copy, PartialEq, Eq, Structural)]
pub enum OpenAction {
    /// The file is empty: extend it to the header alone and store the
    /// element count zero.
    Initialize,
    /// The file holds a header: map it, and map the data region of
    /// `data_len` bytes behind it.
    Bind { data_len: u64 },
    /// The file is too short to hold a header, and not empty.
    Reject,
}

impl ElementLayout {
    /// The layout of the element type `T`.
    pub fn of<T>() -> (layout: Self)
        ensures
            layout.size == vstd::layout::size_of::<T>(),
            layout.align == vstd::layout::align_of::<T>(),
    {
        ElementLayout { size: core::mem::size_of::<T>(), align: core::mem::align_of::<T>() }
    }
}

impl Region {
    /// Whether the region starts on an element boundary and ends on one: its
    /// address is a multiple of the alignment and its length a multiple of
    /// the element size. For elements of size zero only the empty region
    /// does.
    pub open spec fn spec_is_aligned(self, element: ElementLayout) -> bool {
        if element.size == 0 {
            self.byte_len == 0
        } else {
            &&& element.align != 0
            &&& self.addr as int % element.align as int == 0
            &&& self.byte_len as int % element.size as int == 0
        }
    }

    /// The number of whole elements that the region holds.
    pub open spec fn spec_capacity(self, element: ElementLayout) -> nat {
        if element.size == 0 {
            0
        } else {
            (self.byte_len as int / element.size as int) as nat
        }
    }

    /// Computes [`Region::spec_is_aligned`].
    pub fn is_aligned(&self, element: &ElementLayout) -> (aligned: bool)
        ensures
            aligned == self.spec_is_aligned(*element),
    {
        if element.size == 0 {
            self.byte_len == 0
        } else {
            element.align != 0 && self.addr % element.align == 0 && self.byte_len % element.size
                == 0
        }
    }

    /// Computes [`Region::spec_capacity`].
    pub fn capacity(&self, element: &ElementLayout) -> (capacity: usize)
        ensures
            capacity == self.spec_capacity(*element),
    {
        if element.size == 0 {
            0
        } else {
            self.byte_len / element.size
        }
    }

    /// Decides whether the region can hold a vector of `stored_len`
    /// elements, and with what capacity. A region that does not start or end
    /// on an element boundary is refused as misaligned, whatever its stored
    /// length. An aligned region is refused where the stored length exceeds
    /// the number of elements it holds.
    pub fn bind(&self, element: &ElementLayout, stored_len: usize) -> (result: Result<
        usize,
        MemoryConversionError,
    >)
        ensures
            match result {
                Ok(capacity) => {
                    &&& self.spec_is_aligned(*element)
                    &&& capacity == self.spec_capacity(*element)
                    &&& stored_len <= capacity
                },
                Err(MemoryConversionError::AlignMismatch) => !self.spec_is_aligned(*element),
                Err(MemoryConversionError::SizeMismatch) => {
                    &&& self.spec_is_aligned(*element)
                    &&& stored_len > self.spec_capacity(*element)
                },
            },
    {
        if !self.is_aligned(element) {
            return Err(MemoryConversionError::AlignMismatch);
        }
        let capacity: usize = self.capacity(element);
        if stored_len > capacity {
            return Err(MemoryConversionError::SizeMismatch);
        }
        Ok(capacity)
    }
}

/// What opening a file of `file_len` bytes has to do.
pub open spec fn spec_open_action(file_len: u64) -> OpenAction {
    if file_len == 0 {
        OpenAction::Initialize
    } else if file_len < HEADER_LEN {
        OpenAction::Reject
    } else {
        OpenAction::Bind { data_len: (file_len - HEADER_LEN) as u64 }
    }
}

/// Computes [`spec_open_action`].
pub fn open_action(file_len: u64) -> (action: OpenAction)
    ensures
        action == spec_open_action(file_len),
{
    if file_len == 0 {
        OpenAction::Initialize
    } else if file_len < 8 {
        OpenAction::Reject
    } else {
        OpenAction::Bind { data_len: file_len - 8 }
    }
}

/// The length of the file that holds the header and `capacity` elements of
/// `elem_size` bytes each, where that fits in 64 bits.
pub open spec fn spec_file_len(capacity: nat, elem_size: nat) -> Option<u64> {
    if HEADER_LEN + capacity * elem_size <= u64::MAX {
        Some((HEADER_LEN + capacity * elem_size) as u64)
    } else {
        None
    }
}

/// Computes [`spec_file_len`].
pub fn file_len(capacity: usize, elem_size: usize) -> (len: Option<u64>)
    ensures
        len == spec_file_len(capacity as nat, elem_size as nat),
{
    match (capacity as u64).checked_mul(elem_size as u64) {
        Some(bytes) => bytes.checked_add(8),
        None => {
            assert(capacity as nat * elem_size as nat > u64::MAX) by (nonlinear_arith)
                requires
                    capacity as u64 * elem_size as u64 > u64::MAX,
            ;
            None
        },
    }
}

/// A file laid out for `capacity` elements binds with exactly that capacity:
/// its data region, mapped at an aligned address, holds whole elements and
/// as many as the file was laid out for.
pub proof fn lemma_file_len_binds(capacity: nat, element: ElementLayout, addr: usize)
    requires
        element.size > 0,
        element.align > 0,
        addr as int % element.align as int == 0,
        capacity * element.size <= usize::MAX,
        spec_file_len(capacity, element.size as nat) is Some,
    ensures
        spec_open_action(spec_file_len(capacity, element.size as nat).unwrap()) == (
        OpenAction::Bind { data_len: (capacity * element.size) as u64 }),
        (Region { addr, byte_len: (capacity * element.size) as usize }).spec_is_aligned(element),
        (Region { addr, byte_len: (capacity * element.size) as usize }).spec_capacity(element)
            == capacity,
{
    let bytes = capacity * element.size;
    assert(bytes as int % element.size as int == 0 && bytes as int / element.size as int
        == capacity) by (nonlinear_arith)
        requires
            bytes == capacity * element.size,
            element.size > 0,
    ;
}

} // verus!
