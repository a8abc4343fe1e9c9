//! A growable array whose storage is a memory capability: a buffer that
//! keeps its own element count and can be asked to grow or to give room back.
//! Behind a buffer that lives in a mapped file the array outlives the
//! process.
//!
//! - [`memory`]: what a memory capability is and what it promises.
//! - [`mem_vec`]: the array itself, [`MemVec`].
//! - [`retain`] and [`dedup`]: its operations that remove elements by a
//!   predicate or a comparison.
//! - [`growth`]: how much room a growing array asks for.
//! - [`compact`]: removing elements in one pass without losing track of the
//!   length.
//! - [`shift`]: moving runs of elements inside a buffer.
//! - [`heap`]: memory capabilities on the heap.
//! - [`layout`]: how an array lies in a file, and when a region of bytes can
//!   be read as elements.
//! - [`remap`]: the calls that resizing a mapped file takes, and their order.

pub mod compact;
pub mod dedup;
pub mod growth;
pub mod heap;
pub mod layout;
pub mod mem_vec;
pub mod memory;
pub mod remap;
pub mod retain;
pub mod shift;

pub use heap::{BoundedMemory, HeapMemory, LimitExceeded};
pub use mem_vec::MemVec;
pub use memory::{Memory, MemoryConversionError, MemoryState};
