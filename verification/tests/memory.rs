use memvec::{MemVec, Memory, MemoryConversionError};

/// A buffer that can be told to report itself misaligned and to refuse every
/// resize.
#[derive(Debug)]
struct Stubborn {
    data: Vec<u16>,
    len: usize,
    aligned: bool,
    resizes: usize,
}

impl Stubborn {
    fn new(data: Vec<u16>, len: usize, aligned: bool) -> Self {
        Stubborn {
            data,
            len,
            aligned,
            resizes: 0,
        }
    }
}

impl Memory<u16> for Stubborn {
    type Err = &'static str;

    fn is_aligned(&self) -> bool {
        self.aligned
    }

    fn len(&self) -> usize {
        self.len
    }

    fn set_len(&mut self, len: usize) {
        self.len = len;
    }

    fn as_slice(&self) -> &[u16] {
        self.data.as_slice()
    }

    fn as_mut_slice(&mut self) -> &mut [u16] {
        self.data.as_mut_slice()
    }

    fn reserve(&mut self, capacity: usize) -> Result<(), &'static str> {
        if capacity <= self.data.len() {
            return Ok(());
        }
        self.resizes += 1;
        Err("no room")
    }

    fn shrink(&mut self, capacity: usize) -> Result<(), &'static str> {
        if capacity >= self.data.len() {
            return Ok(());
        }
        self.resizes += 1;
        Err("no way back")
    }
}

#[test]
fn a_misaligned_memory_does_not_bind_and_comes_back() {
    let mem = Stubborn::new(vec![1, 2, 3], 2, false);
    match MemVec::try_from_memory(mem) {
        Ok(_) => panic!("a misaligned memory must not bind"),
        Err((mem, error)) => {
            assert_eq!(error, MemoryConversionError::AlignMismatch);
            assert_eq!(mem.data, vec![1, 2, 3]);
            assert_eq!(mem.len, 2);
        }
    }
}

#[test]
fn misalignment_is_reported_before_the_length() {
    let mem = Stubborn::new(vec![1, 2, 3], 9, false);
    let (_, error) = MemVec::try_from_memory(mem).unwrap_err();
    assert_eq!(error, MemoryConversionError::AlignMismatch);
    let mem = Stubborn::new(vec![1, 2, 3], 9, true);
    let (_, error) = MemVec::try_from_memory(mem).unwrap_err();
    assert_eq!(error, MemoryConversionError::SizeMismatch);
}

#[test]
fn a_push_with_room_asks_for_no_resize() {
    let mem = Stubborn::new(vec![1, 2, 0, 0], 2, true);
    let mut vec = MemVec::try_from_memory(mem).unwrap();
    assert_eq!(vec.push(3), Ok(()));
    assert_eq!(vec.insert(0, 4), Ok(()));
    assert_eq!(vec.deref(), &[4, 1, 2, 3]);
    assert_eq!(vec.as_mem().resizes, 0);
    assert_eq!(vec.push(5), Err("no room"));
    assert_eq!(vec.insert(0, 5), Err("no room"));
    assert_eq!(vec.deref(), &[4, 1, 2, 3]);
    assert_eq!(vec.as_mem().resizes, 2);
}

#[test]
fn a_failed_shrink_changes_nothing() {
    let mem = Stubborn::new(vec![1, 2, 0, 0], 2, true);
    let mut vec = MemVec::try_from_memory(mem).unwrap();
    assert_eq!(vec.shrink_to_fit(), Err("no way back"));
    assert_eq!(vec.shrink_to(3), Err("no way back"));
    assert_eq!(vec.shrink_to(4), Ok(()));
    assert_eq!(vec.capacity(), 4);
    assert_eq!(vec.deref(), &[1, 2]);
    assert_eq!(vec.as_mem().resizes, 2);
}

#[test]
fn reserving_room_that_is_there_asks_for_no_resize() {
    let mem = Stubborn::new(vec![1, 2, 0, 0], 2, true);
    let mut vec = MemVec::try_from_memory(mem).unwrap();
    assert_eq!(vec.reserve(2), Ok(()));
    assert_eq!(vec.reserve_exact(2), Ok(()));
    assert_eq!(vec.try_reserve(0), Ok(()));
    assert_eq!(vec.try_reserve_exact(1), Ok(()));
    assert_eq!(vec.as_mem().resizes, 0);
    assert_eq!(vec.reserve(3), Err("no room"));
    assert_eq!(vec.reserve_exact(3), Err("no room"));
    assert_eq!(vec.as_mem().resizes, 2);
}

/// A buffer that grows to exactly the capacity asked for and remembers what
/// it was asked.
#[derive(Debug)]
struct Recording {
    data: Vec<[u8; 41]>,
    len: usize,
    reserved: Vec<usize>,
    shrunk: Vec<usize>,
}

impl Recording {
    fn new() -> Self {
        Recording {
            data: Vec::new(),
            len: 0,
            reserved: Vec::new(),
            shrunk: Vec::new(),
        }
    }
}

impl Memory<[u8; 41]> for Recording {
    type Err = ();

    fn is_aligned(&self) -> bool {
        true
    }

    fn len(&self) -> usize {
        self.len
    }

    fn set_len(&mut self, len: usize) {
        self.len = len;
    }

    fn as_slice(&self) -> &[[u8; 41]] {
        self.data.as_slice()
    }

    fn as_mut_slice(&mut self) -> &mut [[u8; 41]] {
        self.data.as_mut_slice()
    }

    fn reserve(&mut self, capacity: usize) -> Result<(), ()> {
        self.reserved.push(capacity);
        if capacity > self.data.len() {
            self.data.resize(capacity, [0; 41]);
        }
        Ok(())
    }

    fn shrink(&mut self, capacity: usize) -> Result<(), ()> {
        self.shrunk.push(capacity);
        self.data.truncate(capacity);
        Ok(())
    }
}

#[test]
fn ten_pushes_reserve_three_times() {
    let mut vec = MemVec::try_from_memory(Recording::new()).unwrap();
    assert_eq!(vec.capacity(), 0);
    for i in 0..10u8 {
        vec.push([i; 41]).unwrap();
    }
    assert_eq!(vec.as_mem().reserved, vec![4, 8, 16]);
    assert_eq!(vec.capacity(), 16);
    assert_eq!(vec.len(), 10);
    vec.shrink_to_fit().unwrap();
    assert_eq!(vec.as_mem().shrunk, vec![10]);
    assert_eq!(vec.capacity(), 10);
    vec.shrink_to_fit().unwrap();
    assert_eq!(vec.as_mem().shrunk, vec![10]);
}

#[test]
fn reserving_asks_the_memory_once_for_the_stated_capacity() {
    let mut vec = MemVec::try_from_memory(Recording::new()).unwrap();
    vec.try_reserve(3).unwrap();
    assert_eq!(vec.as_mem().reserved, vec![4]);
    vec.push([1; 41]).unwrap();
    vec.try_reserve_exact(3).unwrap();
    vec.reserve(3).unwrap();
    vec.reserve_exact(3).unwrap();
    assert_eq!(vec.as_mem().reserved, vec![4]);
    vec.try_reserve_exact(4).unwrap();
    assert_eq!(vec.as_mem().reserved, vec![4, 5]);
    vec.try_reserve(5).unwrap();
    assert_eq!(vec.as_mem().reserved, vec![4, 5, 10]);
    vec.reserve_exact(12).unwrap();
    assert_eq!(vec.as_mem().reserved, vec![4, 5, 10, 13]);
    vec.reserve(13).unwrap();
    assert_eq!(vec.as_mem().reserved, vec![4, 5, 10, 13, 26]);
    vec.resize_with(30, || [2; 41]).unwrap();
    assert_eq!(vec.as_mem().reserved, vec![4, 5, 10, 13, 26, 52]);
    vec.set_len(52);
    vec.insert(0, [3; 41]).unwrap();
    assert_eq!(vec.as_mem().reserved, vec![4, 5, 10, 13, 26, 52, 104]);
    assert_eq!(vec.capacity(), 104);
}
