use memvec::layout::{file_len, open_action, ElementLayout, OpenAction, Region, HEADER_LEN};
use memvec::MemoryConversionError;

const RECORD: ElementLayout = ElementLayout { size: 41, align: 1 };
const WORD: ElementLayout = ElementLayout { size: 8, align: 8 };

#[test]
fn header_is_one_word() {
    assert_eq!(HEADER_LEN, 8);
    assert_eq!(ElementLayout::of::<u64>(), WORD);
    assert_eq!(ElementLayout::of::<u8>(), ElementLayout { size: 1, align: 1 });
    assert_eq!(ElementLayout::of::<()>(), ElementLayout { size: 0, align: 1 });
}

#[test]
fn a_region_of_whole_elements_binds() {
    let region = Region {
        addr: 0x1008,
        byte_len: 410,
    };
    assert!(region.is_aligned(&RECORD));
    assert_eq!(region.capacity(&RECORD), 10);
    assert_eq!(region.bind(&RECORD, 0), Ok(10));
    assert_eq!(region.bind(&RECORD, 10), Ok(10));
}

#[test]
fn a_length_beyond_the_capacity_is_a_size_mismatch() {
    let region = Region {
        addr: 0x1008,
        byte_len: 410,
    };
    assert_eq!(
        region.bind(&RECORD, 11),
        Err(MemoryConversionError::SizeMismatch)
    );
    let empty = Region {
        addr: 0x1008,
        byte_len: 0,
    };
    assert_eq!(empty.bind(&RECORD, 0), Ok(0));
    assert_eq!(
        empty.bind(&RECORD, 1),
        Err(MemoryConversionError::SizeMismatch)
    );
}

#[test]
fn a_region_that_ends_inside_an_element_is_an_align_mismatch() {
    let region = Region {
        addr: 0x1008,
        byte_len: 411,
    };
    assert!(!region.is_aligned(&RECORD));
    assert_eq!(
        region.bind(&RECORD, 0),
        Err(MemoryConversionError::AlignMismatch)
    );
    assert_eq!(
        region.bind(&RECORD, 100),
        Err(MemoryConversionError::AlignMismatch)
    );
}

#[test]
fn a_region_that_starts_off_the_alignment_is_an_align_mismatch() {
    let region = Region {
        addr: 0x1004,
        byte_len: 64,
    };
    assert!(!region.is_aligned(&WORD));
    assert_eq!(
        region.bind(&WORD, 1),
        Err(MemoryConversionError::AlignMismatch)
    );
    let aligned = Region {
        addr: 0x1008,
        byte_len: 64,
    };
    assert_eq!(aligned.bind(&WORD, 8), Ok(8));
    assert_eq!(
        aligned.bind(&WORD, 9),
        Err(MemoryConversionError::SizeMismatch)
    );
}

#[test]
fn elements_of_size_zero_fit_the_empty_region_only() {
    let unit = ElementLayout { size: 0, align: 1 };
    let empty = Region {
        addr: 3,
        byte_len: 0,
    };
    assert_eq!(empty.bind(&unit, 0), Ok(0));
    assert_eq!(
        empty.bind(&unit, 1),
        Err(MemoryConversionError::SizeMismatch)
    );
    let some = Region {
        addr: 0,
        byte_len: 4,
    };
    assert_eq!(
        some.bind(&unit, 0),
        Err(MemoryConversionError::AlignMismatch)
    );
}

#[test]
fn an_alignment_of_zero_fits_nothing() {
    let broken = ElementLayout { size: 4, align: 0 };
    let region = Region {
        addr: 0,
        byte_len: 8,
    };
    assert_eq!(
        region.bind(&broken, 0),
        Err(MemoryConversionError::AlignMismatch)
    );
}

#[test]
fn opening_depends_on_the_file_length() {
    assert_eq!(open_action(0), OpenAction::Initialize);
    assert_eq!(open_action(1), OpenAction::Reject);
    assert_eq!(open_action(7), OpenAction::Reject);
    assert_eq!(open_action(8), OpenAction::Bind { data_len: 0 });
    assert_eq!(open_action(418), OpenAction::Bind { data_len: 410 });
    assert_eq!(
        open_action(u64::MAX),
        OpenAction::Bind {
            data_len: u64::MAX - 8
        }
    );
}

#[test]
fn the_file_holds_the_header_and_the_elements() {
    assert_eq!(file_len(0, 41), Some(8));
    assert_eq!(file_len(10, 41), Some(418));
    assert_eq!(file_len(16, 41), Some(664));
    assert_eq!(file_len(5, 0), Some(8));
    assert_eq!(file_len(usize::MAX, usize::MAX), None);
    assert_eq!(file_len(usize::MAX, 1), None);
    assert_eq!(open_action(file_len(10, 41).unwrap()), OpenAction::Bind { data_len: 410 });
}
