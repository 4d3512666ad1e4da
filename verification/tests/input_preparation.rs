use ferris_bench::harness::InputError;
use ferris_bench::input::{
    as_text, convert, is_page_aligned, is_placed, plan_placement, InputKind, Placement, Prepared,
    PAGE_ALIGNMENT,
};

#[test]
fn page_alignment_is_sixteen_kib() {
    assert_eq!(PAGE_ALIGNMENT, 16 * 1024);
}

#[test]
fn input_taken_unchanged_stays_in_place() {
    assert_eq!(plan_placement(InputKind::Unchanged, 0), Ok(Placement::InPlace));
    assert_eq!(plan_placement(InputKind::Unchanged, 77), Ok(Placement::InPlace));
    assert_eq!(plan_placement(InputKind::Unchanged, usize::MAX), Ok(Placement::InPlace));
}

#[test]
fn empty_input_shares_the_buffer_of_no_length() {
    assert_eq!(plan_placement(InputKind::Bytes, 0), Ok(Placement::Shared));
    assert_eq!(plan_placement(InputKind::Text, 0), Ok(Placement::Shared));
}

#[test]
fn other_input_gets_an_aligned_buffer_of_its_length() {
    assert_eq!(
        plan_placement(InputKind::Bytes, 1),
        Ok(Placement::Fresh { size: 1, align: 16384 })
    );
    assert_eq!(
        plan_placement(InputKind::Text, 20_000),
        Ok(Placement::Fresh { size: 20_000, align: 16384 })
    );
    let largest = isize::MAX as usize - 16383;
    assert_eq!(
        plan_placement(InputKind::Bytes, largest),
        Ok(Placement::Fresh { size: largest, align: 16384 })
    );
}

#[test]
fn too_long_input_cannot_be_laid_out() {
    let largest = isize::MAX as usize - 16383;
    assert_eq!(plan_placement(InputKind::Bytes, largest + 1), Err(InputError::Allocation));
    assert_eq!(plan_placement(InputKind::Text, usize::MAX), Err(InputError::Allocation));
}

#[test]
fn multiples_of_the_page_alignment_are_aligned() {
    assert!(is_page_aligned(0));
    assert!(is_page_aligned(16384));
    assert!(is_page_aligned(16384 * 3));
    assert!(!is_page_aligned(1));
    assert!(!is_page_aligned(8192));
    assert!(!is_page_aligned(16383));
    assert!(!is_page_aligned(16385));
}

#[test]
fn a_buffer_is_accepted_where_it_is_what_was_asked_for() {
    let fresh = Placement::Fresh { size: 5, align: 16384 };
    assert!(is_placed(fresh, 32768, 5));
    assert!(!is_placed(fresh, 32768, 4));
    assert!(!is_placed(fresh, 32769, 5));
    assert!(is_placed(Placement::Shared, 16384, 0));
    assert!(!is_placed(Placement::Shared, 16384, 1));
    assert!(!is_placed(Placement::Shared, 64, 0));
    assert!(is_placed(Placement::InPlace, 3, 9));
    assert!(!is_placed(Placement::Fresh { size: 5, align: 0 }, 0, 5));
}

#[test]
fn the_planned_buffer_can_be_laid_out() {
    let plan = plan_placement(InputKind::Bytes, 10).unwrap();
    let (size, align) = match plan {
        Placement::Fresh { size, align } => (size, align),
        _ => panic!("a buffer of its own was expected"),
    };
    let layout = std::alloc::Layout::from_size_align(size, align).unwrap();
    assert_eq!(layout.size(), 10);
    assert_eq!(layout.align(), 16384);
}

#[test]
fn the_longest_input_that_is_planned_is_the_longest_that_can_be_laid_out() {
    let largest = isize::MAX as usize - 16383;
    assert!(plan_placement(InputKind::Bytes, largest).is_ok());
    assert!(std::alloc::Layout::from_size_align(largest, 16384).is_ok());
    assert!(plan_placement(InputKind::Bytes, largest + 1).is_err());
    assert!(std::alloc::Layout::from_size_align(largest + 1, 16384).is_err());
}

#[test]
fn valid_utf8_is_text() {
    assert_eq!(as_text(b"7"), Ok("7"));
    assert_eq!(as_text(b""), Ok(""));
    assert_eq!(as_text("gr\u{fc}n \u{1f980}".as_bytes()), Ok("gr\u{fc}n \u{1f980}"));
}

#[test]
fn invalid_utf8_is_rejected() {
    assert_eq!(as_text(&[0xff]), Err(InputError::InvalidEncoding));
    assert_eq!(as_text(&[b'a', 0xc3]), Err(InputError::InvalidEncoding));
    assert_eq!(as_text(&[0xed, 0xa0, 0x80]), Err(InputError::InvalidEncoding));
    assert_eq!(as_text(&[0xc0, 0x80]), Err(InputError::InvalidEncoding));
}

#[test]
fn bytes_are_handed_on_as_they_are() {
    let raw = [0xffu8, 0x00, 0x41];
    match convert(InputKind::Bytes, &raw) {
        Ok(Prepared::Bytes(bytes)) => assert_eq!(bytes, &raw),
        other => panic!("bytes were expected, not {:?}", other),
    }
    match convert(InputKind::Unchanged, &raw) {
        Ok(Prepared::Bytes(bytes)) => assert_eq!(bytes, &raw),
        other => panic!("bytes were expected, not {:?}", other),
    }
}

#[test]
fn text_is_validated_on_conversion() {
    match convert(InputKind::Text, b"1,2,3") {
        Ok(Prepared::Text(text)) => assert_eq!(text, "1,2,3"),
        other => panic!("text was expected, not {:?}", other),
    }
    match convert(InputKind::Text, &[0x80]) {
        Err(why) => assert_eq!(why, InputError::InvalidEncoding),
        other => panic!("an error was expected, not {:?}", other),
    }
}
