use ocl::results::count_mismatches;
use ocl::summary::summarize_slice;
use ocl::util::{bytes_to_u32, padded_len};

#[test]
fn bytes_little_endian() {
    assert_eq!(bytes_to_u32(&[1, 2, 3, 4]), 0x0403_0201);
    assert_eq!(bytes_to_u32(&[255, 255, 255, 255]), u32::MAX);
    assert_eq!(bytes_to_u32(&[0, 0, 0, 0]), 0);
}

#[test]
fn padding_to_multiple() {
    assert_eq!(padded_len(10, 4), 12);
    assert_eq!(padded_len(12, 4), 12);
    assert_eq!(padded_len(0, 8), 0);
    assert_eq!(padded_len(1, 1), 1);
    assert_eq!(padded_len(usize::MAX - 1, usize::MAX), usize::MAX);
}

#[test]
fn summary_without_ranges() {
    let s = summarize_slice(&[0, 3, -2, 0, 5], 1, None, None, true);
    assert_eq!(s.nonzero, 3);
    assert_eq!(s.in_range, 0);
    assert_eq!(s.hi, 5);
    assert_eq!(s.lo, -2);
    assert_eq!(s.sum, 6);
    assert_eq!(s.shown, vec![0, 1, 2, 3, 4]);
}

#[test]
fn summary_with_ranges_and_stride() {
    let v = [1i64, 10, 3, 4, 0, 6, 7, 20];
    let s = summarize_slice(&v, 2, Some((0, 6)), Some((1, 7)), false);
    // selected: indices 2 (3), 3 (4), 4 (0), 5 (6)
    assert_eq!(s.in_range, 4);
    assert_eq!(s.nonzero, 3);
    assert_eq!(s.sum, 13);
    assert_eq!(s.hi, 6);
    assert_eq!(s.lo, 0);
    assert_eq!(s.shown, vec![2]);
}

#[test]
fn summary_empty_and_no_stride() {
    let s = summarize_slice(&[], 0, None, None, true);
    assert_eq!((s.nonzero, s.in_range, s.hi, s.lo, s.sum), (0, 0, 0, 0, 0));
    assert!(s.shown.is_empty());
    let s = summarize_slice(&[4, 4], 0, None, None, true);
    assert!(s.shown.is_empty());
    assert_eq!(s.sum, 8);
}

#[test]
fn mismatches_counted_against_rounds() {
    let seed = [1u32, 2, 3, 4];
    assert_eq!(count_mismatches(&seed, &[12, 13, 14, 15], 11, 0), 0);
    assert_eq!(count_mismatches(&seed, &[89, 90, 0, 92], 11, 7), 1);
    assert_eq!(count_mismatches(&seed, &[1, 2, 3, 4], 11, 0), 4);
    assert_eq!(count_mismatches(&[u32::MAX], &[0], 1, 0), 0);
    assert_eq!(count_mismatches(&[], &[], 5, 3), 0);
}
