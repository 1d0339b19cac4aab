use facet_key_codec::big_endian::{read_be, write_be};
use facet_key_codec::error::SliceTooShortError;

#[test]
fn read_be_two_bytes_and_rest() {
    let bytes = [0x12u8, 0x34, 0x56];
    let (value, rest) = read_be(&bytes, 2).unwrap();
    assert_eq!(value, 0x1234);
    assert_eq!(rest, &[0x56u8][..]);
}

#[test]
fn read_be_four_bytes_most_significant_first() {
    let bytes = [0x01u8, 0x02, 0x03, 0x04];
    let (value, rest) = read_be(&bytes, 4).unwrap();
    assert_eq!(value, 0x0102_0304);
    assert!(rest.is_empty());
}

#[test]
fn read_be_eight_bytes_of_ones() {
    let bytes = [0xffu8; 9];
    let (value, rest) = read_be(&bytes, 8).unwrap();
    assert_eq!(value, u64::MAX);
    assert_eq!(rest, &[0xffu8][..]);
}

#[test]
fn read_be_width_zero_reads_nothing() {
    let bytes = [7u8, 8];
    let (value, rest) = read_be(&bytes, 0).unwrap();
    assert_eq!(value, 0);
    assert_eq!(rest, &[7u8, 8][..]);
    let (value, rest) = read_be(&[], 0).unwrap();
    assert_eq!(value, 0);
    assert!(rest.is_empty());
}

#[test]
fn read_be_fails_on_short_slices() {
    assert_eq!(read_be(&[], 1), Err(SliceTooShortError));
    assert_eq!(read_be(&[0x12], 2), Err(SliceTooShortError));
    assert_eq!(read_be(&[1, 2, 3], 4), Err(SliceTooShortError));
    assert_eq!(read_be(&[1, 2, 3, 4, 5, 6, 7], 8), Err(SliceTooShortError));
}

#[test]
fn write_be_appends_behind_what_is_there() {
    let mut out = vec![0xaau8];
    write_be(&mut out, 0x1234, 2);
    assert_eq!(out, vec![0xaa, 0x12, 0x34]);
    write_be(&mut out, 42, 4);
    assert_eq!(out, vec![0xaa, 0x12, 0x34, 0, 0, 0, 42]);
}

#[test]
fn write_be_pads_with_leading_zeros() {
    let mut out = Vec::new();
    write_be(&mut out, 0x0102, 4);
    assert_eq!(out, vec![0, 0, 1, 2]);
    let mut wide = Vec::new();
    write_be(&mut wide, u64::MAX, 9);
    assert_eq!(wide, vec![0, 0xff, 0xff, 0xff, 0xff, 0xff, 0xff, 0xff, 0xff]);
}

#[test]
fn write_be_keeps_the_low_bytes_of_a_wide_number() {
    let mut out = Vec::new();
    write_be(&mut out, 0x12_3456, 2);
    assert_eq!(out, vec![0x34, 0x56]);
}

#[test]
fn write_be_width_zero_writes_nothing() {
    let mut out = vec![1u8, 2];
    write_be(&mut out, 99, 0);
    assert_eq!(out, vec![1, 2]);
}

#[test]
fn write_be_agrees_with_std() {
    for value in [0u32, 1, 255, 256, 65_535, 65_536, 0x0102_0304, u32::MAX] {
        let mut out = Vec::new();
        write_be(&mut out, value as u64, 4);
        assert_eq!(out, value.to_be_bytes().to_vec());
    }
    for value in [0u16, 1, 255, 256, 0x1234, u16::MAX] {
        let mut out = Vec::new();
        write_be(&mut out, value as u64, 2);
        assert_eq!(out, value.to_be_bytes().to_vec());
    }
}

#[test]
fn read_be_undoes_write_be() {
    for width in 0usize..=8 {
        for value in [0u64, 1, 0xff, 0x100, 0xdead_beef, u64::MAX] {
            let mut out = Vec::new();
            write_be(&mut out, value, width);
            assert_eq!(out.len(), width);
            out.push(0x77);
            let (read, rest) = read_be(&out, width).unwrap();
            let kept = if width == 8 { value } else { value % (1u64 << (8 * width)) };
            assert_eq!(read, kept);
            assert_eq!(rest, &[0x77u8][..]);
        }
    }
}
