use lri_rs::unpack::{tenbit, LriError};

#[test]
fn tenbit_unpacks_one_group_big_endian() {
    let packd = [0x12u8, 0x34, 0x56, 0x78, 0x9A];
    let mut out = [0u16; 4];
    assert_eq!(tenbit(&packd, 4, &mut out), Ok(()));
    assert_eq!(out, [72, 837, 414, 154]);
}

#[test]
fn tenbit_takes_trailing_samples_from_the_front() {
    let packd = [0xABu8, 0xCD, 0xEF, 0x01, 0x23, 0x45, 0x67, 0x89];
    let mut out = [0u16; 6];
    assert_eq!(tenbit(&packd, 6, &mut out), Ok(()));
    assert_eq!(out, [4, 564, 345, 905, 427, 1011]);
}

#[test]
fn tenbit_groups_count_back_from_the_end() {
    let packd = [0xFFu8, 0x03, 0x10, 0x20, 0x30, 0x40, 0x50, 0x60, 0x70, 0x80, 0x90, 0xA0, 0xB0];
    let mut out = [7u16; 11];
    assert_eq!(tenbit(&packd, 9, &mut out), Ok(()));
    assert_eq!(out[..9], [385, 776, 36, 160, 64, 515, 16, 80, 1023]);
    // Samples past the count are left alone.
    assert_eq!(out[9..], [7, 7]);
}

#[test]
fn tenbit_rejects_short_output() {
    let packd = [0u8; 10];
    let mut out = [5u16; 3];
    assert_eq!(
        tenbit(&packd, 4, &mut out),
        Err(LriError::PixelCountMismatch { expected: 4, got: 3 })
    );
    assert_eq!(out, [5, 5, 5]);
}

#[test]
fn tenbit_rejects_short_input() {
    let packd = [0u8; 7];
    let mut out = [5u16; 8];
    assert_eq!(
        tenbit(&packd, 7, &mut out),
        Err(LriError::PixelCountMismatch { expected: 9, got: 7 })
    );
    assert_eq!(out, [5; 8]);
}

#[test]
fn tenbit_zero_samples_is_fine() {
    let mut out = [3u16; 2];
    assert_eq!(tenbit(&[], 0, &mut out), Ok(()));
    assert_eq!(out, [3, 3]);
}
