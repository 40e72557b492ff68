use lri_rs::render::rotate_180;

#[test]
fn rotate_single_channel_reverses() {
    let mut v = [1u16, 2, 3, 4, 5];
    rotate_180(&mut v, 1);
    assert_eq!(v, [5, 4, 3, 2, 1]);
    let mut empty: [u8; 0] = [];
    rotate_180(&mut empty, 1);
}

#[test]
fn rotate_keeps_channel_order_within_pixels() {
    let mut v = [1u8, 2, 3, 4, 5, 6, 7, 8, 9];
    rotate_180(&mut v, 3);
    assert_eq!(v, [7, 8, 9, 4, 5, 6, 1, 2, 3]);
}

#[test]
fn rotate_overwrites_a_partial_trailing_pixel_with_the_first_sample() {
    let mut v = [1u8, 2, 3, 4, 5];
    rotate_180(&mut v, 2);
    assert_eq!(v, [3, 4, 1, 2, 1]);
}

#[test]
fn rotate_twice_restores_whole_pixels() {
    let orig: Vec<u16> = (0..24).map(|i| i * 7 + 1).collect();
    let mut v = orig.clone();
    rotate_180(&mut v, 3);
    assert_ne!(v, orig);
    rotate_180(&mut v, 3);
    assert_eq!(v, orig);
}
