use remote_desktop::pixels::downscale_rgba_box_2x;
use remote_desktop::pixels::rgba_to_rgb_inplace;

#[test]
fn alpha_is_dropped() {
    let src = [1, 2, 3, 255, 4, 5, 6, 254, 7, 8, 9, 253];
    let mut dst = [0u8; 11];
    dst[9] = 0xAA;
    dst[10] = 0xBB;
    rgba_to_rgb_inplace(&mut dst, &src);
    assert_eq!(dst, [1, 2, 3, 4, 5, 6, 7, 8, 9, 0xAA, 0xBB]);
}

#[test]
fn incomplete_last_pixel_is_ignored() {
    let src = [1, 2, 3, 255, 4, 5];
    let mut dst = [9u8; 4];
    rgba_to_rgb_inplace(&mut dst, &src);
    assert_eq!(dst, [1, 2, 3, 9]);
    let mut untouched = [7u8; 2];
    rgba_to_rgb_inplace(&mut untouched, &[]);
    assert_eq!(untouched, [7, 7]);
}

#[test]
fn box_filter_takes_the_mean_rounded_down() {
    let src = [
        10, 0, 255, 1, 20, 0, 255, 2, 100, 100, 100, 100, 100, 100, 100, 100,
        30, 0, 255, 3, 41, 3, 254, 4, 100, 100, 100, 100, 104, 100, 100, 100,
    ];
    let mut dst = [0xEEu8; 10];
    let dims = downscale_rgba_box_2x(&mut dst, &src, 4, 2);
    assert_eq!(dims, (2, 1));
    assert_eq!(dst, [25, 0, 254, 2, 101, 100, 100, 100, 0xEE, 0xEE]);
}

#[test]
fn odd_last_column_and_row_are_left_out() {
    let mut src = vec![0u8; 3 * 3 * 4];
    for (i, value) in src.iter_mut().enumerate() {
        *value = i as u8;
    }
    let mut dst = [0u8; 4];
    let dims = downscale_rgba_box_2x(&mut dst, &src, 3, 3);
    assert_eq!(dims, (1, 1));
    assert_eq!(dst, [8, 9, 10, 11]);
    let mut nothing: [u8; 0] = [];
    assert_eq!(downscale_rgba_box_2x(&mut nothing, &[1, 2, 3, 4], 1, 1), (0, 0));
}

#[test]
fn downscaled_rows_are_tightly_packed() {
    let mut src = vec![0u8; 4 * 4 * 4];
    let mut y: usize = 0;
    while y < 4 {
        let mut x: usize = 0;
        while x < 4 {
            let at = (y * 4 + x) * 4;
            src[at] = (y / 2 * 2 + x / 2) as u8 * 10;
            src[at + 3] = 255;
            x += 1;
        }
        y += 1;
    }
    let mut dst = vec![1u8; 16];
    assert_eq!(downscale_rgba_box_2x(&mut dst, &src, 4, 4), (2, 2));
    assert_eq!(dst, vec![0, 0, 0, 255, 10, 0, 0, 255, 20, 0, 0, 255, 30, 0, 0, 255]);
}
