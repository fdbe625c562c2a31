use remote_desktop::capture::CaptureError;
use remote_desktop::capture::ScreenCapturer;
use remote_desktop::capture::StubCapturer;
use remote_desktop::capture::bgra_to_rgba;
use remote_desktop::capture::strip_row_padding;
use remote_desktop::capture::swap_red_blue;

#[test]
fn stub_capturer_never_yields_a_frame() {
    let mut capturer = StubCapturer::new().unwrap();
    assert_eq!(capturer.capture_frame(), Err(CaptureError::Unsupported));
    assert_eq!(capturer.capture_frame(), Err(CaptureError::Unsupported));
}

#[test]
fn padding_at_the_end_of_rows_is_removed() {
    let data = vec![
        1, 2, 3, 4, 5, 6, 7, 8, 0xEE, 0xEE, 0xEE, 0xEE,
        9, 10, 11, 12, 13, 14, 15, 16, 0xEE, 0xEE, 0xEE, 0xEE,
        17, 18, 19, 20, 21, 22, 23, 24,
    ];
    assert_eq!(
        strip_row_padding(&data, 2, 3, 12),
        vec![1, 2, 3, 4, 5, 6, 7, 8, 9, 10, 11, 12, 13, 14, 15, 16, 17, 18, 19, 20, 21, 22, 23, 24]
    );
    assert_eq!(strip_row_padding(&data, 2, 1, 12), vec![1, 2, 3, 4, 5, 6, 7, 8]);
    assert!(strip_row_padding(&data, 2, 0, 12).is_empty());
    assert!(strip_row_padding(&[], 0, 5, 0).is_empty());
}

#[test]
fn rows_without_padding_are_copied() {
    let data: Vec<u8> = (0u8..32).collect();
    assert_eq!(strip_row_padding(&data, 4, 2, 16), data);
}

#[test]
fn red_and_blue_change_places() {
    let mut buf = vec![1, 2, 3, 4, 10, 20, 30, 40];
    swap_red_blue(&mut buf);
    assert_eq!(buf, vec![3, 2, 1, 4, 30, 20, 10, 40]);
    let mut empty: Vec<u8> = Vec::new();
    swap_red_blue(&mut empty);
    assert!(empty.is_empty());
}

#[test]
fn captured_image_is_repacked_as_rgba() {
    let bytes = vec![
        30, 20, 10, 255, 31, 21, 11, 254, 0, 0,
        32, 22, 12, 253, 33, 23, 13, 252, 0, 0,
    ];
    assert_eq!(
        bgra_to_rgba(&bytes, 2, 2, 10),
        vec![10, 20, 30, 255, 11, 21, 31, 254, 12, 22, 32, 253, 13, 23, 33, 252]
    );
}
