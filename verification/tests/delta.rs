use remote_desktop::delta::DEFAULT_BLOCK_SIZE;
use remote_desktop::delta::DiffConfig;
use remote_desktop::delta::DirtyRect;
use remote_desktop::delta::FramePlan;
use remote_desktop::delta::PlanKind;
use remote_desktop::delta::calculate_frame_changes;
use remote_desktop::delta::check_frame_size;
use remote_desktop::delta::classify;
use remote_desktop::delta::copy_region;
use remote_desktop::delta::diff_frames;
use remote_desktop::delta::plan_frame;
use remote_desktop::delta::region_changed;
use remote_desktop::payload::DeltaError;
use remote_desktop::payload::encode_delta;
use remote_desktop::payload::parse_delta_payload;
use remote_desktop::payload::serialize_rects;

fn solid(width: usize, height: usize, value: u8) -> Vec<u8> {
    vec![value; width * height * 4]
}

fn paint(frame: &mut Vec<u8>, width: usize, x: usize, y: usize, w: usize, h: usize, value: u8) {
    let mut row = y;
    while row < y + h {
        let mut col = x;
        while col < x + w {
            let at = (row * width + col) * 4;
            frame[at] = value;
            frame[at + 1] = value;
            frame[at + 2] = value;
            frame[at + 3] = 255;
            col += 1;
        }
        row += 1;
    }
}

#[test]
fn identical_frames_have_no_rects() {
    let prev = solid(800, 600, 0);
    let cur = solid(800, 600, 0);
    let delta = diff_frames(&prev, &cur, 800, 600, 128);
    assert_eq!(delta.rects.len(), 0);
    assert_eq!(delta.changed_pixels, 0);
}

#[test]
fn identical_patterned_frames_have_no_rects_for_any_block_size() {
    let mut frame = solid(37, 23, 9);
    paint(&mut frame, 37, 5, 7, 11, 3, 200);
    for block in [1usize, 2, 7, 16, 37, 128, 1000] {
        let delta = diff_frames(&frame, &frame, 37, 23, block);
        assert_eq!(delta.rects.len(), 0);
        assert_eq!(delta.changed_pixels, 0);
    }
}

#[test]
fn one_changed_square_at_origin_gives_one_block() {
    let prev = solid(800, 600, 0);
    let mut cur = solid(800, 600, 0);
    paint(&mut cur, 800, 0, 0, 50, 50, 255);
    let delta = diff_frames(&prev, &cur, 800, 600, 128);
    assert_eq!(delta.rects.len(), 1);
    let rect = &delta.rects[0];
    assert_eq!((rect.x, rect.y, rect.w, rect.h), (0, 0, 128, 128));
    assert!(rect.w <= 128 && rect.h <= 128);
    assert_eq!(rect.pixels.len(), 128 * 128 * 4);
    assert_eq!(delta.changed_pixels, 128 * 128);
    assert_eq!(rect.pixels, copy_region(&cur, 800, 600, 0, 0, 128, 128));
    let kind = classify(delta.rects.len(), delta.changed_pixels, 800 * 600, 1, 2);
    assert_eq!(kind, PlanKind::Delta);
    assert!(delta.changed_pixels * 2 < 800 * 600);
}

#[test]
fn one_changed_square_is_planned_as_delta() {
    let prev = solid(800, 600, 0);
    let mut cur = solid(800, 600, 0);
    paint(&mut cur, 800, 0, 0, 50, 50, 255);
    match plan_frame(&prev, &cur, 800, 600, &DiffConfig::default()) {
        FramePlan::Delta(delta) => {
            assert_eq!(delta.rects.len(), 1);
            assert_eq!(delta.changed_pixels, 16384);
        }
        other => panic!("expected a delta, got {:?}", other),
    }
}

#[test]
fn every_block_changed_counts_every_pixel_and_sends_full_frame() {
    let prev = solid(800, 600, 0);
    let cur = solid(800, 600, 1);
    let delta = diff_frames(&prev, &cur, 800, 600, 128);
    assert_eq!(delta.rects.len(), 7 * 5);
    assert_eq!(delta.changed_pixels, 800 * 600);
    assert_eq!(classify(35, 800 * 600, 800 * 600, 1, 2), PlanKind::Full);
    assert!(matches!(
        plan_frame(&prev, &cur, 800, 600, &DiffConfig::default()),
        FramePlan::Full
    ));
}

#[test]
fn blocks_at_the_edges_are_clipped() {
    let prev = solid(300, 200, 0);
    let cur = solid(300, 200, 5);
    let delta = diff_frames(&prev, &cur, 300, 200, 128);
    let shapes: Vec<(u32, u32, u32, u32)> =
        delta.rects.iter().map(|r| (r.x, r.y, r.w, r.h)).collect();
    assert_eq!(
        shapes,
        vec![
            (0, 0, 128, 128),
            (128, 0, 128, 128),
            (256, 0, 44, 128),
            (0, 128, 128, 72),
            (128, 128, 128, 72),
            (256, 128, 44, 72),
        ]
    );
    for rect in &delta.rects {
        assert_eq!(rect.pixels.len(), (rect.w * rect.h * 4) as usize);
    }
    assert_eq!(delta.changed_pixels, 300 * 200);
}

#[test]
fn a_single_byte_marks_its_whole_block() {
    let prev = solid(256, 256, 0);
    let mut cur = solid(256, 256, 0);
    cur[(200 * 256 + 130) * 4 + 3] = 1;
    let delta = diff_frames(&prev, &cur, 256, 256, 128);
    assert_eq!(delta.rects.len(), 1);
    let rect = &delta.rects[0];
    assert_eq!((rect.x, rect.y, rect.w, rect.h), (128, 128, 128, 128));
    assert_eq!(delta.changed_pixels, 128 * 128);
}

#[test]
fn region_changed_sees_only_its_own_rectangle() {
    let prev = solid(16, 16, 0);
    let mut cur = solid(16, 16, 0);
    cur[(5 * 16 + 9) * 4] = 7;
    assert!(region_changed(&prev, &cur, 16, 16, 8, 4, 4, 4));
    assert!(!region_changed(&prev, &cur, 16, 16, 0, 0, 8, 16));
    assert!(!region_changed(&prev, &cur, 16, 16, 8, 6, 8, 10));
    assert!(!region_changed(&prev, &cur, 16, 16, 9, 5, 0, 1));
}

#[test]
fn copy_region_takes_rows_out_of_the_frame() {
    let mut frame = Vec::new();
    let mut i: usize = 0;
    while i < 4 * 3 * 4 {
        frame.push(i as u8);
        i += 1;
    }
    let region = copy_region(&frame, 4, 3, 1, 1, 2, 2);
    assert_eq!(
        region,
        vec![20, 21, 22, 23, 24, 25, 26, 27, 36, 37, 38, 39, 40, 41, 42, 43]
    );
    assert!(copy_region(&frame, 4, 3, 4, 3, 0, 0).is_empty());
}

#[test]
fn classification_follows_the_threshold_exactly() {
    assert_eq!(classify(0, 0, 100, 1, 2), PlanKind::Idle);
    assert_eq!(classify(0, 0, 0, 1, 2), PlanKind::Idle);
    assert_eq!(classify(3, 50, 100, 1, 2), PlanKind::Delta);
    assert_eq!(classify(3, 51, 100, 1, 2), PlanKind::Full);
    assert_eq!(classify(1, 1, 3, 1, 3), PlanKind::Delta);
    assert_eq!(classify(1, 2, 3, 1, 3), PlanKind::Full);
    assert_eq!(classify(9, 100, 100, 1, 1), PlanKind::Delta);
    assert_eq!(classify(9, 1, 100, 0, 1), PlanKind::Full);
    assert_eq!(
        classify(1, usize::MAX, usize::MAX, u32::MAX - 1, u32::MAX),
        PlanKind::Full
    );
}

#[test]
fn config_rejects_zero_block_and_zero_denominator() {
    assert_eq!(DiffConfig::new(0, 1, 2), None);
    assert_eq!(DiffConfig::new(128, 1, 0), None);
    assert_eq!(
        DiffConfig::new(256, 3, 4),
        Some(DiffConfig { block_size: 256, threshold_num: 3, threshold_den: 4 })
    );
    assert_eq!(
        DiffConfig::default(),
        DiffConfig { block_size: DEFAULT_BLOCK_SIZE, threshold_num: 1, threshold_den: 2 }
    );
    assert_eq!(DEFAULT_BLOCK_SIZE, 128);
}

#[test]
fn frame_size_check_is_exact() {
    assert!(check_frame_size(800 * 600 * 4, 800, 600));
    assert!(!check_frame_size(800 * 600 * 4 - 1, 800, 600));
    assert!(!check_frame_size(800 * 600 * 4 + 1, 800, 600));
    assert!(check_frame_size(0, 0, 600));
    assert!(check_frame_size(0, 0, 0));
    assert!(!check_frame_size(0, 0x1_0000_0000, 0));
}

#[test]
fn mismatched_buffers_force_a_full_frame() {
    let cur = solid(8, 8, 1);
    let config = DiffConfig::default();
    assert!(matches!(plan_frame(&[], &cur, 8, 8, &config), FramePlan::Full));
    assert!(matches!(plan_frame(&solid(8, 7, 1), &cur, 8, 8, &config), FramePlan::Full));
    assert!(matches!(plan_frame(&cur, &cur, 8, 9, &config), FramePlan::Full));
    assert!(matches!(plan_frame(&cur, &cur, 8, 8, &config), FramePlan::Idle));
}

#[test]
fn configured_threshold_and_block_size_are_used() {
    let prev = solid(64, 64, 0);
    let mut cur = solid(64, 64, 0);
    paint(&mut cur, 64, 0, 0, 1, 1, 9);
    let fine = DiffConfig::new(16, 1, 2).unwrap();
    match plan_frame(&prev, &cur, 64, 64, &fine) {
        FramePlan::Delta(delta) => {
            assert_eq!(delta.rects.len(), 1);
            assert_eq!(delta.changed_pixels, 256);
        }
        other => panic!("expected a delta, got {:?}", other),
    }
    let strict = DiffConfig::new(16, 1, 100).unwrap();
    assert!(matches!(plan_frame(&prev, &cur, 64, 64, &strict), FramePlan::Full));
    let coarse = DiffConfig::new(64, 1, 2).unwrap();
    assert!(matches!(plan_frame(&prev, &cur, 64, 64, &coarse), FramePlan::Full));
}

#[test]
fn calculate_frame_changes_writes_headers_and_pixels() {
    let mut prev = solid(130, 2, 0);
    let mut cur = solid(130, 2, 0);
    paint(&mut cur, 130, 129, 1, 1, 1, 7);
    let before = prev.clone();
    let (bytes, count, changed) = calculate_frame_changes(&mut prev, 130, 2, &cur);
    assert_eq!(prev, before);
    assert_eq!(count, 1);
    assert_eq!(changed, 4);
    let mut expected = vec![0, 0, 0, 128, 0, 0, 0, 0, 0, 0, 0, 2, 0, 0, 0, 2];
    expected.extend_from_slice(&[0, 0, 0, 0, 0, 0, 0, 0]);
    expected.extend_from_slice(&[0, 0, 0, 0, 7, 7, 7, 255]);
    assert_eq!(bytes, expected);
}

#[test]
fn calculate_frame_changes_on_identical_frames_is_empty() {
    let mut prev = solid(800, 600, 0);
    let cur = solid(800, 600, 0);
    let (bytes, count, changed) = calculate_frame_changes(&mut prev, 800, 600, &cur);
    assert!(bytes.is_empty());
    assert_eq!(count, 0);
    assert_eq!(changed, 0);
}

#[test]
fn delta_payload_round_trip() {
    let rects = vec![
        DirtyRect { x: 1, y: 2, w: 2, h: 1, pixels: vec![1, 2, 3, 4, 5, 6, 7, 8] },
        DirtyRect { x: 0x0102_0304, y: 0, w: 0, h: 9, pixels: vec![] },
        DirtyRect { x: 0, y: 0, w: 1, h: 1, pixels: vec![9, 9, 9, 9] },
    ];
    let payload = encode_delta(&rects).unwrap();
    assert_eq!(&payload[0..4], &[0, 0, 0, 3]);
    assert_eq!(payload.len(), 4 + 3 * 16 + 8 + 4);
    assert_eq!(&payload[4..], &serialize_rects(&rects)[..]);
    let back = parse_delta_payload(&payload).unwrap();
    assert_eq!(back.len(), 3);
    let mut i: usize = 0;
    while i < 3 {
        assert_eq!(
            (back[i].x, back[i].y, back[i].w, back[i].h),
            (rects[i].x, rects[i].y, rects[i].w, rects[i].h)
        );
        assert_eq!(back[i].pixels, rects[i].pixels);
        i += 1;
    }
}

#[test]
fn empty_rect_list_is_four_zero_bytes() {
    let payload = encode_delta(&Vec::new()).unwrap();
    assert_eq!(payload, vec![0, 0, 0, 0]);
    assert!(parse_delta_payload(&payload).unwrap().is_empty());
}

#[test]
fn truncated_payloads_are_told_apart() {
    assert_eq!(parse_delta_payload(&[]).unwrap_err(), DeltaError::TruncatedCount);
    assert_eq!(parse_delta_payload(&[0, 0, 0]).unwrap_err(), DeltaError::TruncatedCount);
    assert_eq!(parse_delta_payload(&[0, 0, 0, 1]).unwrap_err(), DeltaError::TruncatedRect);
    let mut short_header = vec![0, 0, 0, 1];
    short_header.extend_from_slice(&[0; 15]);
    assert_eq!(parse_delta_payload(&short_header).unwrap_err(), DeltaError::TruncatedRect);
    let mut short_pixels = vec![0, 0, 0, 1];
    short_pixels.extend_from_slice(&[0, 0, 0, 0, 0, 0, 0, 0, 0, 0, 0, 1, 0, 0, 0, 1]);
    short_pixels.extend_from_slice(&[1, 2, 3]);
    assert_eq!(parse_delta_payload(&short_pixels).unwrap_err(), DeltaError::TruncatedPixels);
    let mut huge = vec![0, 0, 0, 1];
    huge.extend_from_slice(&[0, 0, 0, 0, 0, 0, 0, 0, 0xFF, 0xFF, 0xFF, 0xFF, 0xFF, 0xFF, 0xFF, 0xFF]);
    assert_eq!(parse_delta_payload(&huge).unwrap_err(), DeltaError::TruncatedPixels);
    let mut second_missing = vec![0, 0, 0, 2];
    second_missing.extend_from_slice(&[0, 0, 0, 0, 0, 0, 0, 0, 0, 0, 0, 1, 0, 0, 0, 1, 5, 6, 7, 8]);
    assert_eq!(parse_delta_payload(&second_missing).unwrap_err(), DeltaError::TruncatedRect);
}

#[test]
fn bytes_behind_the_last_rect_are_ignored() {
    let mut payload = vec![0, 0, 0, 1];
    payload.extend_from_slice(&[0, 0, 0, 3, 0, 0, 0, 4, 0, 0, 0, 1, 0, 0, 0, 1, 5, 6, 7, 8]);
    payload.extend_from_slice(&[0xAA; 10]);
    let rects = parse_delta_payload(&payload).unwrap();
    assert_eq!(rects.len(), 1);
    assert_eq!((rects[0].x, rects[0].y, rects[0].w, rects[0].h), (3, 4, 1, 1));
    assert_eq!(rects[0].pixels, vec![5, 6, 7, 8]);
}

#[test]
fn record_list_has_sixteen_bytes_for_each_rect_and_four_for_each_pixel() {
    let mut prev = solid(300, 200, 0);
    let cur = solid(300, 200, 5);
    let (bytes, count, changed) = calculate_frame_changes(&mut prev, 300, 200, &cur);
    assert_eq!(count, 3 * 2);
    assert_eq!(changed, 300 * 200);
    assert_eq!(bytes.len(), 16 * 6 + 4 * 300 * 200);
    let mut one = solid(300, 200, 0);
    one[(199 * 300 + 299) * 4] = 1;
    let (bytes, count, changed) = calculate_frame_changes(&mut prev, 300, 200, &one);
    assert_eq!((count, changed), (1, 44 * 72));
    assert_eq!(bytes.len(), 16 + 4 * 44 * 72);
}
