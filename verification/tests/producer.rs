use remote_desktop::client::handle_frame_delta as client_handle_frame_delta;
use remote_desktop::codec::unpack;
use remote_desktop::codec::unpack_delta;
use remote_desktop::delta::DiffConfig;
use remote_desktop::delta::DirtyRect;
use remote_desktop::framebuffer::Framebuffer;
use remote_desktop::message_type::MessageType;
use remote_desktop::producer::FrameStep;
use remote_desktop::producer::StillConfig;
use remote_desktop::producer::Subsampling;
use remote_desktop::producer::close_batch;
use remote_desktop::producer::MAX_SURE_BLOCK;
use remote_desktop::producer::check_fits_message;
use remote_desktop::producer::delta_batch;
use remote_desktop::producer::handle_frame_delta;
use remote_desktop::producer::handle_frame_delta_with;
use remote_desktop::wire::Message;

fn black(width: usize, height: usize) -> Vec<u8> {
    vec![0u8; width * height * 4]
}

fn single_delta(step: FrameStep) -> Vec<u8> {
    let mut messages = match step {
        FrameStep::Send(messages) => messages,
        other => panic!("expected a delta, got {:?}", other),
    };
    assert_eq!(messages.len(), 2);
    assert_eq!(messages[1].msg_type, MessageType::FrameEnd);
    assert!(messages[1].payload.is_empty());
    assert_eq!(messages[0].msg_type, MessageType::FrameDelta);
    messages.swap_remove(0).payload
}

#[test]
fn two_identical_black_frames_give_full_then_frame_end() {
    let mut prev: Vec<u8> = Vec::new();
    let first = handle_frame_delta(&mut prev, 800, 600, black(800, 600));
    assert!(matches!(first, FrameStep::EncodeFull));
    assert_eq!(prev, black(800, 600));
    let second = handle_frame_delta(&mut prev, 800, 600, black(800, 600));
    match second {
        FrameStep::Send(messages) => {
            assert_eq!(messages.len(), 1);
            assert_eq!(messages[0].msg_type, MessageType::FrameEnd);
            assert!(messages[0].payload.is_empty());
        }
        other => panic!("expected the sentinel, got {:?}", other),
    }
    assert_eq!(prev, black(800, 600));
}

#[test]
fn small_change_is_sent_as_compressed_delta() {
    let mut prev = black(800, 600);
    let mut cur = black(800, 600);
    let mut row: usize = 0;
    while row < 50 {
        let mut col: usize = 0;
        while col < 50 {
            let at = (row * 800 + col) * 4;
            cur[at] = 200;
            cur[at + 3] = 255;
            col += 1;
        }
        row += 1;
    }
    let step = handle_frame_delta(&mut prev, 800, 600, cur.clone());
    assert_eq!(prev, cur);
    let payload = single_delta(step);
    let raw = unpack(&payload).unwrap();
    assert_eq!(&raw[0..4], &[0, 0, 0, 1]);
    assert_eq!(&raw[4..20], &[0, 0, 0, 0, 0, 0, 0, 0, 0, 0, 0, 128, 0, 0, 0, 128]);
    assert_eq!(raw.len(), 4 + 16 + 128 * 128 * 4);
    let rects = unpack_delta(&payload).unwrap();
    assert_eq!(rects.len(), 1);
    assert!(rects[0].w <= 128 && rects[0].h <= 128);
    assert_eq!((rects[0].x, rects[0].y), (0, 0));
}

#[test]
fn delta_sent_by_the_producer_rebuilds_the_frame_at_the_client() {
    let start = black(300, 200);
    let mut prev = start.clone();
    let mut cur = start.clone();
    cur[(150 * 300 + 299) * 4 + 1] = 77;
    cur[0] = 1;
    let step = handle_frame_delta(&mut prev, 300, 200, cur.clone());
    let payload = single_delta(step);
    let mut fb = Framebuffer::new();
    fb.apply_full(300, 200, &start).unwrap();
    let raw = unpack(&payload).unwrap();
    assert_eq!(client_handle_frame_delta(&raw, &mut fb), Ok(0));
    assert_eq!(fb.pixels(), &cur[..]);
}

#[test]
fn large_change_is_sent_as_full_frame() {
    let mut prev = black(256, 256);
    let mut cur = black(256, 256);
    let mut i: usize = 0;
    while i < cur.len() / 2 + 4 * 256 * 128 {
        cur[i] = 1;
        i += 1;
    }
    let step = handle_frame_delta(&mut prev, 256, 256, cur.clone());
    assert!(matches!(step, FrameStep::EncodeFull));
    assert_eq!(prev, cur);
}

#[test]
fn exactly_half_changed_is_still_a_delta() {
    let mut prev = black(256, 256);
    let mut cur = black(256, 256);
    cur[0] = 1;
    cur[128 * 4] = 1;
    let step = handle_frame_delta(&mut prev, 256, 256, cur);
    let payload = single_delta(step);
    assert_eq!(unpack_delta(&payload).unwrap().len(), 2);
}

#[test]
fn dimension_change_forces_a_full_frame() {
    let mut prev = black(800, 600);
    let step = handle_frame_delta(&mut prev, 640, 480, black(640, 480));
    assert!(matches!(step, FrameStep::EncodeFull));
    assert_eq!(prev.len(), 640 * 480 * 4);
    let wrong_len = handle_frame_delta(&mut prev, 640, 480, black(640, 479));
    assert!(matches!(wrong_len, FrameStep::EncodeFull));
    assert_eq!(prev.len(), 640 * 479 * 4);
}

#[test]
fn configured_block_size_shapes_the_delta() {
    let mut prev = black(64, 64);
    let mut cur = black(64, 64);
    cur[(40 * 64 + 40) * 4] = 5;
    let config = DiffConfig::new(32, 1, 2).unwrap();
    let step = handle_frame_delta_with(&mut prev, 64, 64, cur, &config);
    let payload = single_delta(step);
    let rects = unpack_delta(&payload).unwrap();
    assert_eq!(rects.len(), 1);
    assert_eq!((rects[0].x, rects[0].y, rects[0].w, rects[0].h), (32, 32, 32, 32));
}

#[test]
fn every_batch_ends_with_the_sentinel() {
    let delta = close_batch(Message { msg_type: MessageType::FrameDelta, payload: vec![1, 2] });
    assert_eq!(delta.len(), 2);
    assert_eq!(delta[0].msg_type, MessageType::FrameDelta);
    assert_eq!(delta[0].payload, vec![1, 2]);
    assert_eq!(delta[1].msg_type, MessageType::FrameEnd);
    assert!(delta[1].payload.is_empty());
    let full = close_batch(Message { msg_type: MessageType::FrameFull, payload: vec![9] });
    assert_eq!(full.len(), 2);
    assert_eq!(full[1].msg_type, MessageType::FrameEnd);
    let idle = close_batch(Message { msg_type: MessageType::FrameEnd, payload: Vec::new() });
    assert_eq!(idle.len(), 1);
    assert_eq!(idle[0].msg_type, MessageType::FrameEnd);
}

#[test]
fn long_list_goes_out_in_several_delta_messages() {
    let start = black(2048, 2048);
    let mut prev = start.clone();
    let mut cur = start.clone();
    cur[0] = 1;
    cur[1500 * 4 + 1] = 2;
    cur[(1500 * 2048 + 3) * 4 + 2] = 3;
    cur[(2047 * 2048 + 2047) * 4 + 3] = 4;
    let config = DiffConfig::new(1024, 1, 1).unwrap();
    let step = handle_frame_delta_with(&mut prev, 2048, 2048, cur.clone(), &config);
    assert_eq!(prev, cur);
    let messages = match step {
        FrameStep::Send(messages) => messages,
        other => panic!("expected delta messages, got {:?}", other),
    };
    assert_eq!(messages.len(), 3);
    assert_eq!(messages[0].msg_type, MessageType::FrameDelta);
    assert_eq!(messages[1].msg_type, MessageType::FrameDelta);
    assert_eq!(messages[2].msg_type, MessageType::FrameEnd);
    assert!(messages[2].payload.is_empty());
    let first = unpack_delta(&messages[0].payload).unwrap();
    let second = unpack_delta(&messages[1].payload).unwrap();
    assert_eq!(first.len(), 3);
    assert_eq!(second.len(), 1);
    assert_eq!((first[0].x, first[0].y), (0, 0));
    assert_eq!((first[1].x, first[1].y), (1024, 0));
    assert_eq!((first[2].x, first[2].y), (0, 1024));
    assert_eq!((second[0].x, second[0].y, second[0].w, second[0].h), (1024, 1024, 1024, 1024));
    assert_eq!(unpack(&messages[0].payload).unwrap().len(), 4 + 3 * (16 + 1024 * 1024 * 4));
    let mut fb = Framebuffer::new();
    fb.apply_full(2048, 2048, &start).unwrap();
    let mut i: usize = 0;
    while i + 1 < messages.len() {
        let raw = unpack(&messages[i].payload).unwrap();
        assert_eq!(client_handle_frame_delta(&raw, &mut fb), Ok(0));
        i += 1;
    }
    assert_eq!(fb.pixels(), &cur[..]);
}

#[test]
fn rectangle_that_fits_no_message_is_replaced_by_a_full_frame() {
    let mut prev = black(2048, 2048);
    let mut cur = black(2048, 2048);
    cur[0] = 1;
    let config = DiffConfig::new(2048, 1, 1).unwrap();
    let step = handle_frame_delta_with(&mut prev, 2048, 2048, cur.clone(), &config);
    assert!(matches!(step, FrameStep::EncodeFull));
    assert_eq!(prev, cur);
}

#[test]
fn batch_of_a_list_is_its_delta_messages_and_the_sentinel() {
    assert_eq!(MAX_SURE_BLOCK, 1952);
    let alone = delta_batch(&Vec::new()).unwrap();
    assert_eq!(alone.len(), 1);
    assert_eq!(alone[0].msg_type, MessageType::FrameEnd);
    let rects = vec![
        DirtyRect { x: 0, y: 0, w: 1, h: 2, pixels: vec![1, 2, 3, 4, 5, 6, 7, 8] },
        DirtyRect { x: 9, y: 7, w: 1, h: 1, pixels: vec![9, 9, 9, 9] },
    ];
    let batch = delta_batch(&rects).unwrap();
    assert_eq!(batch.len(), 2);
    assert_eq!(batch[0].msg_type, MessageType::FrameDelta);
    assert_eq!(batch[1].msg_type, MessageType::FrameEnd);
    let back = unpack_delta(&batch[0].payload).unwrap();
    assert_eq!(back.len(), 2);
    assert_eq!((back[0].x, back[0].y, back[0].w, back[0].h), (0, 0, 1, 2));
    assert_eq!(back[0].pixels, vec![1, 2, 3, 4, 5, 6, 7, 8]);
    assert_eq!((back[1].x, back[1].y, back[1].w, back[1].h), (9, 7, 1, 1));
    assert_eq!(back[1].pixels, vec![9, 9, 9, 9]);
    let short = vec![DirtyRect { x: 0, y: 0, w: 2, h: 2, pixels: vec![0; 15] }];
    assert!(delta_batch(&short).is_none());
    assert!(!check_fits_message(&short[0]));
    let edge = DirtyRect { x: 0, y: 0, w: 1952, h: 1952, pixels: vec![0; 1952 * 1952 * 4] };
    assert!(check_fits_message(&edge));
    let over = DirtyRect { x: 0, y: 0, w: 1953, h: 1953, pixels: vec![0; 1953 * 1953 * 4] };
    assert!(!check_fits_message(&over));
    assert!(delta_batch(&vec![over]).is_none());
}

#[test]
fn still_image_quality_lies_between_one_and_a_hundred() {
    assert_eq!(StillConfig::new(0, Subsampling::Full), None);
    assert_eq!(StillConfig::new(101, Subsampling::Half), None);
    assert_eq!(
        StillConfig::new(1, Subsampling::Half),
        Some(StillConfig { quality: 1, subsampling: Subsampling::Half })
    );
    assert_eq!(
        StillConfig::new(100, Subsampling::Full),
        Some(StillConfig { quality: 100, subsampling: Subsampling::Full })
    );
    assert_eq!(
        StillConfig::default(),
        StillConfig { quality: 80, subsampling: Subsampling::Quarter }
    );
}
