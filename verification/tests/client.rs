use remote_desktop::client::FrameUpdate;
use remote_desktop::client::Intake;
use remote_desktop::client::UpdateError;
use remote_desktop::client::UserEvent;
use remote_desktop::client::apply_update;
use remote_desktop::client::apply_updates;
use remote_desktop::client::handle_frame_delta;
use remote_desktop::client::handle_frame_full;
use remote_desktop::client::intake_delta;
use remote_desktop::client::intake_full;
use remote_desktop::codec::CodecError;
use remote_desktop::codec::pack;
use remote_desktop::delta::DirtyRect;
use remote_desktop::framebuffer::FrameError;
use remote_desktop::framebuffer::Framebuffer;
use remote_desktop::payload::DeltaError;
use remote_desktop::payload::encode_delta;

fn one_pixel_delta(x: u32, y: u32, value: u8) -> Vec<u8> {
    encode_delta(&vec![DirtyRect { x, y, w: 1, h: 1, pixels: vec![value; 4] }]).unwrap()
}

#[test]
fn user_events_are_distinct() {
    assert_ne!(UserEvent::NewUpdate, UserEvent::Redraw);
    assert_eq!(UserEvent::Redraw, UserEvent::Redraw);
}

#[test]
fn full_frame_handler_replaces_the_framebuffer() {
    let mut fb = Framebuffer::new();
    assert_eq!(handle_frame_full(2, 1, &[1, 2, 3, 4, 5, 6, 7, 8], &mut fb), Ok(()));
    assert_eq!((fb.width(), fb.height()), (2, 1));
    assert_eq!(fb.pixels(), &[1, 2, 3, 4, 5, 6, 7, 8]);
    assert_eq!(handle_frame_full(2, 2, &[0; 8], &mut fb), Err(FrameError::InvalidLength));
    assert_eq!(fb.pixels(), &[1, 2, 3, 4, 5, 6, 7, 8]);
}

#[test]
fn delta_handler_applies_rects_and_counts_dropped_ones() {
    let mut fb = Framebuffer::new();
    fb.apply_full(2, 2, &[0; 16]).unwrap();
    let payload = encode_delta(&vec![
        DirtyRect { x: 1, y: 1, w: 1, h: 1, pixels: vec![7; 4] },
        DirtyRect { x: 2, y: 0, w: 1, h: 1, pixels: vec![8; 4] },
    ])
    .unwrap();
    assert_eq!(handle_frame_delta(&payload, &mut fb), Ok(1));
    assert_eq!(fb.pixels(), &[0, 0, 0, 0, 0, 0, 0, 0, 0, 0, 0, 0, 7, 7, 7, 7]);
}

#[test]
fn truncated_delta_is_an_error_and_changes_nothing() {
    let mut fb = Framebuffer::new();
    fb.apply_full(2, 2, &[3; 16]).unwrap();
    let mut payload = encode_delta(&vec![
        DirtyRect { x: 0, y: 0, w: 1, h: 1, pixels: vec![7; 4] },
        DirtyRect { x: 1, y: 0, w: 1, h: 1, pixels: vec![8; 4] },
    ])
    .unwrap();
    payload.truncate(payload.len() - 1);
    assert_eq!(handle_frame_delta(&payload, &mut fb), Err(DeltaError::TruncatedPixels));
    assert_eq!(fb.pixels(), &[3; 16]);
    assert_eq!(handle_frame_delta(&[0, 0], &mut fb), Err(DeltaError::TruncatedCount));
    assert_eq!(handle_frame_delta(&[0, 0, 0, 0], &mut fb), Ok(0));
    assert_eq!(fb.pixels(), &[3; 16]);
}

#[test]
fn single_update_reports_why_it_was_not_applied() {
    let mut fb = Framebuffer::new();
    let bad_full = FrameUpdate::Full { w: 1, h: 1, bytes: vec![1, 2, 3] };
    assert_eq!(apply_update(&mut fb, &bad_full), Err(UpdateError::Frame(FrameError::InvalidLength)));
    let bad_delta = FrameUpdate::Delta(vec![0, 0, 0, 1]);
    assert_eq!(
        apply_update(&mut fb, &bad_delta),
        Err(UpdateError::Delta(DeltaError::TruncatedRect))
    );
    let good = FrameUpdate::Full { w: 1, h: 1, bytes: vec![1, 2, 3, 4] };
    assert_eq!(apply_update(&mut fb, &good), Ok(()));
    assert_eq!(fb.pixels(), &[1, 2, 3, 4]);
}

#[test]
fn all_waiting_updates_are_applied_before_a_redraw() {
    let mut fb = Framebuffer::new();
    let updates = vec![
        FrameUpdate::Full { w: 2, h: 1, bytes: vec![0; 8] },
        FrameUpdate::Delta(one_pixel_delta(0, 0, 5)),
        FrameUpdate::Delta(vec![0, 0, 0, 9]),
        FrameUpdate::Full { w: 2, h: 1, bytes: vec![0; 7] },
        FrameUpdate::Delta(one_pixel_delta(1, 0, 6)),
    ];
    assert!(apply_updates(&mut fb, &updates));
    assert_eq!(fb.pixels(), &[5, 5, 5, 5, 6, 6, 6, 6]);
}

#[test]
fn no_updates_mean_no_redraw() {
    let mut fb = Framebuffer::new();
    fb.apply_full(1, 1, &[1, 2, 3, 4]).unwrap();
    assert!(!apply_updates(&mut fb, &Vec::new()));
    assert_eq!(fb.pixels(), &[1, 2, 3, 4]);
}

#[test]
fn decoded_full_frame_is_queued_or_ends_the_session() {
    match intake_full(2, 1, vec![1, 2, 3, 4, 5, 6, 7, 8]) {
        Intake::Queue(FrameUpdate::Full { w, h, bytes }) => {
            assert_eq!((w, h), (2, 1));
            assert_eq!(bytes, vec![1, 2, 3, 4, 5, 6, 7, 8]);
        }
        other => panic!("expected the frame to be queued, got {:?}", other),
    }
    let wrong = intake_full(2, 2, vec![0; 8]);
    assert!(matches!(wrong, Intake::Terminate(UpdateError::Frame(FrameError::InvalidLength))));
    assert!(!wrong.keeps_session());
    assert!(intake_full(0, 0, Vec::new()).keeps_session());
}

#[test]
fn delta_block_is_queued_skipped_or_ends_the_session() {
    let payload = one_pixel_delta(3, 4, 9);
    let good = intake_delta(&pack(&payload).unwrap());
    assert!(good.keeps_session());
    match good {
        Intake::Queue(FrameUpdate::Delta(raw)) => assert_eq!(raw, payload),
        other => panic!("expected the delta to be queued, got {:?}", other),
    }
    let corrupt = intake_delta(&[9, 0, 0, 0, 0xF0]);
    assert!(matches!(corrupt, Intake::Skip(CodecError::Corrupt)));
    assert!(corrupt.keeps_session());
    let too_large = intake_delta(&[0xFF, 0xFF, 0xFF, 0xFF, 0]);
    assert!(matches!(too_large, Intake::Skip(CodecError::TooLarge)));
    assert!(too_large.keeps_session());
    let truncated = intake_delta(&pack(&payload[..payload.len() - 1]).unwrap());
    assert!(matches!(
        truncated,
        Intake::Terminate(UpdateError::Delta(DeltaError::TruncatedPixels))
    ));
    assert!(!truncated.keeps_session());
}
