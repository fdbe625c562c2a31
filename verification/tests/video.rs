use remote_desktop::capture::check_rows_fit;
use remote_desktop::message_type::MessageType;
use remote_desktop::producer::VideoProducer;
use remote_desktop::video::DEFAULT_KEYFRAME_INTERVAL;
use remote_desktop::video::DecodeOutcome;
use remote_desktop::video::KeyframeSchedule;
use remote_desktop::video::VideoDecoder;
use remote_desktop::video::VideoEncoder;
use remote_desktop::video::VideoError;
use remote_desktop::video::YuvFrame;
use remote_desktop::video::messages_for_encoded;
use remote_desktop::video::settle_decoded;

fn gradient_rgb(width: usize, height: usize, shift: usize) -> Vec<u8> {
    let mut out = Vec::with_capacity(width * height * 3);
    let mut y: usize = 0;
    while y < height {
        let mut x: usize = 0;
        while x < width {
            out.push(((x + shift) * 255 / width) as u8);
            out.push((y * 255 / height) as u8);
            out.push(128);
            x += 1;
        }
        y += 1;
    }
    out
}

fn picture(width: usize, height: usize, stride: usize) -> YuvFrame {
    let cw = (width + 1) / 2;
    let ch = (height + 1) / 2;
    YuvFrame {
        width,
        height,
        y: vec![16; stride * height],
        u: vec![128; (stride / 2) * ch],
        v: vec![128; (stride / 2) * ch],
        y_stride: stride,
        u_stride: stride / 2,
        v_stride: if cw > stride / 2 { cw } else { stride / 2 },
    }
}

#[test]
fn schedule_marks_the_first_and_every_nth_cycle() {
    assert_eq!(KeyframeSchedule::new(0), None);
    let mut schedule = KeyframeSchedule::new(3).unwrap();
    let mut marks = Vec::new();
    let mut i = 0;
    while i < 8 {
        marks.push(schedule.tick());
        i += 1;
    }
    assert_eq!(marks, vec![true, false, false, true, false, false, true, false]);
    schedule.force();
    assert!(schedule.tick());
    assert!(!schedule.tick());
    let mut every = KeyframeSchedule::new(1).unwrap();
    assert!(every.tick());
    assert!(every.tick());
    assert_eq!(DEFAULT_KEYFRAME_INTERVAL, 60);
}

#[test]
fn encoded_frame_is_followed_by_the_sentinel() {
    let messages = messages_for_encoded(vec![1, 2, 3]);
    assert_eq!(messages.len(), 2);
    assert_eq!(messages[0].msg_type, MessageType::FrameDelta);
    assert_eq!(messages[0].payload, vec![1, 2, 3]);
    assert_eq!(messages[1].msg_type, MessageType::FrameEnd);
    assert!(messages[1].payload.is_empty());
    let alone = messages_for_encoded(Vec::new());
    assert_eq!(alone.len(), 1);
    assert_eq!(alone[0].msg_type, MessageType::FrameEnd);
    assert!(alone[0].payload.is_empty());
}

#[test]
fn rows_check_is_exact() {
    assert!(check_rows_fit(0, 0, 0, 0));
    assert!(check_rows_fit(0, 7, 9, 0));
    assert!(check_rows_fit(10, 4, 2, 3));
    assert!(!check_rows_fit(9, 4, 2, 3));
    assert!(check_rows_fit(2, 1000, 2, 1));
    assert!(!check_rows_fit(usize::MAX, usize::MAX, usize::MAX, usize::MAX));
}

#[test]
fn pictures_are_passed_on_only_if_their_planes_hold_their_rows() {
    assert!(picture(4, 4, 8).check());
    assert!(picture(5, 3, 8).check());
    assert!(!picture(0, 4, 8).check());
    assert!(!picture(4, 0, 8).check());
    let mut short_luma = picture(4, 4, 8);
    short_luma.y.truncate(27);
    assert!(!short_luma.check());
    let mut short_chroma = picture(4, 4, 8);
    short_chroma.v.truncate(5);
    assert!(!short_chroma.check());
    assert!(matches!(settle_decoded(Ok(Some(picture(4, 4, 8)))), DecodeOutcome::Frame(_)));
    assert!(matches!(settle_decoded(Ok(Some(short_luma))), DecodeOutcome::Failed));
    assert!(matches!(settle_decoded(Ok(None)), DecodeOutcome::Incomplete));
}

#[test]
fn encoder_refuses_odd_sizes_and_zero_interval() {
    assert!(matches!(VideoEncoder::open(63, 64, 60), Err(VideoError::Config)));
    assert!(matches!(VideoEncoder::open(64, 63, 60), Err(VideoError::Config)));
    assert!(matches!(VideoEncoder::open(64, 64, 0), Err(VideoError::Config)));
    assert!(matches!(VideoProducer::open(130, 128, 60), Err(VideoError::Config)));
    assert!(matches!(VideoProducer::open(128, 128, 0), Err(VideoError::Config)));
}

#[test]
fn encoder_refuses_data_of_the_wrong_length() {
    let mut encoder = VideoEncoder::open(64, 48, 60).unwrap();
    assert!(matches!(encoder.encode(&[0; 10]), Err(VideoError::Length)));
    assert!(matches!(encoder.encode(&vec![0; 64 * 48 * 4]), Err(VideoError::Length)));
}

#[test]
fn encoded_frames_decode_to_pictures_of_the_same_size() {
    let mut encoder = VideoEncoder::open(64, 48, 2).unwrap();
    let mut decoder = VideoDecoder::new();
    let mut pictures = 0;
    let mut i: usize = 0;
    while i < 5 {
        let encoded = encoder.encode(&gradient_rgb(64, 48, i * 3)).unwrap();
        if !encoded.is_empty() {
            assert_ne!(encoded, gradient_rgb(64, 48, i * 3));
            match decoder.decode(&encoded) {
                DecodeOutcome::Frame(frame) => {
                    assert_eq!((frame.width, frame.height), (64, 48));
                    assert!(frame.check());
                    assert!(frame.y_stride >= 64);
                    pictures += 1;
                }
                DecodeOutcome::Incomplete => {}
                DecodeOutcome::Failed => panic!("a frame of the encoder failed to decode"),
            }
        }
        i += 1;
    }
    assert!(pictures >= 1);
}

#[test]
fn decoder_survives_garbage() {
    let mut decoder = VideoDecoder::new();
    let garbage = vec![0x00, 0x00, 0x00, 0x01, 0x67, 0xFF, 0xFF, 0xFF, 0xFF, 0xFF, 0xFF];
    assert!(!matches!(decoder.decode(&garbage), DecodeOutcome::Frame(_)));
    let mut encoder = VideoEncoder::open(32, 32, 60).unwrap();
    let encoded = encoder.encode(&gradient_rgb(32, 32, 0)).unwrap();
    match decoder.decode(&encoded) {
        DecodeOutcome::Frame(frame) => assert_eq!((frame.width, frame.height), (32, 32)),
        DecodeOutcome::Incomplete => {}
        DecodeOutcome::Failed => panic!("the decoder did not recover"),
    }
}

#[test]
fn producer_halves_the_capture_and_queues_frame_and_sentinel() {
    let mut producer = VideoProducer::open(128, 96, 60).unwrap();
    assert!(matches!(producer.encode(&[0; 12]), Err(VideoError::Length)));
    let mut capture = vec![0u8; 128 * 96 * 4];
    let mut i: usize = 0;
    while i < capture.len() {
        capture[i] = (i / 512) as u8;
        i += 1;
    }
    let messages = producer.encode(&capture).unwrap();
    assert_eq!(messages.len(), 2);
    assert_eq!(messages[0].msg_type, MessageType::FrameDelta);
    assert!(!messages[0].payload.is_empty());
    assert_eq!(messages[1].msg_type, MessageType::FrameEnd);
    assert!(messages[1].payload.is_empty());
    let mut decoder = VideoDecoder::new();
    match decoder.decode(&messages[0].payload) {
        DecodeOutcome::Frame(frame) => assert_eq!((frame.width, frame.height), (64, 48)),
        DecodeOutcome::Incomplete => {}
        DecodeOutcome::Failed => panic!("the first frame failed to decode"),
    }
}

#[test]
fn capture_of_another_size_reopens_the_codec() {
    let mut producer = VideoProducer::open(128, 96, 60).unwrap();
    let first = producer.encode_capture(128, 96, &vec![40u8; 128 * 96 * 4]).unwrap();
    assert_eq!(first.len(), 2);
    let second = producer.encode_capture(64, 64, &vec![90u8; 64 * 64 * 4]).unwrap();
    assert_eq!(second.len(), 2);
    let mut decoder = VideoDecoder::new();
    match decoder.decode(&second[0].payload) {
        DecodeOutcome::Frame(frame) => assert_eq!((frame.width, frame.height), (32, 32)),
        DecodeOutcome::Incomplete => {}
        DecodeOutcome::Failed => panic!("the frame of the reopened codec failed to decode"),
    }
    assert!(matches!(
        producer.encode_capture(66, 64, &vec![0u8; 66 * 64 * 4]),
        Err(VideoError::Config)
    ));
    assert!(matches!(
        producer.encode_capture(64, 64, &vec![0u8; 64 * 64 * 4 - 4]),
        Err(VideoError::Length)
    ));
    assert_eq!(producer.encode_capture(64, 64, &vec![90u8; 64 * 64 * 4]).unwrap().len(), 2);
}

#[test]
fn codec_refusal_is_reported() {
    assert!(matches!(VideoEncoder::open(0, 0, 60), Err(VideoError::Codec)));
}

fn first_unit_kind(bits: &[u8]) -> Option<u8> {
    let mut i: usize = 0;
    while i < bits.len() && bits[i] == 0 {
        i += 1;
    }
    if i + 1 < bits.len() {
        Some(bits[i + 1] & 0x1F)
    } else {
        None
    }
}

#[test]
fn forced_key_frame_starts_a_stream_anew() {
    let mut encoder = VideoEncoder::open(64, 48, 60).unwrap();
    let first = encoder.encode(&gradient_rgb(64, 48, 0)).unwrap();
    assert_eq!(first_unit_kind(&first), Some(7));
    let second = encoder.encode(&gradient_rgb(64, 48, 9)).unwrap();
    assert_ne!(first_unit_kind(&second), Some(7));
    encoder.force_keyframe();
    let forced = encoder.encode(&gradient_rgb(64, 48, 18)).unwrap();
    assert_eq!(first_unit_kind(&forced), Some(7));
    let mut decoder = VideoDecoder::new();
    assert!(!matches!(decoder.decode(&forced), DecodeOutcome::Failed));
    let after = encoder.encode(&gradient_rgb(64, 48, 27)).unwrap();
    assert_ne!(first_unit_kind(&after), Some(7));
}

#[test]
fn producer_forces_a_key_frame() {
    let mut producer = VideoProducer::open(128, 96, 60).unwrap();
    let mut capture = vec![0u8; 128 * 96 * 4];
    let mut i: usize = 0;
    while i < capture.len() {
        capture[i] = (i / 512) as u8;
        i += 1;
    }
    let first = producer.encode(&capture).unwrap();
    assert_eq!(first.len(), 2);
    assert_eq!(first_unit_kind(&first[0].payload), Some(7));
    capture.reverse();
    let second = producer.encode(&capture).unwrap();
    assert_eq!(second[second.len() - 1].msg_type, MessageType::FrameEnd);
    assert_ne!(first_unit_kind(&second[0].payload), Some(7));
    producer.force_keyframe();
    capture.reverse();
    let forced = producer.encode(&capture).unwrap();
    assert_eq!(forced.len(), 2);
    assert_eq!(forced[0].msg_type, MessageType::FrameDelta);
    assert_eq!(first_unit_kind(&forced[0].payload), Some(7));
    assert_eq!(forced[1].msg_type, MessageType::FrameEnd);
}
