use remote_desktop::codec::CodecError;
use remote_desktop::codec::MAX_PACKED_LEN;
use remote_desktop::codec::MAX_UNPACKED_LEN;
use remote_desktop::codec::check_limits;
use remote_desktop::codec::check_surely_within_limits;
use remote_desktop::codec::get_u32_le;
use remote_desktop::codec::pack;
use remote_desktop::codec::pack_delta;
use remote_desktop::codec::pack_short;
use remote_desktop::codec::unpack;
use remote_desktop::codec::unpack_delta;
use remote_desktop::delta::DirtyRect;
use remote_desktop::payload::DeltaError;

#[test]
fn little_endian_prefix_is_read_exactly() {
    assert_eq!(get_u32_le(&[0x78, 0x56, 0x34, 0x12]), 0x1234_5678);
    assert_eq!(get_u32_le(&[0xFF, 0xFF, 0xFF, 0xFF, 1]), u32::MAX);
    assert_eq!(get_u32_le(&[1, 0, 0, 0]), 1);
}

#[test]
fn packed_block_starts_with_the_size_and_is_not_the_input() {
    let input = vec![7u8; 4096];
    let block = pack(&input).unwrap();
    assert_eq!(get_u32_le(&block), 4096);
    assert_ne!(block, input);
    assert!(block.len() < input.len());
}

#[test]
fn pack_then_unpack_gives_the_input() {
    let mut input = Vec::new();
    let mut i: u32 = 0;
    while i < 50_000 {
        input.push((i % 251) as u8);
        input.push((i / 7) as u8);
        i += 1;
    }
    let block = pack(&input).unwrap();
    assert_eq!(unpack(&block), Ok(input));
    assert_eq!(unpack(&pack(&[]).unwrap()), Ok(Vec::new()));
    assert_eq!(unpack(&pack(&[42]).unwrap()), Ok(vec![42]));
}

#[test]
fn limits_are_tested_on_length_and_announced_size() {
    assert!(check_limits(&[]));
    assert!(check_limits(&[0xFF, 0xFF, 0xFF]));
    assert!(check_limits(&[0, 0, 0, 0x10]));
    assert!(!check_limits(&[1, 0, 0, 0x10]));
    assert!(!check_limits(&[0xFF, 0xFF, 0xFF, 0xFF, 0]));
    assert!(check_limits(&vec![0u8; MAX_PACKED_LEN]));
    assert!(!check_limits(&vec![0u8; MAX_PACKED_LEN + 1]));
    assert!(check_limits(&pack(&vec![5u8; 100_000]).unwrap()));
}

#[test]
fn limits_of_the_decompressor() {
    assert_eq!(MAX_PACKED_LEN, 16 * 1024 * 1024);
    assert_eq!(MAX_UNPACKED_LEN, 256 * 1024 * 1024);
}

#[test]
fn unpack_refuses_what_is_above_the_limits() {
    let mut announced_too_much = (MAX_UNPACKED_LEN + 1).to_le_bytes().to_vec();
    announced_too_much.push(0);
    assert_eq!(unpack(&announced_too_much), Err(CodecError::TooLarge));
    let too_long = vec![0u8; MAX_PACKED_LEN + 1];
    assert_eq!(unpack(&too_long), Err(CodecError::TooLarge));
}

#[test]
fn unpack_reports_corrupt_blocks() {
    assert_eq!(unpack(&[]), Err(CodecError::Corrupt));
    assert_eq!(unpack(&[1, 0, 0]), Err(CodecError::Corrupt));
    assert_eq!(unpack(&[8, 0, 0, 0, 0xF0]), Err(CodecError::Corrupt));
    let mut block = pack(&vec![3u8; 1000]).unwrap();
    block.truncate(block.len() - 3);
    assert_eq!(unpack(&block), Err(CodecError::Corrupt));
}

#[test]
fn delta_survives_pack_and_unpack() {
    let rects = vec![
        DirtyRect { x: 128, y: 0, w: 2, h: 2, pixels: vec![9; 16] },
        DirtyRect { x: 0, y: 256, w: 1, h: 3, pixels: vec![1, 2, 3, 4, 5, 6, 7, 8, 9, 10, 11, 12] },
    ];
    let block = pack_delta(&rects).unwrap();
    let back = unpack_delta(&block).unwrap();
    assert_eq!(back.len(), 2);
    assert_eq!((back[0].x, back[0].y, back[0].w, back[0].h), (128, 0, 2, 2));
    assert_eq!(back[0].pixels, vec![9; 16]);
    assert_eq!((back[1].x, back[1].y, back[1].w, back[1].h), (0, 256, 1, 3));
    assert_eq!(back[1].pixels, vec![1, 2, 3, 4, 5, 6, 7, 8, 9, 10, 11, 12]);
}

#[test]
fn unpack_delta_tells_its_errors_apart() {
    assert_eq!(unpack_delta(&[]).unwrap_err(), CodecError::Corrupt);
    let mut announced = (MAX_UNPACKED_LEN + 1).to_le_bytes().to_vec();
    announced.push(0);
    assert_eq!(unpack_delta(&announced).unwrap_err(), CodecError::TooLarge);
    let no_count = pack(&[0, 0]).unwrap();
    assert_eq!(
        unpack_delta(&no_count).unwrap_err(),
        CodecError::Malformed(DeltaError::TruncatedCount)
    );
    let no_rect = pack(&[0, 0, 0, 1, 0, 0]).unwrap();
    assert_eq!(
        unpack_delta(&no_rect).unwrap_err(),
        CodecError::Malformed(DeltaError::TruncatedRect)
    );
    let no_pixels = pack(&[0, 0, 0, 1, 0, 0, 0, 0, 0, 0, 0, 0, 0, 0, 0, 2, 0, 0, 0, 2, 1]).unwrap();
    assert_eq!(
        unpack_delta(&no_pixels).unwrap_err(),
        CodecError::Malformed(DeltaError::TruncatedPixels)
    );
}

#[test]
fn block_announces_the_length_and_is_at_most_a_tenth_longer() {
    let mut state: u32 = 12345;
    let mut noise = Vec::new();
    let mut i = 0;
    while i < 70_000 {
        state = state.wrapping_mul(1664525).wrapping_add(1013904223);
        noise.push((state >> 24) as u8);
        i += 1;
    }
    for input in [Vec::new(), vec![1u8], noise, vec![0u8; 300_000]] {
        let block = pack(&input).unwrap();
        assert!(block.len() >= 4);
        assert_eq!(get_u32_le(&block) as usize, input.len());
        assert!(block.len() <= 24 + input.len() * 110 / 100);
        assert!(check_limits(&block));
        assert_eq!(unpack(&block), Ok(input));
    }
}

#[test]
fn payload_that_is_surely_within_limits() {
    assert!(check_surely_within_limits(0));
    assert!(check_surely_within_limits(15_251_993));
    assert!(!check_surely_within_limits(15_251_994));
    assert!(!check_surely_within_limits(0x1000_0001));
    assert!(!check_surely_within_limits(usize::MAX));
    let payload: Vec<u8> = (0..5000u32).map(|i| (i % 7) as u8).collect();
    let block = pack_short(&payload);
    assert_ne!(block, payload);
    assert_eq!(get_u32_le(&block), 5000);
    assert_eq!(unpack(&block), Ok(payload));
}
