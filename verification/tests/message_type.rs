use remote_desktop::message_type::MessageType;

#[test]
fn known_codes_decode_to_their_variants() {
    assert_eq!(MessageType::from_u8(0x01), MessageType::Text);
    assert_eq!(MessageType::from_u8(0x02), MessageType::Connect);
    assert_eq!(MessageType::from_u8(0x03), MessageType::Disconnect);
    assert_eq!(MessageType::from_u8(0x04), MessageType::Error);
    assert_eq!(MessageType::from_u8(0x10), MessageType::FrameFull);
    assert_eq!(MessageType::from_u8(0x11), MessageType::FrameDelta);
    assert_eq!(MessageType::from_u8(0x12), MessageType::CursorShape);
    assert_eq!(MessageType::from_u8(0x13), MessageType::CursorPos);
    assert_eq!(MessageType::from_u8(0x14), MessageType::Resize);
    assert_eq!(MessageType::from_u8(0x20), MessageType::KeyDown);
    assert_eq!(MessageType::from_u8(0x21), MessageType::KeyUp);
    assert_eq!(MessageType::from_u8(0x22), MessageType::MouseMove);
    assert_eq!(MessageType::from_u8(0x23), MessageType::MouseDown);
    assert_eq!(MessageType::from_u8(0x24), MessageType::MouseUp);
    assert_eq!(MessageType::from_u8(0x25), MessageType::MouseScroll);
    assert_eq!(MessageType::from_u8(0x30), MessageType::Clipboard);
}

#[test]
fn unassigned_codes_decode_to_unknown() {
    assert_eq!(MessageType::from_u8(0xFF), MessageType::Unknown(0xFF));
    assert_eq!(MessageType::from_u8(0x00), MessageType::Unknown(0x00));
    assert_eq!(MessageType::from_u8(0x31), MessageType::Unknown(0x31));
    assert_eq!(MessageType::from_u8(0x15), MessageType::Unknown(0x15));
    assert_eq!(MessageType::from_u8(0x05), MessageType::Unknown(0x05));
}

#[test]
fn only_the_sixteen_assigned_codes_have_named_types() {
    let assigned = [
        0x01u8, 0x02, 0x03, 0x04, 0x10, 0x11, 0x12, 0x13, 0x14, 0x20, 0x21, 0x22, 0x23, 0x24, 0x25,
        0x30,
    ];
    let mut code: u16 = 0;
    while code <= 0xFF {
        let byte = code as u8;
        let named = MessageType::from_u8(byte) != MessageType::Unknown(byte);
        assert_eq!(named, assigned.contains(&byte));
        assert_ne!(MessageType::from_u8(byte), MessageType::FrameEnd);
        code += 1;
    }
}

#[test]
fn sentinel_is_known_as_sent_and_as_arrived() {
    assert_eq!(MessageType::FrameEnd.to_u8(), 0x15);
    assert!(MessageType::FrameEnd.is_frame_end());
    assert!(MessageType::from_u8(MessageType::FrameEnd.to_u8()).is_frame_end());
    assert!(!MessageType::Unknown(0x16).is_frame_end());
    assert!(!MessageType::FrameDelta.is_frame_end());
}

#[test]
fn every_byte_survives_decode_then_encode() {
    let mut code: u16 = 0;
    while code <= 0xFF {
        let byte = code as u8;
        assert_eq!(MessageType::from_u8(byte).to_u8(), byte);
        code += 1;
    }
}
