//! Type codes of the wire protocol.

use vstd::prelude::*;

verus! {

/// The kind of a message, as carried in the first header byte.
#[derive(Debug, Copy, Clone, PartialEq, Eq, Structural)]
pub enum MessageType {
    Text,
    Connect,
    Disconnect,
    Error,
    FrameFull,
    FrameDelta,
    CursorShape,
    CursorPos,
    Resize,
    /// Sentinel that closes one frame's batch of updates; carries no pixels.
    /// It has no code among the assigned ones: it travels under
    /// `SENTINEL_CODE` and arrives as `Unknown(SENTINEL_CODE)`.
    FrameEnd,
    KeyDown,
    KeyUp,
    MouseMove,
    MouseDown,
    MouseUp,
    MouseScroll,
    Clipboard,
    /// Any code this version does not know.
    Unknown(u8),
}

/// The code under which the end-of-frame sentinel travels. It is none of
/// the assigned codes, so it decodes as an unknown type: a peer that knows
/// the sentinel takes `Unknown(SENTINEL_CODE)` for it, and any other peer
/// steps over it like over every unknown message.
pub const SENTINEL_CODE: u8 = 0x15;

/// Whether a type stands for the end-of-frame sentinel: as it is sent, or
/// as it arrives.
pub open spec fn is_sentinel(t: MessageType) -> bool {
    t == MessageType::FrameEnd || t == MessageType::Unknown(SENTINEL_CODE)
}

/// The message type that a code byte stands for: the named type of each of
/// the sixteen assigned codes, and `Unknown` with the code for every other
/// byte.
pub open spec fn type_of_code(v: u8) -> MessageType {
    if v == 0x01 {
        MessageType::Text
    } else if v == 0x02 {
        MessageType::Connect
    } else if v == 0x03 {
        MessageType::Disconnect
    } else if v == 0x04 {
        MessageType::Error
    } else if v == 0x10 {
        MessageType::FrameFull
    } else if v == 0x11 {
        MessageType::FrameDelta
    } else if v == 0x12 {
        MessageType::CursorShape
    } else if v == 0x13 {
        MessageType::CursorPos
    } else if v == 0x14 {
        MessageType::Resize
    } else if v == 0x20 {
        MessageType::KeyDown
    } else if v == 0x21 {
        MessageType::KeyUp
    } else if v == 0x22 {
        MessageType::MouseMove
    } else if v == 0x23 {
        MessageType::MouseDown
    } else if v == 0x24 {
        MessageType::MouseUp
    } else if v == 0x25 {
        MessageType::MouseScroll
    } else if v == 0x30 {
        MessageType::Clipboard
    } else {
        MessageType::Unknown(v)
    }
}

/// The code byte of a message type.
pub open spec fn code_of_type(t: MessageType) -> u8 {
    match t {
        MessageType::Text => 0x01,
        MessageType::Connect => 0x02,
        MessageType::Disconnect => 0x03,
        MessageType::Error => 0x04,
        MessageType::FrameFull => 0x10,
        MessageType::FrameDelta => 0x11,
        MessageType::CursorShape => 0x12,
        MessageType::CursorPos => 0x13,
        MessageType::Resize => 0x14,
        MessageType::FrameEnd => SENTINEL_CODE,
        MessageType::KeyDown => 0x20,
        MessageType::KeyUp => 0x21,
        MessageType::MouseMove => 0x22,
        MessageType::MouseDown => 0x23,
        MessageType::MouseUp => 0x24,
        MessageType::MouseScroll => 0x25,
        MessageType::Clipboard => 0x30,
        MessageType::Unknown(code) => code,
    }
}

impl MessageType {
    /// A value is canonical when it is the one that decoding its own code
    /// yields: `Unknown` never wraps a code that has a named variant.
    pub open spec fn is_canonical(self) -> bool {
        type_of_code(code_of_type(self)) == self
    }

    /// Decodes a code byte. Every byte decodes; unassigned codes become
    /// `Unknown`.
    pub fn from_u8(v: u8) -> (t: Self)
        ensures
            t == type_of_code(v),
            t.is_canonical(),
            code_of_type(t) == v,
    {
        match v {
            0x01 => MessageType::Text,
            0x02 => MessageType::Connect,
            0x03 => MessageType::Disconnect,
            0x04 => MessageType::Error,
            0x10 => MessageType::FrameFull,
            0x11 => MessageType::FrameDelta,
            0x12 => MessageType::CursorShape,
            0x13 => MessageType::CursorPos,
            0x14 => MessageType::Resize,
            0x20 => MessageType::KeyDown,
            0x21 => MessageType::KeyUp,
            0x22 => MessageType::MouseMove,
            0x23 => MessageType::MouseDown,
            0x24 => MessageType::MouseUp,
            0x25 => MessageType::MouseScroll,
            0x30 => MessageType::Clipboard,
            other => MessageType::Unknown(other),
        }
    }

    /// Whether this is the end-of-frame sentinel, as sent or as arrived.
    pub fn is_frame_end(&self) -> (b: bool)
        ensures
            b == is_sentinel(*self),
    {
        match self {
            MessageType::FrameEnd => true,
            MessageType::Unknown(code) => *code == SENTINEL_CODE,
            _ => false,
        }
    }

    /// Encodes the type as its code byte.
    pub fn to_u8(&self) -> (v: u8)
        ensures
            v == code_of_type(*self),
    {
        match self {
            MessageType::Text => 0x01,
            MessageType::Connect => 0x02,
            MessageType::Disconnect => 0x03,
            MessageType::Error => 0x04,
            MessageType::FrameFull => 0x10,
            MessageType::FrameDelta => 0x11,
            MessageType::CursorShape => 0x12,
            MessageType::CursorPos => 0x13,
            MessageType::Resize => 0x14,
            MessageType::FrameEnd => SENTINEL_CODE,
            MessageType::KeyDown => 0x20,
            MessageType::KeyUp => 0x21,
            MessageType::MouseMove => 0x22,
            MessageType::MouseDown => 0x23,
            MessageType::MouseUp => 0x24,
            MessageType::MouseScroll => 0x25,
            MessageType::Clipboard => 0x30,
            MessageType::Unknown(code) => *code,
        }
    }
}

/// Whether a code has a named variant.
pub open spec fn is_assigned(code: u8) -> bool {
    type_of_code(code) != MessageType::Unknown(code)
}

/// Which values are canonical: every type with an assigned code, and
/// `Unknown(c)` for every `c` that is not assigned, `0xFF` and the
/// sentinel's code among them. `Unknown(c)` for an assigned `c` is not: its
/// code decodes to the named type. Nor is `FrameEnd`, which has no assigned
/// code and arrives as `Unknown(SENTINEL_CODE)`.
pub proof fn lemma_canonical_values(t: MessageType)
    ensures
        t.is_canonical() <==> !(t is FrameEnd) && (t matches MessageType::Unknown(c) ==> !is_assigned(
            c,
        )),
        MessageType::Unknown(0xFF).is_canonical(),
        MessageType::Unknown(SENTINEL_CODE).is_canonical(),
        !MessageType::Unknown(0x01).is_canonical(),
{
}

/// The sentinel stays a sentinel on its way over the wire, and nothing else
/// turns into one.
pub proof fn lemma_sentinel_survives(t: MessageType)
    ensures
        is_sentinel(type_of_code(code_of_type(t))) <==> is_sentinel(t),
        !is_assigned(SENTINEL_CODE),
{
}

/// Every byte survives decoding and re-encoding.
pub proof fn lemma_code_round_trip(v: u8)
    ensures
        code_of_type(type_of_code(v)) == v,
        type_of_code(v).is_canonical(),
{
}

/// Every canonical type survives encoding and decoding; so does every named
/// variant, and `Unknown(c)` for each unassigned `c`.
pub proof fn lemma_type_round_trip(t: MessageType)
    requires
        t.is_canonical(),
    ensures
        type_of_code(code_of_type(t)) == t,
{
}

} // verus!
