//! What the payloads of control and input messages say, and what each side
//! does with a message once it has arrived whole.

use vstd::prelude::*;
use crate::message_type::MessageType;
use crate::message_type::SENTINEL_CODE;
use crate::message_type::code_of_type;
use crate::message_type::type_of_code;
use crate::wire::be_bytes;
use crate::wire::be_value;
use crate::wire::frame_bytes;
use crate::wire::get_u32_be;
use crate::wire::put_u32_be;

verus! {

/// Length of a payload that carries two `u32` values.
pub const POINT_LEN: usize = 8;

/// Why a handler rejected a message.
#[derive(Debug, Copy, Clone, PartialEq, Eq, Structural)]
pub enum HandlerError {
    /// A `MouseMove` payload of fewer than eight bytes.
    InvalidMouseMove,
}

/// Two numbers that travel together: a position, or a width and a height.
#[derive(Debug, Copy, Clone, PartialEq, Eq, Structural)]
pub struct Point {
    pub x: u32,
    pub y: u32,
}

/// The two numbers at the front of a payload, each a big-endian `u32`.
pub open spec fn point_of(payload: Seq<u8>) -> Point
    recommends
        payload.len() >= POINT_LEN,
{
    Point { x: be_value(payload.subrange(0, 4)), y: be_value(payload.subrange(4, 8)) }
}

/// The payload that carries two numbers.
pub open spec fn point_payload(x: u32, y: u32) -> Seq<u8> {
    be_bytes(x) + be_bytes(y)
}

/// A complete `MouseMove` message, header and all, for the pointer
/// position `(x, y)`: the type code, the length 8, then `x` and `y`.
pub fn make_mouse_move_packet(x: u32, y: u32) -> (packet: Vec<u8>)
    ensures
        packet@ == frame_bytes(MessageType::MouseMove, point_payload(x, y)),
        packet@.len() == 13,
{
    let mut packet: Vec<u8> = Vec::new();
    packet.push(MessageType::MouseMove.to_u8());
    put_u32_be(&mut packet, 8);
    put_u32_be(&mut packet, x);
    put_u32_be(&mut packet, y);
    assert(packet@ =~= frame_bytes(MessageType::MouseMove, point_payload(x, y)));
    packet
}

/// Reads the pointer position of a `MouseMove` message. The payload must
/// hold at least eight bytes; what follows them is ignored.
pub fn handle_mouse_move(payload: &[u8]) -> (r: Result<Point, HandlerError>)
    ensures
        payload@.len() >= POINT_LEN ==> r == Ok::<Point, HandlerError>(point_of(payload@)),
        payload@.len() < POINT_LEN ==> r == Err::<Point, HandlerError>(HandlerError::InvalidMouseMove),
{
    if payload.len() < POINT_LEN {
        return Err(HandlerError::InvalidMouseMove);
    }
    let x = get_u32_be(payload, 0);
    let y = get_u32_be(payload, 4);
    Ok(Point { x, y })
}

/// Reads the position of a `CursorPos` message. A payload of any length
/// but eight is invalid, which is reported but is no error.
pub fn handle_cursor_pos(payload: &[u8]) -> (r: Option<Point>)
    ensures
        payload@.len() == POINT_LEN ==> r == Some(point_of(payload@)),
        payload@.len() != POINT_LEN ==> r is None,
{
    if payload.len() == POINT_LEN {
        Some(Point { x: get_u32_be(payload, 0), y: get_u32_be(payload, 4) })
    } else {
        None
    }
}

/// Reads the width and height of a `Resize` message. A payload of any
/// length but eight is invalid, which is reported but is no error.
pub fn handle_resize(payload: &[u8]) -> (r: Option<Point>)
    ensures
        payload@.len() == POINT_LEN ==> r == Some(point_of(payload@)),
        payload@.len() != POINT_LEN ==> r is None,
{
    if payload.len() == POINT_LEN {
        Some(Point { x: get_u32_be(payload, 0), y: get_u32_be(payload, 4) })
    } else {
        None
    }
}

/// What the serving side does with an inbound message.
#[derive(Debug, Copy, Clone, PartialEq, Eq, Structural)]
pub enum Inbound {
    /// Move the pointer to this position.
    MoveMouse(Point),
    /// Report the cursor position, or that the payload was invalid.
    CursorPos(Option<Point>),
    /// Report the requested size, or that the payload was invalid.
    Resize(Option<Point>),
    /// Report the message; nothing else follows from it.
    Report(MessageType),
    /// Frame messages, the sentinel among them, mean nothing to the side
    /// that produces frames.
    Ignore,
    /// A type that this version does not know: report the code and the
    /// number of payload bytes stepped over.
    Skip { code: u8, len: usize },
}

/// The rule by which the serving side handles an inbound message.
pub open spec fn inbound_rule(msg_type: MessageType, payload: Seq<u8>) -> Result<Inbound, HandlerError> {
    match msg_type {
        MessageType::MouseMove => if payload.len() >= POINT_LEN {
            Ok(Inbound::MoveMouse(point_of(payload)))
        } else {
            Err(HandlerError::InvalidMouseMove)
        },
        MessageType::CursorPos => Ok(
            Inbound::CursorPos(
                if payload.len() == POINT_LEN {
                    Some(point_of(payload))
                } else {
                    None
                },
            ),
        ),
        MessageType::Resize => Ok(
            Inbound::Resize(
                if payload.len() == POINT_LEN {
                    Some(point_of(payload))
                } else {
                    None
                },
            ),
        ),
        MessageType::FrameFull => Ok(Inbound::Ignore),
        MessageType::FrameDelta => Ok(Inbound::Ignore),
        MessageType::FrameEnd => Ok(Inbound::Ignore),
        MessageType::Unknown(code) => if code == SENTINEL_CODE {
            Ok(Inbound::Ignore)
        } else {
            Ok(Inbound::Skip { code, len: payload.len() as usize })
        },
        _ => Ok(Inbound::Report(msg_type)),
    }
}

/// Decides what the serving side does with an inbound message. Only a
/// `MouseMove` with too short a payload is an error; a message of unknown
/// type is never one.
pub fn handle_incoming_message(msg_type: MessageType, payload: &[u8]) -> (r: Result<Inbound, HandlerError>)
    ensures
        r == inbound_rule(msg_type, payload@),
{
    match msg_type {
        MessageType::MouseMove => match handle_mouse_move(payload) {
            Ok(point) => Ok(Inbound::MoveMouse(point)),
            Err(e) => Err(e),
        },
        MessageType::CursorPos => Ok(Inbound::CursorPos(handle_cursor_pos(payload))),
        MessageType::Resize => Ok(Inbound::Resize(handle_resize(payload))),
        MessageType::FrameFull => Ok(Inbound::Ignore),
        MessageType::FrameDelta => Ok(Inbound::Ignore),
        MessageType::FrameEnd => Ok(Inbound::Ignore),
        MessageType::Unknown(code) => {
            if code == SENTINEL_CODE {
                Ok(Inbound::Ignore)
            } else {
                Ok(Inbound::Skip { code, len: payload.len() })
            }
        },
        _ => Ok(Inbound::Report(msg_type)),
    }
}

/// What the viewing side does with an inbound message.
#[derive(Debug, Copy, Clone, PartialEq, Eq, Structural)]
pub enum Route {
    /// A whole frame as a compressed still image: decode it and queue the
    /// frame.
    StillImage,
    /// A delta payload: decode it and queue the update.
    Delta,
    /// The end of one frame's batch: everything queued is applied, then the
    /// image is presented.
    Present,
    /// Report the message; nothing else follows from it.
    Report(MessageType),
    /// A type that this version does not know: step over its payload.
    Skip(u8),
}

/// The rule by which the viewing side routes an inbound message. The
/// end-of-frame sentinel arrives under a code that is not assigned, as
/// `Unknown(SENTINEL_CODE)`; it is recognised here.
pub open spec fn route_rule(msg_type: MessageType) -> Route {
    match msg_type {
        MessageType::FrameFull => Route::StillImage,
        MessageType::FrameDelta => Route::Delta,
        MessageType::FrameEnd => Route::Present,
        MessageType::Unknown(code) => if code == SENTINEL_CODE {
            Route::Present
        } else {
            Route::Skip(code)
        },
        _ => Route::Report(msg_type),
    }
}

/// A sentinel that was sent is presented on arrival: the code it travels
/// under decodes to a type that is routed to the presentation.
pub proof fn lemma_sentinel_is_presented()
    ensures
        route_rule(type_of_code(code_of_type(MessageType::FrameEnd))) == Route::Present,
{
}

/// Decides what the viewing side does with an inbound message.
pub fn route_message(msg_type: MessageType) -> (route: Route)
    ensures
        route == route_rule(msg_type),
{
    match msg_type {
        MessageType::FrameFull => Route::StillImage,
        MessageType::FrameDelta => Route::Delta,
        MessageType::FrameEnd => Route::Present,
        MessageType::Unknown(code) => {
            if code == SENTINEL_CODE {
                Route::Present
            } else {
                Route::Skip(code)
            }
        },
        _ => Route::Report(msg_type),
    }
}

} // verus!
