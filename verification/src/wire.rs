//! Framing of messages on the wire: a five-byte header (one type code, then
//! the payload length as a big-endian `u32`) followed by exactly that many
//! payload bytes, with no padding and no checksum.

use vstd::prelude::*;
use vstd::slice::slice_subrange;
use vstd::slice::slice_to_vec;
use crate::message_type::MessageType;
use crate::message_type::code_of_type;
use crate::message_type::type_of_code;

verus! {

/// Number of bytes in a message header.
pub const HEADER_LEN: usize = 5;

/// The four bytes of `x`, most significant first.
pub open spec fn be_bytes(x: u32) -> Seq<u8> {
    seq![
        (x / 0x100_0000) as u8,
        (x / 0x1_0000 % 0x100) as u8,
        (x / 0x100 % 0x100) as u8,
        (x % 0x100) as u8,
    ]
}

/// The number that four bytes spell, most significant first.
pub open spec fn be_value(b: Seq<u8>) -> u32
    recommends
        b.len() == 4,
{
    (b[0] * 0x100_0000 + b[1] * 0x1_0000 + b[2] * 0x100 + b[3]) as u32
}

/// Reading back the big-endian bytes of a number gives the number.
pub proof fn lemma_be_round_trip(x: u32)
    ensures
        be_bytes(x).len() == 4,
        be_value(be_bytes(x)) == x,
{
}

/// Writing out the number that four bytes spell gives those bytes.
pub proof fn lemma_be_bytes_of_value(b: Seq<u8>)
    requires
        b.len() == 4,
    ensures
        be_bytes(be_value(b)) == b,
{
    let b0 = b[0];
    let b1 = b[1];
    let b2 = b[2];
    let b3 = b[3];
    let v: u32 = be_value(b);
    assert(v == b0 * 0x100_0000 + b1 * 0x1_0000 + b2 * 0x100 + b3);
    assert(v / 0x100_0000 == b0 && v / 0x1_0000 % 0x100 == b1 && v / 0x100 % 0x100 == b2 && v
        % 0x100 == b3) by (bit_vector)
        requires
            v == b0 * 0x100_0000 + b1 * 0x1_0000 + b2 * 0x100 + b3,
    ;
    assert(be_bytes(v) =~= b);
}

/// Appends the big-endian bytes of `x` to `buf`.
pub fn put_u32_be(buf: &mut Vec<u8>, x: u32)
    ensures
        final(buf)@ == old(buf)@ + be_bytes(x),
{
    buf.push((x / 0x100_0000) as u8);
    buf.push((x / 0x1_0000 % 0x100) as u8);
    buf.push((x / 0x100 % 0x100) as u8);
    buf.push((x % 0x100) as u8);
    assert(buf@ =~= old(buf)@ + be_bytes(x));
}

/// Reads the big-endian `u32` that starts at `at`.
pub fn get_u32_be(bytes: &[u8], at: usize) -> (x: u32)
    requires
        at + 4 <= bytes.len(),
    ensures
        x == be_value(bytes@.subrange(at as int, at + 4)),
{
    let b0: u32 = bytes[at] as u32;
    let b1: u32 = bytes[at + 1] as u32;
    let b2: u32 = bytes[at + 2] as u32;
    let b3: u32 = bytes[at + 3] as u32;
    b0 * 0x100_0000 + b1 * 0x1_0000 + b2 * 0x100 + b3
}

/// Why a message could not be framed.
#[derive(Debug, Copy, Clone, PartialEq, Eq, Structural)]
pub enum WireError {
    /// The payload is longer than the 32-bit length field can say.
    PayloadTooLarge,
}

/// One unit of exchange: a type and its payload.
#[derive(Debug, Clone)]
pub struct Message {
    pub msg_type: MessageType,
    pub payload: Vec<u8>,
}

/// What a message is, apart from how it is stored.
pub struct MessageView {
    pub msg_type: MessageType,
    pub payload: Seq<u8>,
}

impl View for Message {
    type V = MessageView;

    open spec fn view(&self) -> MessageView {
        MessageView { msg_type: self.msg_type, payload: self.payload@ }
    }
}

/// The views of a list of messages, in order.
pub open spec fn message_views(msgs: Seq<Message>) -> Seq<MessageView> {
    Seq::new(msgs.len(), |i: int| msgs[i]@)
}

/// The bytes of one framed message.
pub open spec fn frame_bytes(t: MessageType, payload: Seq<u8>) -> Seq<u8>
    recommends
        payload.len() <= u32::MAX,
{
    seq![code_of_type(t)] + be_bytes(payload.len() as u32) + payload
}

/// The payload length that the header at the start of `bytes` declares.
pub open spec fn declared_len(bytes: Seq<u8>) -> int
    recommends
        bytes.len() >= HEADER_LEN,
{
    be_value(bytes.subrange(1, 5)) as int
}

/// Whether `bytes` starts with a whole message: a header and all of the
/// payload that it declares.
pub open spec fn has_frame(bytes: Seq<u8>) -> bool {
    bytes.len() >= HEADER_LEN && bytes.len() >= HEADER_LEN + declared_len(bytes)
}

/// Length of the message that `bytes` starts with, header included.
pub open spec fn frame_len(bytes: Seq<u8>) -> int
    recommends
        has_frame(bytes),
{
    HEADER_LEN + declared_len(bytes)
}

/// The message that `bytes` starts with.
pub open spec fn first_frame(bytes: Seq<u8>) -> MessageView
    recommends
        has_frame(bytes),
{
    MessageView {
        msg_type: type_of_code(bytes[0]),
        payload: bytes.subrange(HEADER_LEN as int, frame_len(bytes)),
    }
}

/// How many more bytes must arrive before `bytes` starts with a whole
/// message: the rest of the header while that is incomplete, then the rest of
/// the payload. Zero exactly when a whole message is there.
pub open spec fn missing_bytes(bytes: Seq<u8>) -> int {
    if bytes.len() < HEADER_LEN {
        HEADER_LEN - bytes.len()
    } else if bytes.len() < HEADER_LEN + declared_len(bytes) {
        HEADER_LEN + declared_len(bytes) - bytes.len()
    } else {
        0
    }
}

/// The whole messages at the front of a byte stream, in order.
pub open spec fn stream_messages(bytes: Seq<u8>) -> Seq<MessageView>
    decreases bytes.len(),
{
    if has_frame(bytes) {
        seq![first_frame(bytes)] + stream_messages(bytes.skip(frame_len(bytes)))
    } else {
        Seq::empty()
    }
}

/// What is left of a byte stream behind its whole messages: nothing, part of
/// a header, or a header with part of its payload.
pub open spec fn stream_rest(bytes: Seq<u8>) -> Seq<u8>
    decreases bytes.len(),
{
    if has_frame(bytes) {
        stream_rest(bytes.skip(frame_len(bytes)))
    } else {
        bytes
    }
}

/// Frames a message: the type code, the payload length, the payload.
///
/// Fails exactly when the payload is too long for the length field, so the
/// length that is written always equals the number of payload bytes.
pub fn encode_message(msg_type: MessageType, payload: &[u8]) -> (r: Result<Vec<u8>, WireError>)
    ensures
        payload@.len() <= u32::MAX ==> (r matches Ok(buf) && buf@ == frame_bytes(msg_type, payload@)),
        payload@.len() > u32::MAX ==> r == Err::<Vec<u8>, WireError>(WireError::PayloadTooLarge),
{
    if payload.len() > 0xFFFF_FFFF {
        return Err(WireError::PayloadTooLarge);
    }
    let mut buf: Vec<u8> = Vec::new();
    buf.push(msg_type.to_u8());
    put_u32_be(&mut buf, payload.len() as u32);
    let mut body = slice_to_vec(payload);
    buf.append(&mut body);
    Ok(buf)
}

/// Reads the header at the start of `bytes`: the message type and the payload
/// length it declares.
pub fn decode_header(bytes: &[u8]) -> (r: Option<(MessageType, u32)>)
    ensures
        bytes@.len() < HEADER_LEN ==> r is None,
        bytes@.len() >= HEADER_LEN ==> r == Some((type_of_code(bytes@[0]), declared_len(bytes@) as u32)),
{
    if bytes.len() < HEADER_LEN {
        return None;
    }
    let t = MessageType::from_u8(bytes[0]);
    let len = get_u32_be(bytes, 1);
    Some((t, len))
}

/// Takes one whole message off the front of `bytes`, and says how many bytes
/// it occupied. Returns `None` exactly when the header or the payload is not
/// all there yet; a short input is never an error.
pub fn decode_message(bytes: &[u8]) -> (r: Option<(Message, usize)>)
    ensures
        !has_frame(bytes@) ==> r is None,
        has_frame(bytes@) ==> (r matches Some((m, n)) && m@ == first_frame(bytes@) && n
            == frame_len(bytes@)),
{
    if bytes.len() < HEADER_LEN {
        return None;
    }
    let t = MessageType::from_u8(bytes[0]);
    let len = get_u32_be(bytes, 1);
    if ((bytes.len() - HEADER_LEN) as u64) < len as u64 {
        return None;
    }
    let end: usize = HEADER_LEN + len as usize;
    let payload = slice_to_vec(slice_subrange(bytes, HEADER_LEN, end));
    Some((Message { msg_type: t, payload }, end))
}

/// Accumulator for the inbound side of a connection. It keeps the bytes that
/// have arrived but do not yet make up a whole message, so that a read that
/// returns part of a header, or part of a payload, loses nothing.
pub struct FrameParser {
    pending: Vec<u8>,
}

impl View for FrameParser {
    type V = Seq<u8>;

    closed spec fn view(&self) -> Seq<u8> {
        self.pending@
    }
}

impl FrameParser {
    /// No whole message is ever left waiting inside the accumulator.
    pub open spec fn wf(&self) -> bool {
        !has_frame(self@)
    }

    /// An accumulator that holds nothing.
    pub fn new() -> (p: Self)
        ensures
            p.wf(),
            p@ == Seq::<u8>::empty(),
    {
        FrameParser { pending: Vec::new() }
    }

    /// Number of bytes held back so far.
    pub fn pending_len(&self) -> (n: usize)
        ensures
            n == self@.len(),
    {
        self.pending.len()
    }

    /// How many more bytes the next message needs: what is left of its
    /// header, or, once the header is in, what is left of its payload.
    pub fn wanted(&self) -> (n: u64)
        requires
            self.wf(),
        ensures
            n == missing_bytes(self@),
            n > 0,
    {
        if self.pending.len() < HEADER_LEN {
            (HEADER_LEN - self.pending.len()) as u64
        } else {
            let len = get_u32_be(self.pending.as_slice(), 1);
            HEADER_LEN as u64 + len as u64 - self.pending.len() as u64
        }
    }

    /// Takes in the bytes of one read and hands out every message that they
    /// complete, in order. What remains is kept for the next call.
    ///
    /// The result depends only on the bytes seen so far, not on how the reads
    /// cut them up.
    pub fn feed(&mut self, bytes: &[u8]) -> (out: Vec<Message>)
        requires
            old(self).wf(),
        ensures
            final(self).wf(),
            message_views(out@) == stream_messages(old(self)@ + bytes@),
            final(self)@ == stream_rest(old(self)@ + bytes@),
    {
        let mut chunk = slice_to_vec(bytes);
        self.pending.append(&mut chunk);
        let ghost all = self.pending@;
        let mut out: Vec<Message> = Vec::new();
        let mut pos: usize = 0;
        assert(all.skip(0) =~= all);
        assert(message_views(out@) =~= Seq::<MessageView>::empty());
        loop
            invariant
                self.pending@ == all,
                pos <= all.len(),
                stream_messages(all) == message_views(out@) + stream_messages(all.skip(pos as int)),
                stream_rest(all) == stream_rest(all.skip(pos as int)),
            ensures
                !has_frame(all.skip(pos as int)),
            decreases all.len() - pos,
        {
            let ghost tail = all.skip(pos as int);
            if self.pending.len() - pos < HEADER_LEN {
                break;
            }
            assert(tail.subrange(1, 5) =~= all.subrange(pos + 1, pos + 5));
            let len = get_u32_be(self.pending.as_slice(), pos + 1);
            if ((self.pending.len() - pos - HEADER_LEN) as u64) < len as u64 {
                break;
            }
            let end: usize = pos + HEADER_LEN + len as usize;
            let t = MessageType::from_u8(self.pending[pos]);
            let payload = slice_to_vec(slice_subrange(self.pending.as_slice(), pos + HEADER_LEN, end));
            let message = Message { msg_type: t, payload };
            proof {
                assert(has_frame(tail));
                assert(tail.subrange(HEADER_LEN as int, frame_len(tail)) =~= all.subrange(
                    pos + HEADER_LEN,
                    end as int,
                ));
                assert(message@ == first_frame(tail));
                assert(tail.skip(frame_len(tail)) =~= all.skip(end as int));
                assert(message_views(out@.push(message)) =~= message_views(out@) + seq![message@]);
            }
            out.push(message);
            pos = end;
        }
        let rest = self.pending.split_off(pos);
        self.pending = rest;
        assert(self.pending@ =~= all.skip(pos as int));
        out
    }
}

/// A framed message decodes to what was framed, for every canonical type,
/// every payload that the length field can say, and whatever bytes follow.
pub proof fn lemma_frame_round_trip(t: MessageType, payload: Seq<u8>, rest: Seq<u8>)
    requires
        t.is_canonical(),
        payload.len() <= u32::MAX,
    ensures
        has_frame(frame_bytes(t, payload) + rest),
        frame_len(frame_bytes(t, payload) + rest) == HEADER_LEN + payload.len(),
        first_frame(frame_bytes(t, payload) + rest) == (MessageView { msg_type: t, payload }),
        (frame_bytes(t, payload) + rest).skip(HEADER_LEN + payload.len()) == rest,
{
    let bytes = frame_bytes(t, payload) + rest;
    let len = payload.len() as u32;
    lemma_be_round_trip(len);
    assert(bytes.subrange(1, 5) =~= be_bytes(len));
    assert(bytes.subrange(HEADER_LEN as int, HEADER_LEN + payload.len()) =~= payload);
    assert(bytes.skip(HEADER_LEN + payload.len()) =~= rest);
}

/// A message at the front of a stream is handed out first, and the stream
/// behind it is read as if it stood alone. This holds for every type code,
/// so a message of an unknown type is stepped over by exactly its declared
/// length and the next header is read where it begins.
pub proof fn lemma_stream_steps_over_frame(t: MessageType, payload: Seq<u8>, rest: Seq<u8>)
    requires
        t.is_canonical(),
        payload.len() <= u32::MAX,
    ensures
        stream_messages(frame_bytes(t, payload) + rest) == seq![
            (MessageView { msg_type: t, payload }),
        ] + stream_messages(rest),
        stream_rest(frame_bytes(t, payload) + rest) == stream_rest(rest),
{
    lemma_frame_round_trip(t, payload, rest);
}

/// A whole message at the front of `a` is still there, unchanged, when more
/// bytes follow.
pub proof fn lemma_frame_stable_under_append(a: Seq<u8>, b: Seq<u8>)
    requires
        has_frame(a),
    ensures
        has_frame(a + b),
        frame_len(a + b) == frame_len(a),
        first_frame(a + b) == first_frame(a),
        (a + b).skip(frame_len(a)) == a.skip(frame_len(a)) + b,
{
    assert((a + b).subrange(1, 5) =~= a.subrange(1, 5));
    assert((a + b).subrange(HEADER_LEN as int, frame_len(a)) =~= a.subrange(
        HEADER_LEN as int,
        frame_len(a),
    ));
    assert((a + b).skip(frame_len(a)) =~= a.skip(frame_len(a)) + b);
}

/// Reading a stream in two pieces gives the same messages, and leaves the
/// same bytes over, as reading it in one: what the first piece leaves
/// incomplete is completed by the second, wherever the cut falls.
pub proof fn lemma_stream_split(a: Seq<u8>, b: Seq<u8>)
    ensures
        stream_messages(a + b) == stream_messages(a) + stream_messages(stream_rest(a) + b),
        stream_rest(a + b) == stream_rest(stream_rest(a) + b),
    decreases a.len(),
{
    if has_frame(a) {
        let n = frame_len(a);
        lemma_frame_stable_under_append(a, b);
        lemma_stream_split(a.skip(n), b);
        assert(stream_messages(a + b) =~= stream_messages(a) + stream_messages(stream_rest(a) + b));
    } else {
        assert(stream_messages(a) =~= Seq::<MessageView>::empty());
        assert(stream_messages(a + b) =~= stream_messages(a) + stream_messages(stream_rest(a) + b));
    }
}

} // verus!
