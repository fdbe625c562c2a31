//! The motion path: a video compressor and decompressor that keep reference
//! frames between calls. Their state lives in the codec; what is decided
//! here is when that state is thrown away, and what of their results can be
//! passed on.

use vstd::prelude::*;
use crate::capture::check_rows_fit;
use crate::capture::rows_fit;
use crate::h264::OpenedEncoder;
use crate::h264::encodable_size;
use crate::h264::encode_rgb;
use crate::h264::open_encoder;
use crate::message_type::MessageType;
use crate::wire::Message;
use crate::wire::MessageView;
use crate::wire::message_views;

verus! {

/// Frames per second that the encoder is asked to plan for.
pub const FRAME_RATE: u8 = 30;

/// Bits per second that the encoder is asked to aim at.
pub const BITRATE_BPS: u32 = 10_000_000;

/// Cycles between two key frames where the caller names no interval.
pub const DEFAULT_KEYFRAME_INTERVAL: u32 = 60;

/// Longest packet that is handed to the decoder: it counts in `i32`.
pub const MAX_PACKET_LEN: usize = 0x7FFF_FFFF;

/// The decoder of `openh264`, carried as it is: its state is its own.
#[verifier::external_type_specification]
#[verifier::external_body]
pub struct ExDecoder(openh264::decoder::Decoder);

/// The error of `openh264`, carried as it is; nothing is read from it.
#[verifier::external_type_specification]
#[verifier::external_body]
pub struct ExVideoError(openh264::Error);

/// Why the motion path could not deliver.
#[derive(Debug, Copy, Clone, PartialEq, Eq, Structural)]
pub enum VideoError {
    /// The encoder takes even dimensions that fit 32 bits, and a key frame
    /// interval of at least one.
    Config,
    /// The pixel data does not have the length that the dimensions give.
    Length,
    /// The codec reported an error.
    Codec,
}

/// Decides which cycles start from a key frame: the first, and then every
/// `interval`-th.
#[derive(Debug, Copy, Clone, PartialEq, Eq, Structural)]
pub struct KeyframeSchedule {
    interval: u32,
    position: u32,
}

impl KeyframeSchedule {
    /// Cycles between two key frames.
    pub closed spec fn interval(&self) -> int {
        self.interval as int
    }

    /// Cycles since the last key frame, counted modulo the interval; zero
    /// when the next cycle is a key frame.
    pub closed spec fn position(&self) -> int {
        self.position as int
    }

    /// The position lies within one interval.
    pub open spec fn wf(&self) -> bool {
        0 <= self.position() < self.interval()
    }

    /// The position after one more cycle.
    pub open spec fn next_position(&self) -> int {
        (self.position() + 1) % self.interval()
    }

    /// A schedule whose first cycle is a key frame. `None` exactly when the
    /// interval is zero.
    pub fn new(interval: u32) -> (s: Option<Self>)
        ensures
            interval == 0 ==> s is None,
            interval > 0 ==> (s matches Some(k) && k.wf() && k.interval() == interval && k.position()
                == 0),
    {
        if interval == 0 {
            None
        } else {
            Some(KeyframeSchedule { interval, position: 0 })
        }
    }

    /// Counts one cycle and says whether it starts from a key frame.
    pub fn tick(&mut self) -> (key: bool)
        requires
            old(self).wf(),
        ensures
            final(self).wf(),
            final(self).interval() == old(self).interval(),
            key == (old(self).position() == 0),
            final(self).position() == old(self).next_position(),
    {
        let key = self.position == 0;
        if self.position == self.interval - 1 {
            self.position = 0;
        } else {
            self.position = self.position + 1;
        }
        assert(self.position == (old(self).position + 1) % (old(self).interval as int)) by {
            let p = old(self).position as int;
            let n = old(self).interval as int;
            if p == n - 1 {
                assert((p + 1) % n == 0) by (nonlinear_arith)
                    requires
                        p + 1 == n,
                        n > 0,
                ;
            } else {
                assert((p + 1) % n == p + 1) by (nonlinear_arith)
                    requires
                        0 <= p + 1 < n,
                ;
            }
        }
        key
    }

    /// Makes the next cycle a key frame, whatever the count.
    pub fn force(&mut self)
        requires
            old(self).wf(),
        ensures
            final(self).wf(),
            final(self).interval() == old(self).interval(),
            final(self).position() == 0,
    {
        self.position = 0;
    }
}

/// After `k` cycles from a key frame the schedule stands at `k` modulo the
/// interval, so exactly the cycles whose number is a multiple of the
/// interval start from a key frame.
pub proof fn lemma_schedule_position(interval: int, start: int, k: nat) -> (end: int)
    requires
        interval > 0,
        0 <= start < interval,
    ensures
        end == (start + k) % interval,
        end == position_after(interval, start, k),
    decreases k,
{
    if k == 0 {
        assert(start % interval == start) by (nonlinear_arith)
            requires
                0 <= start < interval,
        ;
        start
    } else {
        let before = lemma_schedule_position(interval, start, (k - 1) as nat);
        assert(((start + k - 1) % interval + 1) % interval == (start + k) % interval)
            by (nonlinear_arith)
            requires
                interval > 0,
        ;
        (before + 1) % interval
    }
}

/// Where a schedule stands after `k` cycles.
pub open spec fn position_after(interval: int, start: int, k: nat) -> int
    decreases k,
{
    if k == 0 {
        start
    } else {
        (position_after(interval, start, (k - 1) as nat) + 1) % interval
    }
}

/// A video encoder with the schedule of its key frames.
///
/// What an encoder gives for a frame depends on the frames it has taken
/// before, so the library keeps account of them: `taken` is the list of
/// frames that the encoder at hand has taken since it was opened.
pub struct VideoEncoder {
    core: OpenedEncoder,
    schedule: KeyframeSchedule,
    fresh: bool,
    history: Ghost<Seq<Seq<u8>>>,
}

/// The frames that an encoder has taken after one more frame: on a key
/// cycle the frame alone, since the encoder that takes it is fresh; on
/// every other cycle the frames taken before, and the frame.
pub open spec fn taken_after(schedule: KeyframeSchedule, taken: Seq<Seq<u8>>, frame: Seq<u8>) -> Seq<
    Seq<u8>,
> {
    if schedule.position() == 0 {
        seq![frame]
    } else {
        taken.push(frame)
    }
}

impl VideoEncoder {
    /// Width in pixels of the frames that the encoder takes.
    pub closed spec fn width(&self) -> int {
        self.core.width()
    }

    /// Height in pixels of the frames that the encoder takes.
    pub closed spec fn height(&self) -> int {
        self.core.height()
    }

    /// The schedule of key frames.
    pub closed spec fn schedule(&self) -> KeyframeSchedule {
        self.schedule
    }

    /// The frames that the encoder at hand has taken since it was opened,
    /// oldest first: what its output can refer to.
    pub closed spec fn taken(&self) -> Seq<Seq<u8>> {
        self.history@
    }

    /// The frames taken after one more frame.
    pub open spec fn taken_with(&self, frame: Seq<u8>) -> Seq<Seq<u8>> {
        taken_after(self.schedule(), self.taken(), frame)
    }

    /// The mark of a fresh encoder is set exactly while no frame has been
    /// taken.
    pub closed spec fn marked(&self) -> bool {
        self.fresh == (self.history@.len() == 0)
    }

    /// The dimensions are even, the schedule is in order, and the mark of a
    /// fresh encoder agrees with the account of frames taken.
    pub open spec fn wf(&self) -> bool {
        encodable_size(self.width(), self.height()) && self.schedule().wf() && self.marked()
    }

    /// Opens an encoder for frames of the given size, with a key frame
    /// every `interval` cycles.
    ///
    /// Fails with `Config` exactly when the dimensions are not even, do not
    /// fit 32 bits, or the interval is zero. Otherwise the codec decides:
    /// its refusal is reported as `Codec`.
    pub fn open(width: usize, height: usize, interval: u32) -> (r: Result<Self, VideoError>)
        ensures
            !(encodable_size(width as int, height as int) && interval > 0) ==> (r matches Err(e) && e
                == VideoError::Config),
            (encodable_size(width as int, height as int) && interval > 0) ==> match r {
                Ok(enc) => enc.wf() && enc.width() == width && enc.height() == height
                    && enc.schedule().interval() == interval && enc.schedule().position() == 0
                    && enc.taken() == Seq::<Seq<u8>>::empty(),
                Err(e) => e == VideoError::Codec,
            },
    {
        if width > 0xFFFF_FFFF || height > 0xFFFF_FFFF || width % 2 != 0 || height % 2 != 0 {
            return Err(VideoError::Config);
        }
        let schedule = match KeyframeSchedule::new(interval) {
            Some(s) => s,
            None => {
                return Err(VideoError::Config);
            },
        };
        match open_encoder(width as u32, height as u32, FRAME_RATE, BITRATE_BPS) {
            Ok(core) => Ok(
                VideoEncoder { core, schedule, fresh: true, history: Ghost(Seq::empty()) },
            ),
            Err(_) => Err(VideoError::Codec),
        }
    }

    /// Encodes one frame of three bytes per pixel.
    ///
    /// Fails with `Length`, and counts no cycle, exactly when the data does
    /// not have the length of the dimensions. Otherwise one cycle is
    /// counted, and the frame is handed to the encoder as it came. A cycle
    /// that the schedule marks as a key frame is handed to a fresh encoder,
    /// so that its output refers to no earlier frame: unless the encoder at
    /// hand is fresh already, one is opened anew. Whether bytes come back is
    /// for the codec to decide. Its refusal is reported as `Codec`: either
    /// no fresh encoder could be opened, and the encoder at hand has taken
    /// nothing new, or the encoder refused the frame it was handed.
    pub fn encode(&mut self, rgb: &[u8]) -> (r: Result<Vec<u8>, VideoError>)
        requires
            old(self).wf(),
        ensures
            final(self).wf(),
            final(self).width() == old(self).width(),
            final(self).height() == old(self).height(),
            final(self).schedule().interval() == old(self).schedule().interval(),
            rgb@.len() != old(self).width() * old(self).height() * 3 ==> (r matches Err(e) && e
                == VideoError::Length && final(self).schedule() == old(self).schedule()
                && final(self).taken() == old(self).taken()),
            rgb@.len() == old(self).width() * old(self).height() * 3 ==> final(self).schedule().position()
                == old(self).schedule().next_position() && match r {
                Ok(_) => final(self).taken() == old(self).taken_with(rgb@),
                Err(e) => e == VideoError::Codec && (final(self).taken() == old(self).taken()
                    || final(self).taken() == old(self).taken_with(rgb@)),
            },
    {
        let (width, height) = self.core.size();
        assert(width * height * 3 <= u128::MAX && width * height <= u128::MAX) by (nonlinear_arith)
            requires
                width <= u32::MAX,
                height <= u32::MAX,
        ;
        let need: u128 = (width as u128) * (height as u128) * 3;
        if need != rgb.len() as u128 {
            return Err(VideoError::Length);
        }
        let key = self.schedule.tick();
        if key && !self.fresh {
            match open_encoder(width as u32, height as u32, FRAME_RATE, BITRATE_BPS) {
                Ok(core) => {
                    self.core = core;
                    self.fresh = true;
                    self.history = Ghost(Seq::empty());
                },
                Err(_) => {
                    return Err(VideoError::Codec);
                },
            }
        }
        let answer = encode_rgb(&mut self.core, rgb);
        self.fresh = false;
        self.history = Ghost(self.history@.push(rgb@));
        proof {
            if old(self).schedule.position == 0 {
                assert(self.history@ =~= seq![rgb@]);
            }
        }
        match answer {
            Ok(bytes) => Ok(bytes),
            Err(_) => Err(VideoError::Codec),
        }
    }

    /// Makes the next frame a key frame, whatever the count of cycles: for
    /// the moment when the other side could not decode what it was sent.
    /// The next frame is then taken by a fresh encoder, and the count of
    /// cycles starts from it.
    pub fn force_keyframe(&mut self)
        requires
            old(self).wf(),
        ensures
            final(self).wf(),
            final(self).width() == old(self).width(),
            final(self).height() == old(self).height(),
            final(self).schedule().interval() == old(self).schedule().interval(),
            final(self).schedule().position() == 0,
            final(self).taken() == old(self).taken(),
    {
        self.schedule.force();
    }
}

/// The messages that carry one encoded frame: the frame, then the
/// end-of-frame sentinel. Where the encoder produced no bytes the sentinel
/// goes alone, so that every capture ends in one.
pub open spec fn video_messages(encoded: Seq<u8>) -> Seq<MessageView> {
    if encoded.len() == 0 {
        seq![(MessageView { msg_type: MessageType::FrameEnd, payload: Seq::empty() })]
    } else {
        seq![
            (MessageView { msg_type: MessageType::FrameDelta, payload: encoded }),
            (MessageView { msg_type: MessageType::FrameEnd, payload: Seq::empty() }),
        ]
    }
}

/// Whether the messages are those of one capture on the motion path,
/// whatever the encoder produced: the end-of-frame sentinel, alone or behind
/// one frame message that is not empty.
pub open spec fn is_video_batch(messages: Seq<MessageView>) -> bool {
    let sentinel = MessageView { msg_type: MessageType::FrameEnd, payload: Seq::empty() };
    ||| messages == seq![sentinel]
    ||| messages.len() == 2 && messages[0].msg_type == MessageType::FrameDelta
        && messages[0].payload.len() > 0 && messages[1] == sentinel
}

/// Wraps what the encoder produced for one frame into the messages to be
/// queued.
pub fn messages_for_encoded(encoded: Vec<u8>) -> (out: Vec<Message>)
    ensures
        message_views(out@) == video_messages(encoded@),
        is_video_batch(message_views(out@)),
{
    let mut out: Vec<Message> = Vec::new();
    if encoded.len() > 0 {
        out.push(Message { msg_type: MessageType::FrameDelta, payload: encoded });
    }
    out.push(Message { msg_type: MessageType::FrameEnd, payload: Vec::new() });
    assert(message_views(out@) =~= video_messages(encoded@));
    out
}

/// A decoded picture: a plane of luma and two planes of chroma at half the
/// resolution, each with rows that begin a stride apart.
#[derive(Debug)]
pub struct YuvFrame {
    pub width: usize,
    pub height: usize,
    pub y: Vec<u8>,
    pub u: Vec<u8>,
    pub v: Vec<u8>,
    pub y_stride: usize,
    pub u_stride: usize,
    pub v_stride: usize,
}

impl YuvFrame {
    /// The picture is not empty and every row of every plane lies inside
    /// its plane.
    pub open spec fn wf(&self) -> bool {
        let cw = (self.width + 1) / 2;
        let ch = (self.height + 1) / 2;
        &&& self.width > 0
        &&& self.height > 0
        &&& rows_fit(self.y@.len() as int, self.y_stride as int, self.width as int, self.height as int)
        &&& rows_fit(self.u@.len() as int, self.u_stride as int, cw as int, ch as int)
        &&& rows_fit(self.v@.len() as int, self.v_stride as int, cw as int, ch as int)
    }

    /// Tests `wf` without overflow.
    pub fn check(&self) -> (ok: bool)
        ensures
            ok == self.wf(),
    {
        if self.width == 0 || self.height == 0 {
            return false;
        }
        let cw: usize = (self.width - 1) / 2 + 1;
        let ch: usize = (self.height - 1) / 2 + 1;
        check_rows_fit(self.y.len(), self.y_stride, self.width, self.height) && check_rows_fit(
            self.u.len(),
            self.u_stride,
            cw,
            ch,
        ) && check_rows_fit(self.v.len(), self.v_stride, cw, ch)
    }
}

/// What one call of the decoder brought.
#[derive(Debug)]
pub enum DecodeOutcome {
    /// A whole picture.
    Frame(YuvFrame),
    /// No picture yet: more data is needed. This is no error.
    Incomplete,
    /// The data could not be decoded, or what came out is no picture. The
    /// frame is skipped; the session goes on.
    Failed,
}

/// Calls `openh264::decoder::Decoder::new`. Nothing is claimed of the
/// outcome.
#[verifier::external_body]
fn open_decoder() -> (r: Result<openh264::decoder::Decoder, openh264::Error>) {
    openh264::decoder::Decoder::new()
}

/// Calls `openh264::decoder::Decoder::decode` and copies the planes, the
/// dimensions and the strides of the picture out. Nothing is claimed of
/// them: they depend on the packets that the decoder has seen. Packets
/// longer than the decoder's 32-bit length are left out.
#[verifier::external_body]
fn decode_packet(decoder: &mut openh264::decoder::Decoder, packet: &[u8]) -> (r: Result<
    Option<YuvFrame>,
    openh264::Error,
>)
    requires
        packet@.len() <= MAX_PACKET_LEN,
{
    match decoder.decode(packet) {
        Ok(Some(p)) => {
            let (width, height) = p.dimension_rgb();
            let (y_stride, u_stride, v_stride) = p.strides_yuv();
            let (y, u) = (p.y_with_stride().to_vec(), p.u_with_stride().to_vec());
            let v = p.v_with_stride().to_vec();
            Ok(Some(YuvFrame { width, height, y, u, v, y_stride, u_stride, v_stride }))
        },
        Ok(None) => Ok(None),
        Err(e) => Err(e),
    }
}

/// What becomes of the decoder's answer: a picture is passed on if every
/// row of every plane lies inside its plane; no picture yet is no error;
/// everything else is a failure.
pub fn settle_decoded(answer: Result<Option<YuvFrame>, openh264::Error>) -> (outcome: DecodeOutcome)
    ensures
        match answer {
            Ok(Some(frame)) => if frame.wf() {
                outcome == DecodeOutcome::Frame(frame)
            } else {
                outcome is Failed
            },
            Ok(None) => outcome is Incomplete,
            Err(_) => outcome is Failed,
        },
{
    match answer {
        Ok(Some(frame)) => {
            if frame.check() {
                DecodeOutcome::Frame(frame)
            } else {
                DecodeOutcome::Failed
            }
        },
        Ok(None) => DecodeOutcome::Incomplete,
        Err(_) => DecodeOutcome::Failed,
    }
}

/// A video decoder that is replaced by a fresh one whenever it fails.
///
/// What a decoder gives for a packet depends on the packets it has taken
/// before, so the library keeps account of them: `seen` is the list of
/// packets that the decoder at hand has taken since it was opened.
pub struct VideoDecoder {
    decoder: Option<openh264::decoder::Decoder>,
    history: Ghost<Seq<Seq<u8>>>,
}

impl VideoDecoder {
    /// Whether a decoder is at hand. There is none before the first packet
    /// and after a failure from which no fresh decoder could be opened.
    pub closed spec fn ready(&self) -> bool {
        self.decoder is Some
    }

    /// The packets that the decoder at hand has taken since it was opened,
    /// oldest first: what its pictures can refer to. Empty where no decoder
    /// is at hand.
    pub closed spec fn seen(&self) -> Seq<Seq<u8>> {
        if self.decoder is Some {
            self.history@
        } else {
            Seq::empty()
        }
    }

    /// A decoder that is opened with the first packet.
    pub fn new() -> (d: Self)
        ensures
            !d.ready(),
            d.seen() == Seq::<Seq<u8>>::empty(),
    {
        VideoDecoder { decoder: None, history: Ghost(Seq::empty()) }
    }

    /// Throws the decoder's state away and opens a fresh decoder, which
    /// has taken no packet and so refers to no earlier frame. Whether a
    /// decoder can be opened is for the codec to decide; where it cannot,
    /// none is at hand afterwards, and the next packet tries again.
    fn reset(&mut self)
        ensures
            final(self).seen() == Seq::<Seq<u8>>::empty(),
    {
        self.decoder = match open_decoder() {
            Ok(fresh) => Some(fresh),
            Err(_) => None,
        };
        self.history = Ghost(Seq::empty());
    }

    /// Feeds one packet to the decoder; where none is at hand, one is
    /// opened first.
    ///
    /// A picture that comes back has every row of every plane inside its
    /// plane. No picture yet is no error. In both cases the decoder that
    /// took the packet stays at hand, with the packet added to what it has
    /// seen. After a failure the decoder has been replaced by a fresh one,
    /// which has seen nothing: the frame is skipped and the next key frame
    /// brings the view up to date. The failure ends nothing but the handling
    /// of this packet. A packet longer than `MAX_PACKET_LEN` is a failure.
    /// Which of the three a packet brings is otherwise for the codec to
    /// decide.
    pub fn decode(&mut self, packet: &[u8]) -> (outcome: DecodeOutcome)
        ensures
            outcome matches DecodeOutcome::Frame(frame) ==> frame.wf(),
            packet@.len() > MAX_PACKET_LEN ==> outcome is Failed,
            outcome is Failed ==> final(self).seen() == Seq::<Seq<u8>>::empty(),
            !(outcome is Failed) ==> final(self).ready() && final(self).seen() == old(self).seen().push(
                packet@,
            ),
    {
        if packet.len() > MAX_PACKET_LEN {
            self.reset();
            return DecodeOutcome::Failed;
        }
        if self.decoder.is_none() {
            self.reset();
        }
        let outcome = match &mut self.decoder {
            Some(decoder) => settle_decoded(decode_packet(decoder, packet)),
            None => DecodeOutcome::Failed,
        };
        match outcome {
            DecodeOutcome::Failed => {
                self.reset();
                DecodeOutcome::Failed
            },
            other => {
                self.history = Ghost(self.history@.push(packet@));
                other
            },
        }
    }
}

} // verus!
