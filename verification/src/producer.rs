//! The producing side of a session: what is sent for each capture.

use vstd::prelude::*;
use crate::codec::CodecError;
use crate::codec::MAX_UNPACKED_LEN;
use crate::codec::check_surely_within_limits;
use crate::codec::pack_short;
use crate::codec::surely_within_limits;
use crate::codec::unpacked;
use crate::codec::unpacked_delta;
use crate::codec::within_limits;
use crate::delta::DiffConfig;
use crate::delta::DirtyRect;
use crate::delta::FramePlan;
use crate::delta::PlanKind;
use crate::delta::RectView;
use crate::delta::default_diff_config;
use crate::delta::diff_input;
use crate::delta::exceeds_threshold;
use crate::delta::frame_size_ok;
use crate::delta::plan_frame;
use crate::delta::plan_kind;
use crate::delta::rect_views;
use crate::delta::total_pixels;
use crate::h264::encodable_size;
use crate::message_type::MessageType;
use crate::payload::RECT_HEADER_LEN;
use crate::payload::delta_payload;
use crate::payload::encodable;
use crate::payload::lemma_delta_payload_len;
use crate::payload::lemma_delta_payload_round_trip;
use crate::payload::lemma_rects_bytes_joined;
use crate::payload::lemma_rects_bytes_push;
use crate::payload::rect_bytes;
use crate::payload::rects_bytes;
use crate::payload::write_rect;
use crate::pixels::downscale_rgba_box_2x;
use crate::pixels::halved;
use crate::pixels::rgba_to_rgb_inplace;
use crate::pixels::without_alpha;
use crate::video::KeyframeSchedule;
use crate::video::VideoEncoder;
use crate::video::VideoError;
use crate::video::is_video_batch;
use crate::video::messages_for_encoded;
use crate::video::taken_after;
use crate::wire::Message;
use crate::wire::MessageView;
use crate::wire::message_views;
use crate::wire::put_u32_be;

verus! {

/// What the producer does next for one capture.
#[derive(Debug)]
pub enum FrameStep {
    /// The whole current frame is to be compressed as a still image and
    /// sent as a `FrameFull` message.
    EncodeFull,
    /// These messages are ready to be queued, in this order: the delta
    /// messages of the capture, if it has any, and the end-of-frame
    /// sentinel.
    Send(Vec<Message>),
}

/// What a frame step is, apart from how it is stored.
pub enum FrameStepView {
    EncodeFull,
    Send(Seq<MessageView>),
}

impl View for FrameStep {
    type V = FrameStepView;

    open spec fn view(&self) -> FrameStepView {
        match self {
            FrameStep::EncodeFull => FrameStepView::EncodeFull,
            FrameStep::Send(messages) => FrameStepView::Send(message_views(messages@)),
        }
    }
}

/// Longest edge of a block for which every rectangle of the differ fits a
/// message.
pub const MAX_SURE_BLOCK: usize = 1952;

/// The end-of-frame sentinel.
pub open spec fn sentinel() -> MessageView {
    MessageView { msg_type: MessageType::FrameEnd, payload: Seq::empty() }
}

/// Whether a rectangle can go out in a delta message: it can be written to
/// the wire, and written out alone, behind a count, it is short enough for
/// its block to be surely within the limits of the decompressor.
pub open spec fn fits_message(r: RectView) -> bool {
    encodable(r) && surely_within_limits(4 + RECT_HEADER_LEN + r.pixels.len())
}

/// Whether a list of rectangles can go out in delta messages: each of them
/// fits a message.
pub open spec fn sendable(rects: Seq<RectView>) -> bool {
    forall|i: int| 0 <= i < rects.len() ==> fits_message(#[trigger] rects[i])
}

/// The rectangles that one message brings to the viewing side: those that
/// the payload of a delta message decompresses to and reads as.
pub open spec fn message_rects(m: MessageView) -> Seq<RectView> {
    if m.msg_type == MessageType::FrameDelta {
        match unpacked_delta(m.payload) {
            Ok(rects) => rects,
            Err(_) => Seq::empty(),
        }
    } else {
        Seq::empty()
    }
}

/// The rectangles that a run of messages brings to the viewing side, in the
/// order in which they arrive.
pub open spec fn carried_rects(messages: Seq<MessageView>) -> Seq<RectView>
    decreases messages.len(),
{
    if messages.len() == 0 {
        Seq::empty()
    } else {
        message_rects(messages.first()) + carried_rects(messages.drop_first())
    }
}

/// Whether a message is a delta message that the viewing side takes: its
/// payload is within the limits of the decompressor, and what comes out is
/// a list of at least one rectangle, written out with its count in front
/// and nothing behind.
pub open spec fn is_delta_message(m: MessageView) -> bool {
    &&& m.msg_type == MessageType::FrameDelta
    &&& within_limits(m.payload)
    &&& message_rects(m).len() > 0
    &&& unpacked(m.payload) == Ok::<Seq<u8>, CodecError>(delta_payload(message_rects(m)))
}

/// Whether the messages are the batch of a list of rectangles: delta
/// messages that the viewing side takes, which together bring the
/// rectangles of the list in their order, and the end-of-frame sentinel
/// behind them. A list that is short enough written out for its block to be
/// surely within the limits of the decompressor goes out in one message.
pub open spec fn is_delta_batch(messages: Seq<MessageView>, rects: Seq<RectView>) -> bool {
    &&& messages.len() > 0
    &&& messages.last() == sentinel()
    &&& forall|i: int| 0 <= i < messages.len() - 1 ==> is_delta_message(#[trigger] messages[i])
    &&& carried_rects(messages) == rects
    &&& (rects.len() > 0 && surely_within_limits(delta_payload(rects).len() as int))
        ==> messages.len() == 2
}

/// A run of messages with one more behind it brings what the run brings,
/// then what the one brings.
pub proof fn lemma_carried_push(messages: Seq<MessageView>, m: MessageView)
    ensures
        carried_rects(messages.push(m)) == carried_rects(messages) + message_rects(m),
    decreases messages.len(),
{
    let longer = messages.push(m);
    if messages.len() == 0 {
        assert(longer.first() == m);
        assert(longer.drop_first() =~= Seq::<MessageView>::empty());
        assert(carried_rects(Seq::<MessageView>::empty()) == Seq::<RectView>::empty());
        assert(carried_rects(longer) == message_rects(m) + carried_rects(longer.drop_first()));
        assert(message_rects(m) + Seq::<RectView>::empty() =~= Seq::<RectView>::empty()
            + message_rects(m));
    } else {
        let head = message_rects(messages.first());
        let tail = carried_rects(messages.drop_first());
        assert(longer.first() == messages.first());
        assert(longer.drop_first() =~= messages.drop_first().push(m));
        lemma_carried_push(messages.drop_first(), m);
        assert(carried_rects(longer) == head + carried_rects(longer.drop_first()));
        assert(head + (tail + message_rects(m)) =~= (head + tail) + message_rects(m));
    }
}

/// A list of rectangles that is short enough written out goes out in one
/// delta message, and the payload of that message is the compression of
/// the count and the rectangles written out: the decompressor of the
/// viewing side turns it back into exactly these bytes.
pub proof fn lemma_short_list_in_one_message(messages: Seq<MessageView>, rects: Seq<RectView>)
    requires
        is_delta_batch(messages, rects),
        rects.len() > 0,
        surely_within_limits(delta_payload(rects).len() as int),
    ensures
        messages.len() == 2,
        messages[0].msg_type == MessageType::FrameDelta,
        within_limits(messages[0].payload),
        unpacked(messages[0].payload) == Ok::<Seq<u8>, CodecError>(delta_payload(rects)),
        messages[1] == sentinel(),
{
    let rest = messages.drop_first();
    assert(is_delta_message(messages[0]));
    assert(rest.first() == sentinel());
    assert(rest.drop_first() =~= Seq::<MessageView>::empty());
    assert(carried_rects(rest.drop_first()) == Seq::<RectView>::empty());
    assert(carried_rects(rest) =~= Seq::<RectView>::empty());
    assert(carried_rects(messages) =~= message_rects(messages[0]));
}

/// Tests `fits_message`.
pub fn check_fits_message(rect: &DirtyRect) -> (ok: bool)
    ensures
        ok == fits_message(rect@),
{
    assert(rect.w * rect.h * 4 <= u128::MAX && rect.w * rect.h <= u128::MAX) by (nonlinear_arith)
        requires
            rect.w <= u32::MAX,
            rect.h <= u32::MAX,
    ;
    let need: u128 = (rect.w as u128) * (rect.h as u128) * 4;
    if need != rect.pixels.len() as u128 || rect.pixels.len() > MAX_UNPACKED_LEN as usize {
        return false;
    }
    check_surely_within_limits(4 + RECT_HEADER_LEN + rect.pixels.len())
}

/// Closes a part of the list: writes the count in front of the rectangles
/// written out, compresses the payload and wraps it into a delta message.
/// The buffer of the part is empty afterwards.
fn part_message(count: u32, body: &mut Vec<u8>, Ghost(part): Ghost<Seq<RectView>>) -> (m: Message)
    requires
        count > 0,
        part.len() == count,
        old(body)@ == rects_bytes(part),
        forall|k: int| 0 <= k < part.len() ==> encodable(#[trigger] part[k]),
        surely_within_limits(4 + old(body)@.len() as int),
    ensures
        final(body)@.len() == 0,
        is_delta_message(m@),
        message_rects(m@) == part,
{
    let mut payload: Vec<u8> = Vec::new();
    put_u32_be(&mut payload, count);
    payload.append(body);
    assert(payload@ =~= delta_payload(part));
    let block = pack_short(payload.as_slice());
    proof {
        lemma_delta_payload_round_trip(part);
    }
    Message { msg_type: MessageType::FrameDelta, payload: block }
}

/// Whether messages and a part that is still open hold the rectangles taken
/// so far: the messages are delta messages that the viewing side takes, and
/// what they bring, with the part behind it, is what was taken.
pub open spec fn holds_taken(done: Seq<MessageView>, part: Seq<RectView>, taken: Seq<RectView>) -> bool {
    &&& forall|k: int| 0 <= k < done.len() ==> is_delta_message(#[trigger] done[k])
    &&& carried_rects(done) + part == taken
}

/// Nothing taken is held by no message and an empty part.
proof fn lemma_holds_nothing()
    ensures
        holds_taken(Seq::empty(), Seq::empty(), Seq::empty()),
{
    assert(carried_rects(Seq::<MessageView>::empty()) + Seq::<RectView>::empty() =~= Seq::<
        RectView,
    >::empty());
}

/// One more rectangle taken goes into the open part.
proof fn lemma_holds_one_more(
    done: Seq<MessageView>,
    part: Seq<RectView>,
    taken: Seq<RectView>,
    r: RectView,
)
    requires
        holds_taken(done, part, taken),
    ensures
        holds_taken(done, part.push(r), taken.push(r)),
{
    assert(carried_rects(done) + part.push(r) =~= (carried_rects(done) + part).push(r));
}

/// A part that is closed becomes one more message, and an empty part is
/// open behind it.
proof fn lemma_holds_closed_part(
    done: Seq<MessageView>,
    part: Seq<RectView>,
    taken: Seq<RectView>,
    m: MessageView,
)
    requires
        holds_taken(done, part, taken),
        is_delta_message(m),
        message_rects(m) == part,
    ensures
        holds_taken(done.push(m), Seq::empty(), taken),
{
    lemma_carried_push(done, m);
    assert((carried_rects(done) + part) + Seq::<RectView>::empty() =~= carried_rects(done) + part);
}

/// With no part open, the messages and the sentinel behind them are the
/// batch of what was taken, as far as what they bring goes.
proof fn lemma_holds_whole_batch(done: Seq<MessageView>, taken: Seq<RectView>)
    requires
        holds_taken(done, Seq::empty(), taken),
    ensures
        done.push(sentinel()).len() > 0,
        done.push(sentinel()).last() == sentinel(),
        forall|i: int|
            0 <= i < done.push(sentinel()).len() - 1 ==> is_delta_message(
                #[trigger] done.push(sentinel())[i],
            ),
        carried_rects(done.push(sentinel())) == taken,
{
    let all = done.push(sentinel());
    lemma_carried_push(done, sentinel());
    assert(carried_rects(done) + Seq::<RectView>::empty() =~= carried_rects(done));
    assert forall|i: int| 0 <= i < all.len() - 1 implies is_delta_message(#[trigger] all[i]) by {
        assert(all[i] == done[i]);
    }
}

/// With no message yet, the open part is all that was taken.
proof fn lemma_holds_in_part(part: Seq<RectView>, taken: Seq<RectView>)
    requires
        holds_taken(Seq::empty(), part, taken),
    ensures
        part == taken,
{
    assert(carried_rects(Seq::<MessageView>::empty()) + part =~= part);
}

/// The first rectangles of a list are no longer written out than the list.
proof fn lemma_front_is_shorter(all: Seq<RectView>, n: int)
    requires
        0 <= n <= all.len(),
    ensures
        rects_bytes(all.subrange(0, n)).len() <= rects_bytes(all).len(),
{
    assert(all =~= all.subrange(0, n) + all.subrange(n, all.len() as int));
    lemma_rects_bytes_joined(all.subrange(0, n), all.subrange(n, all.len() as int));
}

/// Closes the open part: its message goes behind the others.
fn close_part(
    out: &mut Vec<Message>,
    count: u32,
    body: &mut Vec<u8>,
    Ghost(part): Ghost<Seq<RectView>>,
    Ghost(taken): Ghost<Seq<RectView>>,
)
    requires
        count > 0,
        part.len() == count,
        old(body)@ == rects_bytes(part),
        forall|k: int| 0 <= k < part.len() ==> encodable(#[trigger] part[k]),
        surely_within_limits(4 + old(body)@.len() as int),
        holds_taken(message_views(old(out)@), part, taken),
    ensures
        final(body)@ == Seq::<u8>::empty(),
        final(out)@.len() == old(out)@.len() + 1,
        holds_taken(message_views(final(out)@), Seq::empty(), taken),
{
    let ghost before = message_views(out@);
    let message = part_message(count, body, Ghost(part));
    out.push(message);
    proof {
        assert(message_views(out@) =~= before.push(message@));
        lemma_holds_closed_part(before, part, taken, message@);
        assert(body@ =~= Seq::<u8>::empty());
    }
}

/// The batch of a list of rectangles: the list goes out in one delta
/// message if it is short enough, and in several, each as long as the
/// limits of the decompressor surely allow, if it is not; the end-of-frame
/// sentinel follows. `None` exactly when one of the rectangles fits no
/// message.
pub fn delta_batch(rects: &Vec<DirtyRect>) -> (r: Option<Vec<Message>>)
    ensures
        sendable(rect_views(rects@)) ==> (r matches Some(messages) && is_delta_batch(
            message_views(messages@),
            rect_views(rects@),
        )),
        !sendable(rect_views(rects@)) ==> r is None,
{
    let ghost all = rect_views(rects@);
    let mut out: Vec<Message> = Vec::new();
    let mut body: Vec<u8> = Vec::new();
    let mut count: u32 = 0;
    let ghost mut part: Seq<RectView> = Seq::empty();
    let mut i: usize = 0;
    proof {
        lemma_holds_nothing();
        assert(message_views(out@) =~= Seq::<MessageView>::empty());
        assert(all.subrange(0, 0) =~= Seq::<RectView>::empty());
    }
    while i < rects.len()
        invariant
            i <= rects.len(),
            all == rect_views(rects@),
            usize::MAX >= 0xFFFF_FFFF,
            forall|k: int| 0 <= k < i ==> fits_message(#[trigger] all[k]),
            holds_taken(message_views(out@), part, all.subrange(0, i as int)),
            body@ == rects_bytes(part),
            count == part.len(),
            body@.len() >= RECT_HEADER_LEN * part.len(),
            forall|k: int| 0 <= k < part.len() ==> encodable(#[trigger] part[k]),
            part.len() > 0 ==> surely_within_limits(4 + body@.len() as int),
            surely_within_limits(4 + rects_bytes(all).len() as int) ==> out@.len() == 0,
        decreases rects.len() - i,
    {
        let rect = &rects[i];
        assert(all[i as int] == rect@);
        if !check_fits_message(rect) {
            return None;
        }
        let need: usize = RECT_HEADER_LEN + rect.pixels.len();
        if count > 0 && !check_surely_within_limits(4 + body.len() + need) {
            proof {
                if out@.len() == 0 {
                    assert(message_views(out@) =~= Seq::<MessageView>::empty());
                    lemma_holds_in_part(part, all.subrange(0, i as int));
                    assert(all.subrange(0, i + 1) =~= part.push(rect@));
                    lemma_rects_bytes_push(part, rect@);
                    lemma_front_is_shorter(all, i + 1);
                }
            }
            close_part(&mut out, count, &mut body, Ghost(part), Ghost(all.subrange(0, i as int)));
            proof {
                part = Seq::empty();
            }
            count = 0;
        }
        write_rect(&mut body, rect);
        proof {
            lemma_rects_bytes_push(part, rect@);
            lemma_holds_one_more(message_views(out@), part, all.subrange(0, i as int), rect@);
            assert(all.subrange(0, i + 1) =~= all.subrange(0, i as int).push(rect@));
            part = part.push(rect@);
        }
        count = count + 1;
        i = i + 1;
    }
    assert(all.subrange(0, i as int) =~= all);
    let ghost short = surely_within_limits(4 + rects_bytes(all).len() as int);
    proof {
        lemma_delta_payload_len(all);
        if out@.len() == 0 {
            assert(message_views(out@) =~= Seq::<MessageView>::empty());
            lemma_holds_in_part(part, all);
        }
    }
    if count > 0 {
        close_part(&mut out, count, &mut body, Ghost(part), Ghost(all));
    }
    assert((short && all.len() > 0) ==> out@.len() == 1);
    let ghost deltas = message_views(out@);
    out.push(Message { msg_type: MessageType::FrameEnd, payload: Vec::new() });
    proof {
        assert(message_views(out@) =~= deltas.push(sentinel()));
        lemma_holds_whole_batch(deltas, all);
        assert(message_views(out@).len() == out@.len());
    }
    Some(out)
}

/// Whether a step is the one that follows from a capture, by the rules of
/// the differ:
///
/// - a whole frame where the buffers do not have the size that the
///   dimensions give (no diff is possible; the frame brings both ends back
///   in step), where the changed share is above the threshold, and where
///   one of the rectangles fits no message;
/// - the end-of-frame sentinel alone where nothing has changed;
/// - where there are rectangles, the batch of their list: delta messages
///   that the viewing side takes and that bring it the rectangles in their
///   order, and the sentinel.
pub open spec fn is_frame_step(
    step: FrameStepView,
    prev: Seq<u8>,
    cur: Seq<u8>,
    width: usize,
    height: usize,
    config: DiffConfig,
) -> bool {
    if !(frame_size_ok(cur.len() as int, width as int, height as int) && prev.len() == cur.len()) {
        step is EncodeFull
    } else {
        let rects = diff_input(prev, cur, width, height, config.block_size).changed_rects();
        match plan_kind(
            rects.len() as int,
            total_pixels(rects),
            width * height,
            config.threshold_num as int,
            config.threshold_den as int,
        ) {
            PlanKind::Full => step is EncodeFull,
            PlanKind::Idle => step == FrameStepView::Send(seq![sentinel()]),
            PlanKind::Delta => if sendable(rects) {
                step matches FrameStepView::Send(messages) && is_delta_batch(messages, rects)
            } else {
                step is EncodeFull
            },
        }
    }
}

/// The three-way rule for a list of rectangles and the answer to whether
/// their share of the frame is above the threshold: the sentinel alone if
/// and only if there is no rectangle; the whole frame if and only if the
/// share is above the threshold; delta messages and the sentinel if and only
/// if there are rectangles and the share is at most the threshold, and then
/// the messages are the batch of the rectangles.
pub open spec fn three_way(step: FrameStepView, rects: Seq<RectView>, over: bool) -> bool {
    &&& step == FrameStepView::Send(seq![sentinel()]) <==> rects.len() == 0
    &&& step is EncodeFull <==> over
    &&& (step matches FrameStepView::Send(messages) && messages.len() >= 2) <==> (rects.len() > 0
        && !over)
    &&& (rects.len() > 0 && !over) ==> (step matches FrameStepView::Send(messages) && is_delta_batch(
        messages,
        rects,
    ))
}

/// The three-way rule holds of what the producer does for two frames of one
/// size whose rectangles each fit a message.
pub proof fn lemma_three_way_rule(
    step: FrameStepView,
    prev: Seq<u8>,
    cur: Seq<u8>,
    width: usize,
    height: usize,
    config: DiffConfig,
)
    requires
        config.wf(),
        is_frame_step(step, prev, cur, width, height, config),
        frame_size_ok(cur.len() as int, width as int, height as int),
        prev.len() == cur.len(),
        sendable(diff_input(prev, cur, width, height, config.block_size).changed_rects()),
    ensures
        ({
            let rects = diff_input(prev, cur, width, height, config.block_size).changed_rects();
            three_way(
                step,
                rects,
                exceeds_threshold(
                    total_pixels(rects),
                    width * height,
                    config.threshold_num as int,
                    config.threshold_den as int,
                ),
            )
        }),
{
    let rects = diff_input(prev, cur, width, height, config.block_size).changed_rects();
    let total = width * height;
    let num = config.threshold_num as int;
    let den = config.threshold_den as int;
    let alone = seq![sentinel()];
    assert(alone.first() == sentinel());
    assert(alone.drop_first() =~= Seq::<MessageView>::empty());
    assert(carried_rects(Seq::<MessageView>::empty()) == Seq::<RectView>::empty());
    assert(carried_rects(alone) =~= Seq::<RectView>::empty());
    if rects.len() == 0 {
        assert(total_pixels(rects) == 0);
        assert(0 * den == 0) by (nonlinear_arith);
        assert(total * num >= 0) by (nonlinear_arith)
            requires
                total >= 0,
                num >= 0,
        ;
    } else {
        match step {
            FrameStepView::Send(messages) => {
                if messages.len() == 1 {
                    assert(messages =~= alone);
                }
            },
            FrameStepView::EncodeFull => {},
        }
    }
}

/// Decides what is sent for the capture `rgba`, given the previous frame,
/// with the parameters of `config`. Whatever the decision, the capture is
/// the previous frame from now on.
///
/// With blocks of at most `MAX_SURE_BLOCK` pixels along the edge every
/// rectangle fits a message, so the rectangles go out as delta messages
/// however many they are.
pub fn handle_frame_delta_with(
    prev_frame: &mut Vec<u8>,
    width: usize,
    height: usize,
    rgba: Vec<u8>,
    config: &DiffConfig,
) -> (step: FrameStep)
    requires
        config.wf(),
    ensures
        final(prev_frame)@ == rgba@,
        is_frame_step(step@, old(prev_frame)@, rgba@, width, height, *config),
{
    let plan = plan_frame(prev_frame.as_slice(), rgba.as_slice(), width, height, config);
    let step = match plan {
        FramePlan::Full => FrameStep::EncodeFull,
        FramePlan::Idle => {
            let mut alone: Vec<Message> = Vec::new();
            alone.push(Message { msg_type: MessageType::FrameEnd, payload: Vec::new() });
            assert(message_views(alone@) =~= seq![sentinel()]);
            FrameStep::Send(alone)
        },
        FramePlan::Delta(delta) => match delta_batch(&delta.rects) {
            Some(messages) => FrameStep::Send(messages),
            None => FrameStep::EncodeFull,
        },
    };
    *prev_frame = rgba;
    step
}

/// Decides what is sent for the capture `rgba`, given the previous frame,
/// with blocks of 128 pixels and a threshold of one half. Whatever the
/// decision, the capture is the previous frame from now on.
pub fn handle_frame_delta(prev_frame: &mut Vec<u8>, width: usize, height: usize, rgba: Vec<u8>) -> (step:
    FrameStep)
    ensures
        final(prev_frame)@ == rgba@,
        is_frame_step(step@, old(prev_frame)@, rgba@, width, height, default_diff_config()),
{
    let config = DiffConfig::default();
    handle_frame_delta_with(prev_frame, width, height, rgba, &config)
}

/// How much of the colour resolution a still image keeps.
#[derive(Debug, Copy, Clone, PartialEq, Eq, Structural)]
pub enum Subsampling {
    /// Colour at full resolution.
    Full,
    /// Colour at half the horizontal resolution.
    Half,
    /// Colour at half the resolution in both directions.
    Quarter,
}

/// The tunable parameters of the still-image path.
#[derive(Debug, Copy, Clone, PartialEq, Eq, Structural)]
pub struct StillConfig {
    pub quality: u8,
    pub subsampling: Subsampling,
}

/// The parameters where the caller names none: quality 80, colour at half
/// the resolution in both directions.
pub open spec fn default_still_config() -> StillConfig {
    StillConfig { quality: 80, subsampling: Subsampling::Quarter }
}

impl StillConfig {
    /// The quality lies between 1 and 100.
    pub open spec fn wf(&self) -> bool {
        1 <= self.quality <= 100
    }

    /// Parameters with the given values; `None` exactly when the quality
    /// does not lie between 1 and 100.
    pub fn new(quality: u8, subsampling: Subsampling) -> (c: Option<Self>)
        ensures
            (1 <= quality <= 100) ==> c == Some((StillConfig { quality, subsampling })),
            !(1 <= quality <= 100) ==> c is None,
    {
        if 1 <= quality && quality <= 100 {
            Some(StillConfig { quality, subsampling })
        } else {
            None
        }
    }
}

impl Default for StillConfig {
    /// Quality 80, colour at half the resolution in both directions.
    fn default() -> (c: Self)
        ensures
            c == default_still_config(),
            c.wf(),
    {
        StillConfig { quality: 80, subsampling: Subsampling::Quarter }
    }
}

/// The messages of one frame's batch: the message itself and, unless it is
/// the end-of-frame sentinel already, the sentinel behind it.
pub open spec fn batch_of(message: MessageView) -> Seq<MessageView> {
    if message.msg_type == MessageType::FrameEnd {
        seq![message]
    } else {
        seq![message, (MessageView { msg_type: MessageType::FrameEnd, payload: Seq::empty() })]
    }
}

/// Closes the batch of one frame: whatever is sent for a capture ends with
/// the end-of-frame sentinel, so that the viewing side presents only whole
/// batches and hears from the producer even when nothing has changed.
pub fn close_batch(message: Message) -> (out: Vec<Message>)
    ensures
        message_views(out@) == batch_of(message@),
{
    let sentinel = message.msg_type == MessageType::FrameEnd;
    let mut out: Vec<Message> = Vec::new();
    out.push(message);
    if !sentinel {
        out.push(Message { msg_type: MessageType::FrameEnd, payload: Vec::new() });
    }
    assert(message_views(out@) =~= batch_of(message@));
    out
}

/// The motion path of the producer: every capture is halved in both
/// directions, stripped of its alpha channel and fed to the video encoder.
pub struct VideoProducer {
    encoder: VideoEncoder,
    width: usize,
    height: usize,
    interval: u32,
    half: Vec<u8>,
    rgb: Vec<u8>,
}

/// What the encoder is handed for a capture: the capture halved in both
/// directions, without its alpha bytes.
pub open spec fn prepared(rgba: Seq<u8>, width: int, height: int) -> Seq<u8> {
    without_alpha(halved(rgba, width, height))
}

/// Whether a capture of the given size can be fed to the video encoder: the
/// halved dimensions are even and fit 32 bits.
pub open spec fn capture_size_ok(width: int, height: int) -> bool {
    0 <= width && 0 <= height && encodable_size(width / 2, height / 2)
}

impl VideoProducer {
    /// Width in pixels of the captures that are taken.
    pub closed spec fn width(&self) -> int {
        self.width as int
    }

    /// Height in pixels of the captures that are taken.
    pub closed spec fn height(&self) -> int {
        self.height as int
    }

    /// Cycles between two key frames.
    pub closed spec fn interval(&self) -> int {
        self.interval as int
    }

    /// The schedule of key frames.
    pub closed spec fn schedule(&self) -> KeyframeSchedule {
        self.encoder.schedule()
    }

    /// The prepared frames that the encoder at hand has taken since it was
    /// opened, oldest first.
    pub closed spec fn taken(&self) -> Seq<Seq<u8>> {
        self.encoder.taken()
    }

    /// The frames taken after one more capture of the producer's size: on
    /// a key cycle the prepared capture alone, else the frames taken before,
    /// and the prepared capture.
    pub open spec fn taken_with(&self, rgba: Seq<u8>) -> Seq<Seq<u8>> {
        taken_after(self.schedule(), self.taken(), prepared(rgba, self.width(), self.height()))
    }

    /// The encoder is open for half the capture size and the scratch
    /// buffers have the sizes that go with it.
    pub closed spec fn wf(&self) -> bool {
        &&& self.encoder.wf()
        &&& self.interval > 0
        &&& self.encoder.schedule().interval() == self.interval
        &&& self.encoder.width() == self.width / 2
        &&& self.encoder.height() == self.height / 2
        &&& self.half@.len() == (self.width / 2) * (self.height / 2) * 4
        &&& self.rgb@.len() == (self.width / 2) * (self.height / 2) * 3
    }

    /// Opens the motion path for captures of the given size, with a key
    /// frame every `interval` cycles.
    ///
    /// Fails with `Config` exactly when the halved dimensions are not even
    /// or do not fit 32 bits, or the interval is zero. Otherwise the codec
    /// decides: its refusal is reported as `Codec`.
    pub fn open(width: usize, height: usize, interval: u32) -> (r: Result<Self, VideoError>)
        ensures
            !(capture_size_ok(width as int, height as int) && interval > 0) ==> (r matches Err(e) && e
                == VideoError::Config),
            (capture_size_ok(width as int, height as int) && interval > 0) ==> match r {
                Ok(p) => p.wf() && p.width() == width && p.height() == height && p.interval()
                    == interval && p.schedule().position() == 0 && p.taken() == Seq::<
                    Seq<u8>,
                >::empty(),
                Err(e) => e == VideoError::Codec,
            },
    {
        let nw: usize = width / 2;
        let nh: usize = height / 2;
        let encoder = match VideoEncoder::open(nw, nh, interval) {
            Ok(encoder) => encoder,
            Err(e) => {
                return Err(e);
            },
        };
        assert(nw * nh * 4 <= u128::MAX && nw * nh <= u128::MAX) by (nonlinear_arith)
            requires
                nw <= u32::MAX,
                nh <= u32::MAX,
        ;
        let pixels: u128 = (nw as u128) * (nh as u128);
        if pixels * 4 > usize::MAX as u128 {
            return Err(VideoError::Codec);
        }
        let mut half: Vec<u8> = Vec::new();
        let mut rgb: Vec<u8> = Vec::new();
        half.resize(nw * nh * 4, 0u8);
        rgb.resize(nw * nh * 3, 0u8);
        Ok(VideoProducer { encoder, width, height, interval, half, rgb })
    }

    /// Encodes one capture and returns the messages to be queued for it:
    /// the encoded frame and the end-of-frame sentinel, or the sentinel
    /// alone where the encoder produced no bytes.
    ///
    /// The capture is halved in both directions and stripped of its alpha
    /// bytes, and that is what the encoder is handed; on a key cycle it is a
    /// fresh encoder that takes it. Fails with `Length`, and counts no
    /// cycle, exactly when the capture does not have the size that the
    /// producer was opened for; with `Codec` when the codec refuses.
    pub fn encode(&mut self, rgba: &[u8]) -> (r: Result<Vec<Message>, VideoError>)
        requires
            old(self).wf(),
        ensures
            final(self).wf(),
            final(self).width() == old(self).width(),
            final(self).height() == old(self).height(),
            final(self).interval() == old(self).interval(),
            rgba@.len() != old(self).width() * old(self).height() * 4 ==> (r matches Err(e) && e
                == VideoError::Length && final(self).schedule() == old(self).schedule()
                && final(self).taken() == old(self).taken()),
            rgba@.len() == old(self).width() * old(self).height() * 4 ==> final(self).schedule().position()
                == old(self).schedule().next_position() && match r {
                Ok(messages) => final(self).taken() == old(self).taken_with(rgba@) && is_video_batch(message_views(messages@)),
                Err(e) => e == VideoError::Codec && (final(self).taken() == old(self).taken()
                    || final(self).taken() == old(self).taken_with(rgba@)),
            },
    {
        assert(self.width * self.height * 4 <= u128::MAX && self.width * self.height <= u128::MAX)
            by (nonlinear_arith)
            requires
                self.width <= 0x1_FFFF_FFFF,
                self.height <= 0x1_FFFF_FFFF,
        ;
        let need: u128 = (self.width as u128) * (self.height as u128) * 4;
        if need != rgba.len() as u128 {
            return Err(VideoError::Length);
        }
        let (nw, nh) = downscale_rgba_box_2x(self.half.as_mut_slice(), rgba, self.width, self.height);
        rgba_to_rgb_inplace(self.rgb.as_mut_slice(), self.half.as_slice());
        proof {
            let want = halved(rgba@, self.width as int, self.height as int);
            assert(self.half@ =~= self.half@.subrange(0, nw * nh * 4));
            assert((self.half@.len() / 4) * 3 == self.rgb@.len());
            assert(self.rgb@ =~= self.rgb@.subrange(0, ((self.half@.len() / 4) * 3) as int));
            assert(self.rgb@ == prepared(rgba@, self.width as int, self.height as int));
        }
        match self.encoder.encode(self.rgb.as_slice()) {
            Ok(encoded) => {
                Ok(messages_for_encoded(encoded))
            },
            Err(e) => Err(e),
        }
    }

    /// Makes the next capture a key frame, whatever the count of cycles:
    /// for the moment when the other side could not decode what it was
    /// sent. The next capture is then taken by a fresh encoder.
    pub fn force_keyframe(&mut self)
        requires
            old(self).wf(),
        ensures
            final(self).wf(),
            final(self).width() == old(self).width(),
            final(self).height() == old(self).height(),
            final(self).interval() == old(self).interval(),
            final(self).schedule().position() == 0,
            final(self).taken() == old(self).taken(),
    {
        self.encoder.force_keyframe();
    }

    /// Encodes one capture of the given size. A capture of another size
    /// than the one before has the codec opened anew for its size, with the
    /// same key frame interval, before it is encoded: an encoder is never
    /// fed frames of a size it was not opened for, and the first frame of a
    /// new size is taken by a fresh encoder.
    ///
    /// Fails with `Config`, and keeps the codec as it is, exactly when the
    /// size is a new one that cannot be encoded; with `Length` when the data
    /// does not have the length of the size; with `Codec` when the codec
    /// refuses.
    pub fn encode_capture(&mut self, width: usize, height: usize, rgba: &[u8]) -> (r: Result<
        Vec<Message>,
        VideoError,
    >)
        requires
            old(self).wf(),
        ensures
            final(self).wf(),
            final(self).interval() == old(self).interval(),
            ((width != old(self).width() || height != old(self).height()) && !capture_size_ok(
                width as int,
                height as int,
            )) ==> (r matches Err(e) && e == VideoError::Config),
            (width == old(self).width() && height == old(self).height() && rgba@.len() != width
                * height * 4) ==> (r matches Err(e) && e == VideoError::Length),
            match r {
                Ok(messages) => final(self).width() == width && final(self).height() == height
                    && rgba@.len() == width * height * 4 && final(self).taken() == (if width == old(
                    self,
                ).width() && height == old(self).height() {
                    old(self).taken_with(rgba@)
                } else {
                    seq![prepared(rgba@, width as int, height as int)]
                }) && is_video_batch(message_views(messages@)),
                Err(e) => match e {
                    VideoError::Config => !capture_size_ok(width as int, height as int) && (width
                        != old(self).width() || height != old(self).height()) && final(self).width()
                        == old(self).width() && final(self).height() == old(self).height(),
                    VideoError::Length => rgba@.len() != width * height * 4 && final(self).width()
                        == width && final(self).height() == height,
                    VideoError::Codec => true,
                },
            },
    {
        if width != self.width || height != self.height {
            match VideoProducer::open(width, height, self.interval) {
                Ok(fresh) => {
                    *self = fresh;
                },
                Err(e) => {
                    return Err(e);
                },
            }
        }
        self.encode(rgba)
    }
}

} // verus!
