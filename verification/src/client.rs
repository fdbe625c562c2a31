//! The consuming side of a session: updates that arrive are written into the
//! framebuffer, and the presentation is told when to redraw.

use vstd::prelude::*;
use crate::codec::CodecError;
use crate::codec::unpack;
use crate::codec::unpacked;
use crate::delta::RectView;
use crate::framebuffer::FrameError;
use crate::framebuffer::Framebuffer;
use crate::framebuffer::FramebufferView;
use crate::framebuffer::apply_rects;
use crate::framebuffer::count_dropped;
use crate::payload::DeltaError;
use crate::payload::parse_delta;
use crate::payload::parse_delta_payload;

verus! {

/// What the I/O side tells the presentation loop.
#[derive(Debug, Copy, Clone, PartialEq, Eq, Structural)]
pub enum UserEvent {
    /// Updates are waiting in the queue.
    NewUpdate,
    /// The window is to be drawn again.
    Redraw,
}

/// One update for the framebuffer, as queued between the I/O side and the
/// presentation loop.
#[derive(Debug)]
pub enum FrameUpdate {
    /// A whole frame of `w` by `h` pixels.
    Full { w: u32, h: u32, bytes: Vec<u8> },
    /// A delta payload: the rectangle count, then the rectangles.
    Delta(Vec<u8>),
}

/// What an update is, apart from how it is stored.
pub enum FrameUpdateView {
    Full { w: int, h: int, bytes: Seq<u8> },
    Delta(Seq<u8>),
}

impl View for FrameUpdate {
    type V = FrameUpdateView;

    open spec fn view(&self) -> FrameUpdateView {
        match self {
            FrameUpdate::Full { w, h, bytes } => FrameUpdateView::Full {
                w: *w as int,
                h: *h as int,
                bytes: bytes@,
            },
            FrameUpdate::Delta(bytes) => FrameUpdateView::Delta(bytes@),
        }
    }
}

/// The views of a list of updates, in order.
pub open spec fn update_views(updates: Seq<FrameUpdate>) -> Seq<FrameUpdateView> {
    Seq::new(updates.len(), |i: int| updates[i]@)
}

/// Why an update was not applied.
#[derive(Debug, Copy, Clone, PartialEq, Eq, Structural)]
pub enum UpdateError {
    /// A whole frame whose data does not have the length of its dimensions.
    Frame(FrameError),
    /// A delta payload that ends too early.
    Delta(DeltaError),
}

/// The framebuffer after a whole frame: the frame, where its data has the
/// length of its dimensions; otherwise what it was.
pub open spec fn after_full(fb: FramebufferView, w: int, h: int, bytes: Seq<u8>) -> FramebufferView {
    if bytes.len() == w * h * 4 {
        FramebufferView { width: w, height: h, pixels: bytes }
    } else {
        fb
    }
}

/// The framebuffer after a delta payload: with the rectangles that fit
/// written into it, where the payload can be read; otherwise what it was.
pub open spec fn after_delta(fb: FramebufferView, payload: Seq<u8>) -> FramebufferView {
    match parse_delta(payload) {
        Ok(rects) => FramebufferView {
            width: fb.width,
            height: fb.height,
            pixels: apply_rects(fb.pixels, fb.width, fb.height, rects),
        },
        Err(_) => fb,
    }
}

/// The framebuffer after one update.
pub open spec fn after_update(fb: FramebufferView, update: FrameUpdateView) -> FramebufferView {
    match update {
        FrameUpdateView::Full { w, h, bytes } => after_full(fb, w, h, bytes),
        FrameUpdateView::Delta(payload) => after_delta(fb, payload),
    }
}

/// Whether an update can be applied, and if not, why.
pub open spec fn update_outcome(update: FrameUpdateView) -> Result<(), UpdateError> {
    match update {
        FrameUpdateView::Full { w, h, bytes } => if bytes.len() == w * h * 4 {
            Ok(())
        } else {
            Err(UpdateError::Frame(FrameError::InvalidLength))
        },
        FrameUpdateView::Delta(payload) => match parse_delta(payload) {
            Ok(_) => Ok(()),
            Err(e) => Err(UpdateError::Delta(e)),
        },
    }
}

/// The framebuffer after a list of updates, the first one first.
pub open spec fn after_updates(fb: FramebufferView, updates: Seq<FrameUpdateView>) -> FramebufferView
    decreases updates.len(),
{
    if updates.len() == 0 {
        fb
    } else {
        after_updates(after_update(fb, updates.first()), updates.drop_first())
    }
}

/// Takes in a whole frame: the framebuffer becomes the frame and takes on
/// its dimensions. Fails, and changes nothing, exactly when the data does
/// not have the length of the dimensions.
pub fn handle_frame_full(width: u32, height: u32, payload: &[u8], fb: &mut Framebuffer) -> (r: Result<
    (),
    FrameError,
>)
    requires
        old(fb).wf(),
    ensures
        final(fb).wf(),
        final(fb)@ == after_full(old(fb)@, width as int, height as int, payload@),
        payload@.len() == width * height * 4 ==> r is Ok,
        payload@.len() != width * height * 4 ==> r == Err::<(), FrameError>(FrameError::InvalidLength),
{
    fb.apply_full(width, height, payload)
}

/// Takes in a delta payload: reads the rectangle list and writes every
/// rectangle that fits into the framebuffer. Returns how many rectangles
/// were dropped because they do not fit. A payload that ends too early is an
/// error and changes nothing.
pub fn handle_frame_delta(payload: &[u8], fb: &mut Framebuffer) -> (r: Result<usize, DeltaError>)
    requires
        old(fb).wf(),
    ensures
        final(fb).wf(),
        final(fb)@ == after_delta(old(fb)@, payload@),
        match r {
            Ok(dropped) => parse_delta(payload@) matches Ok(rects) && dropped == count_dropped(
                old(fb)@.width,
                old(fb)@.height,
                rects,
            ),
            Err(e) => parse_delta(payload@) == Err::<Seq<RectView>, DeltaError>(e),
        },
{
    match parse_delta_payload(payload) {
        Ok(rects) => Ok(fb.apply_delta(&rects)),
        Err(e) => Err(e),
    }
}

/// Applies one update to the framebuffer.
pub fn apply_update(fb: &mut Framebuffer, update: &FrameUpdate) -> (r: Result<(), UpdateError>)
    requires
        old(fb).wf(),
    ensures
        final(fb).wf(),
        final(fb)@ == after_update(old(fb)@, update@),
        r == update_outcome(update@),
{
    match update {
        FrameUpdate::Full { w, h, bytes } => match handle_frame_full(*w, *h, bytes.as_slice(), fb) {
            Ok(()) => Ok(()),
            Err(e) => Err(UpdateError::Frame(e)),
        },
        FrameUpdate::Delta(payload) => match handle_frame_delta(payload.as_slice(), fb) {
            Ok(_) => Ok(()),
            Err(e) => Err(UpdateError::Delta(e)),
        },
    }
}

/// Applies every update that is waiting, in order, before anything is
/// drawn, and says whether a redraw is due: it is whenever there was at
/// least one update. An update that cannot be applied is skipped and does
/// not keep the later ones from being applied.
pub fn apply_updates(fb: &mut Framebuffer, updates: &Vec<FrameUpdate>) -> (redraw: bool)
    requires
        old(fb).wf(),
    ensures
        final(fb).wf(),
        final(fb)@ == after_updates(old(fb)@, update_views(updates@)),
        redraw == (updates@.len() > 0),
{
    let ghost all = update_views(updates@);
    let ghost start = fb@;
    let mut i: usize = 0;
    assert(all.skip(0) =~= all);
    while i < updates.len()
        invariant
            i <= updates.len(),
            all == update_views(updates@),
            fb.wf(),
            after_updates(start, all) == after_updates(fb@, all.skip(i as int)),
        decreases updates.len() - i,
    {
        proof {
            let tail = all.skip(i as int);
            assert(tail.first() == updates@[i as int]@);
            assert(tail.drop_first() =~= all.skip(i + 1));
        }
        let _ = apply_update(fb, &updates[i]);
        i = i + 1;
    }
    updates.len() > 0
}

/// What the I/O side does with a frame message once its payload has been
/// decoded.
#[derive(Debug)]
pub enum Intake {
    /// Queue this update for the presentation loop.
    Queue(FrameUpdate),
    /// The codec could not decode the payload: the frame is skipped and the
    /// session goes on; a later frame brings the view up to date.
    Skip(CodecError),
    /// The payload decoded, but breaks the protocol: the session ends.
    Terminate(UpdateError),
}

/// What an intake is, apart from how it is stored.
pub enum IntakeView {
    Queue(FrameUpdateView),
    Skip(CodecError),
    Terminate(UpdateError),
}

impl View for Intake {
    type V = IntakeView;

    open spec fn view(&self) -> IntakeView {
        match self {
            Intake::Queue(update) => IntakeView::Queue(update@),
            Intake::Skip(e) => IntakeView::Skip(*e),
            Intake::Terminate(e) => IntakeView::Terminate(*e),
        }
    }
}

impl Intake {
    /// Whether the session goes on after this message.
    pub fn keeps_session(&self) -> (ok: bool)
        ensures
            ok == !(self@ is Terminate),
    {
        match self {
            Intake::Terminate(_) => false,
            _ => true,
        }
    }
}

/// The rule for a whole frame that has been decoded: it is queued if its
/// data has the length of its dimensions; a mismatch breaks the protocol.
pub open spec fn full_intake(w: u32, h: u32, bytes: Seq<u8>) -> IntakeView {
    if bytes.len() == w * h * 4 {
        IntakeView::Queue(FrameUpdateView::Full { w: w as int, h: h as int, bytes })
    } else {
        IntakeView::Terminate(UpdateError::Frame(FrameError::InvalidLength))
    }
}

/// The rule for the payload of a delta message: a block that the
/// decompressor cannot take is a codec failure, and the frame is skipped;
/// what comes out of the decompressor is queued if it is a rectangle list,
/// and breaks the protocol if it ends too early.
pub open spec fn delta_intake(block: Seq<u8>) -> IntakeView {
    match unpacked(block) {
        Err(e) => IntakeView::Skip(e),
        Ok(payload) => match parse_delta(payload) {
            Ok(_) => IntakeView::Queue(FrameUpdateView::Delta(payload)),
            Err(e) => IntakeView::Terminate(UpdateError::Delta(e)),
        },
    }
}

/// Decides what becomes of a whole frame that has been decoded.
pub fn intake_full(w: u32, h: u32, bytes: Vec<u8>) -> (intake: Intake)
    ensures
        intake@ == full_intake(w, h, bytes@),
{
    assert(w * h * 4 <= u128::MAX && w * h <= u128::MAX) by (nonlinear_arith)
        requires
            w <= u32::MAX,
            h <= u32::MAX,
    ;
    let need: u128 = (w as u128) * (h as u128) * 4;
    if need == bytes.len() as u128 {
        Intake::Queue(FrameUpdate::Full { w, h, bytes })
    } else {
        Intake::Terminate(UpdateError::Frame(FrameError::InvalidLength))
    }
}

/// Decides what becomes of the payload of a delta message: decompresses it
/// and checks that a rectangle list has come out.
pub fn intake_delta(block: &[u8]) -> (intake: Intake)
    ensures
        intake@ == delta_intake(block@),
{
    match unpack(block) {
        Err(e) => Intake::Skip(e),
        Ok(payload) => match parse_delta_payload(payload.as_slice()) {
            Ok(_) => Intake::Queue(FrameUpdate::Delta(payload)),
            Err(e) => Intake::Terminate(UpdateError::Delta(e)),
        },
    }
}

/// An update that has passed the intake is applied without error.
pub proof fn lemma_queued_updates_apply(block: Seq<u8>, w: u32, h: u32, bytes: Seq<u8>)
    ensures
        delta_intake(block) matches IntakeView::Queue(update) ==> update_outcome(update) is Ok,
        full_intake(w, h, bytes) matches IntakeView::Queue(update) ==> update_outcome(update) is Ok,
{
}

} // verus!
