//! The decisions of one connection's I/O loop.
//!
//! The loop itself belongs to whoever owns the transport: it carries out one
//! step, reports what happened, and is told the next step. The decisions
//! are made here, so that the order of the loop is fixed in one place: the
//! outbound queue is drained first, one read is tried only when nothing was
//! sent, what a read leaves incomplete is kept, and a message is handed to
//! its handler as soon as it is whole.

use vstd::prelude::*;
use vstd::slice::slice_to_vec;
use crate::message_type::MessageType;
use crate::wire::FrameParser;
use crate::wire::Message;
use crate::wire::MessageView;
use crate::wire::encode_message;
use crate::wire::frame_bytes;
use crate::wire::message_views;
use crate::wire::missing_bytes;
use crate::wire::stream_messages;
use crate::wire::stream_rest;

verus! {

/// Sleep before the handshake is tried again after the transport was not
/// ready, in milliseconds.
pub const HANDSHAKE_BACKOFF_MS: u64 = 5;

/// Sleep before the handshake is driven on while it makes progress, in
/// milliseconds.
pub const HANDSHAKE_PROGRESS_MS: u64 = 1;

/// Sleep before a write or a read is tried again after the transport was
/// not ready, in milliseconds.
pub const RETRY_MS: u64 = 1;

/// Why a session ended in failure.
#[derive(Debug, Copy, Clone, PartialEq, Eq, Structural)]
pub enum SessionError {
    /// The peer went away before the handshake was complete.
    HandshakeEof,
    /// A write was accepted with no byte taken: the transport is closed.
    SocketClosed,
    /// The transport reported an error that no retry can mend.
    Io,
    /// A queued message is too long for the length field.
    PayloadTooLarge,
    /// A handler rejected a message.
    Handler,
    /// An outcome was reported that the step before it cannot have had.
    OutOfTurn,
}

/// What one attempt to drive the handshake brought.
#[derive(Debug, Copy, Clone, PartialEq, Eq, Structural)]
pub enum HandshakeEvent {
    /// Bytes moved; `handshaking` says whether more are needed.
    Progress { handshaking: bool },
    /// The transport is not ready.
    WouldBlock,
    /// The attempt was interrupted.
    Interrupted,
    /// The peer closed the connection.
    UnexpectedEof,
    /// Any other error.
    Failed,
}

/// What to do after one attempt to drive the handshake.
#[derive(Debug, Copy, Clone, PartialEq, Eq, Structural)]
pub enum HandshakeStep {
    /// The handshake is complete; the steady state begins.
    Established,
    /// Sleep for so many milliseconds, then try again.
    RetryAfter(u64),
    /// Give up on the session.
    Abort(SessionError),
}

/// The rule of the handshake phase: done when no more handshaking is
/// needed; a short sleep and another attempt while it makes progress, and a
/// longer one when the transport was not ready or the attempt was
/// interrupted; the end of the session on a premature end of the stream and
/// on every other error.
pub open spec fn handshake_rule(event: HandshakeEvent) -> HandshakeStep {
    match event {
        HandshakeEvent::Progress { handshaking } => if handshaking {
            HandshakeStep::RetryAfter(HANDSHAKE_PROGRESS_MS)
        } else {
            HandshakeStep::Established
        },
        HandshakeEvent::WouldBlock => HandshakeStep::RetryAfter(HANDSHAKE_BACKOFF_MS),
        HandshakeEvent::Interrupted => HandshakeStep::RetryAfter(HANDSHAKE_BACKOFF_MS),
        HandshakeEvent::UnexpectedEof => HandshakeStep::Abort(SessionError::HandshakeEof),
        HandshakeEvent::Failed => HandshakeStep::Abort(SessionError::Io),
    }
}

/// Decides how the handshake goes on after one attempt.
pub fn handshake_step(event: HandshakeEvent) -> (step: HandshakeStep)
    ensures
        step == handshake_rule(event),
{
    match event {
        HandshakeEvent::Progress { handshaking } => {
            if handshaking {
                HandshakeStep::RetryAfter(HANDSHAKE_PROGRESS_MS)
            } else {
                HandshakeStep::Established
            }
        },
        HandshakeEvent::WouldBlock => HandshakeStep::RetryAfter(HANDSHAKE_BACKOFF_MS),
        HandshakeEvent::Interrupted => HandshakeStep::RetryAfter(HANDSHAKE_BACKOFF_MS),
        HandshakeEvent::UnexpectedEof => HandshakeStep::Abort(SessionError::HandshakeEof),
        HandshakeEvent::Failed => HandshakeStep::Abort(SessionError::Io),
    }
}

/// Where the loop stands: which outcome the dispatcher is waiting for.
#[derive(Debug, Copy, Clone, PartialEq, Eq, Structural)]
pub enum Phase {
    /// For the outbound queue to be polled.
    Poll,
    /// For a write of the unsent bytes.
    Write,
    /// For the transport to be flushed.
    Flush,
    /// For one read.
    Read,
    /// For a handler to finish.
    Dispatch,
    /// For nothing: the session is over.
    Closed,
}

/// A read that brought no bytes, and why.
#[derive(Debug, Copy, Clone, PartialEq, Eq, Structural)]
pub enum ReadIdle {
    WouldBlock,
    TimedOut,
    Interrupted,
}

/// What the owner of the transport is to do next.
#[derive(Debug)]
pub enum Step {
    /// Take one message off the outbound queue without waiting, and report
    /// it, or that there is none.
    PollQueue,
    /// Sleep for so many milliseconds, then do as for `PollQueue`.
    SleepThenPoll(u64),
    /// Write the unsent bytes to the transport, once, and report how many
    /// were taken.
    Write,
    /// Sleep for so many milliseconds, then do as for `Write`.
    SleepThenWrite(u64),
    /// Flush the transport and report that it is done.
    Flush,
    /// Read at most so many bytes from the transport, once and without
    /// waiting, and report them.
    Read(u64),
    /// Hand this message to its handler and report whether it succeeded.
    Dispatch(Message),
    /// The session is over: the peer has gone.
    Finished,
    /// The session is over: it failed.
    Failed(SessionError),
}

/// What a step is, apart from how it is stored.
pub enum StepView {
    PollQueue,
    SleepThenPoll(u64),
    Write,
    SleepThenWrite(u64),
    Flush,
    Read(u64),
    Dispatch(MessageView),
    Finished,
    Failed(SessionError),
}

impl View for Step {
    type V = StepView;

    open spec fn view(&self) -> StepView {
        match self {
            Step::PollQueue => StepView::PollQueue,
            Step::SleepThenPoll(ms) => StepView::SleepThenPoll(*ms),
            Step::Write => StepView::Write,
            Step::SleepThenWrite(ms) => StepView::SleepThenWrite(*ms),
            Step::Flush => StepView::Flush,
            Step::Read(n) => StepView::Read(*n),
            Step::Dispatch(m) => StepView::Dispatch(m@),
            Step::Finished => StepView::Finished,
            Step::Failed(e) => StepView::Failed(*e),
        }
    }
}

/// The state of one connection's loop.
pub struct Dispatcher {
    phase: Phase,
    sent_any: bool,
    frame: Vec<u8>,
    offset: usize,
    parser: FrameParser,
    ready: Vec<Message>,
}

/// What the state of a loop is, apart from how it is stored.
pub struct DispatcherView {
    /// Which outcome is awaited.
    pub phase: Phase,
    /// Whether a message was sent since the queue was last found empty.
    pub sent_any: bool,
    /// The bytes of the message in hand that the transport has not taken.
    pub unsent: Seq<u8>,
    /// The inbound bytes that do not yet make up a whole message.
    pub pending: Seq<u8>,
    /// The inbound messages that are whole but not yet handled, oldest
    /// first.
    pub ready: Seq<MessageView>,
}

impl View for Dispatcher {
    type V = DispatcherView;

    closed spec fn view(&self) -> DispatcherView {
        DispatcherView {
            phase: self.phase,
            sent_any: self.sent_any,
            unsent: self.frame@.skip(self.offset as int),
            pending: self.parser@,
            ready: message_views(self.ready@),
        }
    }
}

impl DispatcherView {
    /// The state in which the session is over, with what is left at that
    /// moment.
    pub open spec fn closed(self) -> DispatcherView {
        DispatcherView { phase: Phase::Closed, ..self }
    }

    /// The state with another outcome awaited.
    pub open spec fn awaiting(self, phase: Phase) -> DispatcherView {
        DispatcherView { phase, ..self }
    }
}

/// After a queue poll that brought a message: its frame is in hand and is
/// written, unless it is too long to be framed, which ends the session.
pub open spec fn after_queued(s: DispatcherView, t: MessageType, payload: Seq<u8>) -> (
    DispatcherView,
    StepView,
) {
    if s.phase != Phase::Poll {
        (s.closed(), StepView::Failed(SessionError::OutOfTurn))
    } else if payload.len() > u32::MAX {
        (s.closed(), StepView::Failed(SessionError::PayloadTooLarge))
    } else {
        (DispatcherView { phase: Phase::Write, unsent: frame_bytes(t, payload), ..s }, StepView::Write)
    }
}

/// After a queue poll that brought bytes that are framed already: they are
/// in hand and are written as they are. Where there are none, the queue is
/// polled again.
pub open spec fn after_queued_frame(s: DispatcherView, frame: Seq<u8>) -> (DispatcherView, StepView) {
    if s.phase != Phase::Poll {
        (s.closed(), StepView::Failed(SessionError::OutOfTurn))
    } else if frame.len() == 0 {
        (s, StepView::PollQueue)
    } else {
        (DispatcherView { phase: Phase::Write, unsent: frame, ..s }, StepView::Write)
    }
}

/// After a queue poll that found the queue empty: another poll where
/// something was sent since the last empty poll, else one read of at most
/// what the next inbound message still needs.
pub open spec fn after_queue_empty(s: DispatcherView) -> (DispatcherView, StepView) {
    if s.phase != Phase::Poll {
        (s.closed(), StepView::Failed(SessionError::OutOfTurn))
    } else if s.sent_any {
        (DispatcherView { sent_any: false, ..s }, StepView::PollQueue)
    } else {
        (s.awaiting(Phase::Read), StepView::Read(missing_bytes(s.pending) as u64))
    }
}

/// After a write that took `n` bytes: the rest is written; a flush follows
/// when nothing is left. A write that took nothing means the transport is
/// closed.
pub open spec fn after_wrote(s: DispatcherView, n: int) -> (DispatcherView, StepView) {
    if s.phase != Phase::Write || n > s.unsent.len() {
        (s.closed(), StepView::Failed(SessionError::OutOfTurn))
    } else if n == 0 {
        (s.closed(), StepView::Failed(SessionError::SocketClosed))
    } else if n == s.unsent.len() {
        (DispatcherView { phase: Phase::Flush, unsent: Seq::empty(), ..s }, StepView::Flush)
    } else {
        (DispatcherView { unsent: s.unsent.skip(n), ..s }, StepView::Write)
    }
}

/// After a write that found the transport not ready: the same bytes are
/// written again after a short sleep.
pub open spec fn after_write_blocked(s: DispatcherView) -> (DispatcherView, StepView) {
    if s.phase != Phase::Write {
        (s.closed(), StepView::Failed(SessionError::OutOfTurn))
    } else {
        (s, StepView::SleepThenWrite(RETRY_MS))
    }
}

/// After a write that failed for any other reason: the session is over.
pub open spec fn after_write_failed(s: DispatcherView) -> (DispatcherView, StepView) {
    if s.phase != Phase::Write {
        (s.closed(), StepView::Failed(SessionError::OutOfTurn))
    } else {
        (s.closed(), StepView::Failed(SessionError::Io))
    }
}

/// After the flush: the message counts as sent and the queue is polled
/// again.
pub open spec fn after_flushed(s: DispatcherView) -> (DispatcherView, StepView) {
    if s.phase != Phase::Flush {
        (s.closed(), StepView::Failed(SessionError::OutOfTurn))
    } else {
        (DispatcherView { phase: Phase::Poll, sent_any: true, ..s }, StepView::PollQueue)
    }
}

/// What follows when inbound messages may be waiting: the oldest is handed
/// to its handler, or, where there is none, the queue is polled.
pub open spec fn dispatch_or_poll(s: DispatcherView) -> (DispatcherView, StepView) {
    if s.ready.len() > 0 {
        (
            DispatcherView { phase: Phase::Dispatch, ready: s.ready.drop_first(), ..s },
            StepView::Dispatch(s.ready.first()),
        )
    } else {
        (s.awaiting(Phase::Poll), StepView::PollQueue)
    }
}

/// After a read that brought bytes: no bytes at all mean that the peer has
/// closed the connection in good order. Otherwise the bytes join what was
/// kept from earlier reads, and every message that is now whole is ready.
pub open spec fn after_read(s: DispatcherView, bytes: Seq<u8>) -> (DispatcherView, StepView) {
    if s.phase != Phase::Read {
        (s.closed(), StepView::Failed(SessionError::OutOfTurn))
    } else if bytes.len() == 0 {
        (s.closed(), StepView::Finished)
    } else {
        dispatch_or_poll(
            DispatcherView {
                pending: stream_rest(s.pending + bytes),
                ready: s.ready + stream_messages(s.pending + bytes),
                ..s
            },
        )
    }
}

/// After a read that brought nothing because the transport was not ready,
/// timed out or was interrupted: nothing is lost and the loop goes on, after
/// a short sleep where the transport was not ready.
pub open spec fn after_read_idle(s: DispatcherView, why: ReadIdle) -> (DispatcherView, StepView) {
    if s.phase != Phase::Read {
        (s.closed(), StepView::Failed(SessionError::OutOfTurn))
    } else {
        (
            s.awaiting(Phase::Poll),
            match why {
                ReadIdle::WouldBlock => StepView::SleepThenPoll(RETRY_MS),
                ReadIdle::TimedOut => StepView::PollQueue,
                ReadIdle::Interrupted => StepView::PollQueue,
            },
        )
    }
}

/// After a read that failed for any other reason: the session is over.
pub open spec fn after_read_failed(s: DispatcherView) -> (DispatcherView, StepView) {
    if s.phase != Phase::Read {
        (s.closed(), StepView::Failed(SessionError::OutOfTurn))
    } else {
        (s.closed(), StepView::Failed(SessionError::Io))
    }
}

/// After a handler has finished: its failure ends the session; otherwise
/// the next ready message follows, or the queue is polled.
pub open spec fn after_handled(s: DispatcherView, ok: bool) -> (DispatcherView, StepView) {
    if s.phase != Phase::Dispatch {
        (s.closed(), StepView::Failed(SessionError::OutOfTurn))
    } else if !ok {
        (s.closed(), StepView::Failed(SessionError::Handler))
    } else {
        dispatch_or_poll(s)
    }
}

impl Dispatcher {
    /// While a write is awaited there are bytes to write, and what is kept
    /// of the inbound stream never holds a whole message.
    pub open spec fn wf(&self) -> bool {
        &&& self.in_bounds()
        &&& self@.phase == Phase::Write ==> self@.unsent.len() > 0
        &&& missing_bytes(self@.pending) > 0
    }

    /// The count of bytes already written is not beyond the end of the
    /// message in hand.
    pub closed spec fn in_bounds(&self) -> bool {
        self.offset <= self.frame@.len()
    }

    /// The state at the start of the steady state. The first step is a poll
    /// of the outbound queue.
    pub fn new() -> (d: Self)
        ensures
            d.wf(),
            d@ == (DispatcherView {
                phase: Phase::Poll,
                sent_any: false,
                unsent: Seq::empty(),
                pending: Seq::empty(),
                ready: Seq::empty(),
            }),
    {
        let d = Dispatcher {
            phase: Phase::Poll,
            sent_any: false,
            frame: Vec::new(),
            offset: 0,
            parser: FrameParser::new(),
            ready: Vec::new(),
        };
        assert(d@.unsent =~= Seq::<u8>::empty());
        assert(d@.ready =~= Seq::<MessageView>::empty());
        d
    }

    /// Which outcome is awaited.
    pub fn phase(&self) -> (p: Phase)
        ensures
            p == self@.phase,
    {
        self.phase
    }

    /// The bytes that the next write is to offer to the transport.
    pub fn unsent(&self) -> (bytes: &[u8])
        requires
            self.wf(),
        ensures
            bytes@ == self@.unsent,
    {
        let all = self.frame.as_slice();
        vstd::slice::slice_subrange(all, self.offset, all.len())
    }

    /// Ends the session because an outcome came out of turn.
    fn out_of_turn(&mut self) -> (step: Step)
        requires
            old(self).wf(),
        ensures
            final(self).wf(),
            final(self)@ == old(self)@.closed(),
            step@ == StepView::Failed(SessionError::OutOfTurn),
    {
        self.phase = Phase::Closed;
        Step::Failed(SessionError::OutOfTurn)
    }

    /// Hands out the oldest ready message, or polls the queue.
    fn next_inbound(&mut self) -> (step: Step)
        requires
            old(self).wf(),
            old(self)@.phase != Phase::Write,
        ensures
            final(self).wf(),
            (final(self)@, step@) == dispatch_or_poll(old(self)@),
    {
        if self.ready.len() > 0 {
            let message = self.ready.remove(0);
            self.phase = Phase::Dispatch;
            assert(message_views(self.ready@) =~= message_views(old(self).ready@).drop_first());
            Step::Dispatch(message)
        } else {
            self.phase = Phase::Poll;
            Step::PollQueue
        }
    }

    /// Reports that the queue poll brought a message.
    pub fn on_queued(&mut self, msg_type: MessageType, payload: &[u8]) -> (step: Step)
        requires
            old(self).wf(),
        ensures
            final(self).wf(),
            (final(self)@, step@) == after_queued(old(self)@, msg_type, payload@),
    {
        if self.phase != Phase::Poll {
            return self.out_of_turn();
        }
        match encode_message(msg_type, payload) {
            Ok(frame) => {
                self.frame = frame;
                self.offset = 0;
                self.phase = Phase::Write;
                assert(self.frame@.skip(0) =~= self.frame@);
                Step::Write
            },
            Err(_) => {
                self.phase = Phase::Closed;
                Step::Failed(SessionError::PayloadTooLarge)
            },
        }
    }

    /// Reports that the queue poll brought a packet that is framed already,
    /// header and all.
    pub fn on_queued_frame(&mut self, frame: &[u8]) -> (step: Step)
        requires
            old(self).wf(),
        ensures
            final(self).wf(),
            (final(self)@, step@) == after_queued_frame(old(self)@, frame@),
    {
        if self.phase != Phase::Poll {
            return self.out_of_turn();
        }
        if frame.len() == 0 {
            return Step::PollQueue;
        }
        self.frame = slice_to_vec(frame);
        self.offset = 0;
        self.phase = Phase::Write;
        assert(self.frame@.skip(0) =~= self.frame@);
        Step::Write
    }

    /// Reports that the queue poll found the queue empty.
    pub fn on_queue_empty(&mut self) -> (step: Step)
        requires
            old(self).wf(),
        ensures
            final(self).wf(),
            (final(self)@, step@) == after_queue_empty(old(self)@),
    {
        if self.phase != Phase::Poll {
            return self.out_of_turn();
        }
        if self.sent_any {
            self.sent_any = false;
            Step::PollQueue
        } else {
            self.phase = Phase::Read;
            Step::Read(self.parser.wanted())
        }
    }

    /// Reports that a write took `n` bytes.
    pub fn on_wrote(&mut self, n: usize) -> (step: Step)
        requires
            old(self).wf(),
        ensures
            final(self).wf(),
            (final(self)@, step@) == after_wrote(old(self)@, n as int),
    {
        if self.phase != Phase::Write || n > self.frame.len() - self.offset {
            return self.out_of_turn();
        }
        if n == 0 {
            self.phase = Phase::Closed;
            return Step::Failed(SessionError::SocketClosed);
        }
        self.offset = self.offset + n;
        assert(self.frame@.skip(self.offset as int) =~= old(self).frame@.skip(
            old(self).offset as int,
        ).skip(n as int));
        if self.offset == self.frame.len() {
            self.phase = Phase::Flush;
            assert(self.frame@.skip(self.offset as int) =~= Seq::<u8>::empty());
            Step::Flush
        } else {
            Step::Write
        }
    }

    /// Reports that a write found the transport not ready.
    pub fn on_write_blocked(&mut self) -> (step: Step)
        requires
            old(self).wf(),
        ensures
            final(self).wf(),
            (final(self)@, step@) == after_write_blocked(old(self)@),
    {
        if self.phase != Phase::Write {
            return self.out_of_turn();
        }
        Step::SleepThenWrite(RETRY_MS)
    }

    /// Reports that a write failed.
    pub fn on_write_failed(&mut self) -> (step: Step)
        requires
            old(self).wf(),
        ensures
            final(self).wf(),
            (final(self)@, step@) == after_write_failed(old(self)@),
    {
        if self.phase != Phase::Write {
            return self.out_of_turn();
        }
        self.phase = Phase::Closed;
        Step::Failed(SessionError::Io)
    }

    /// Reports that the transport was flushed. Whether the flush itself
    /// succeeded does not matter.
    pub fn on_flushed(&mut self) -> (step: Step)
        requires
            old(self).wf(),
        ensures
            final(self).wf(),
            (final(self)@, step@) == after_flushed(old(self)@),
    {
        if self.phase != Phase::Flush {
            return self.out_of_turn();
        }
        self.phase = Phase::Poll;
        self.sent_any = true;
        Step::PollQueue
    }

    /// Reports the bytes of a read that succeeded. No bytes mean that the
    /// peer has closed the connection.
    pub fn on_read(&mut self, bytes: &[u8]) -> (step: Step)
        requires
            old(self).wf(),
        ensures
            final(self).wf(),
            (final(self)@, step@) == after_read(old(self)@, bytes@),
    {
        if self.phase != Phase::Read {
            return self.out_of_turn();
        }
        if bytes.len() == 0 {
            self.phase = Phase::Closed;
            return Step::Finished;
        }
        let mut whole = self.parser.feed(bytes);
        let ghost before = self.ready@;
        self.ready.append(&mut whole);
        assert(message_views(self.ready@) =~= message_views(before) + stream_messages(
            old(self)@.pending + bytes@,
        ));
        self.next_inbound()
    }

    /// Reports that a read brought nothing, and why.
    pub fn on_read_idle(&mut self, why: ReadIdle) -> (step: Step)
        requires
            old(self).wf(),
        ensures
            final(self).wf(),
            (final(self)@, step@) == after_read_idle(old(self)@, why),
    {
        if self.phase != Phase::Read {
            return self.out_of_turn();
        }
        self.phase = Phase::Poll;
        match why {
            ReadIdle::WouldBlock => Step::SleepThenPoll(RETRY_MS),
            ReadIdle::TimedOut => Step::PollQueue,
            ReadIdle::Interrupted => Step::PollQueue,
        }
    }

    /// Reports that a read failed.
    pub fn on_read_failed(&mut self) -> (step: Step)
        requires
            old(self).wf(),
        ensures
            final(self).wf(),
            (final(self)@, step@) == after_read_failed(old(self)@),
    {
        if self.phase != Phase::Read {
            return self.out_of_turn();
        }
        self.phase = Phase::Closed;
        Step::Failed(SessionError::Io)
    }

    /// Reports that the handler of the message handed out last has
    /// finished, and whether it succeeded.
    pub fn on_handled(&mut self, ok: bool) -> (step: Step)
        requires
            old(self).wf(),
        ensures
            final(self).wf(),
            (final(self)@, step@) == after_handled(old(self)@, ok),
    {
        if self.phase != Phase::Dispatch {
            return self.out_of_turn();
        }
        if !ok {
            self.phase = Phase::Closed;
            return Step::Failed(SessionError::Handler);
        }
        self.next_inbound()
    }
}

/// Inbound traffic is never starved: from a poll of the queue, two polls in
/// a row that find it empty lead to a read. The first one may be spent on
/// noting that the last batch has been sent.
pub proof fn lemma_read_follows_empty_polls(s: DispatcherView)
    requires
        s.phase == Phase::Poll,
    ensures
        after_queue_empty(s).1 is Read || (after_queue_empty(s).0.phase == Phase::Poll
            && after_queue_empty(after_queue_empty(s).0).1 is Read),
{
}

/// Outbound traffic comes first: a read is asked for only after a poll has
/// found the queue empty with nothing sent since the poll before. No other
/// outcome leads to a read.
pub proof fn lemma_read_only_when_idle(
    s: DispatcherView,
    t: MessageType,
    payload: Seq<u8>,
    n: int,
    why: ReadIdle,
    ok: bool,
)
    ensures
        after_queue_empty(s).1 is Read ==> s.phase == Phase::Poll && !s.sent_any,
        !(after_queued(s, t, payload).1 is Read),
        !(after_queued_frame(s, payload).1 is Read),
        !(after_wrote(s, n).1 is Read),
        !(after_write_blocked(s).1 is Read),
        !(after_write_failed(s).1 is Read),
        !(after_flushed(s).1 is Read),
        !(after_read(s, payload).1 is Read),
        !(after_read_idle(s, why).1 is Read),
        !(after_read_failed(s).1 is Read),
        !(after_handled(s, ok).1 is Read),
{
}

/// A message that is being written is written to its end before anything
/// else happens: while bytes are unsent, every outcome of a write leads to
/// another write of what is left, or ends the session.
pub proof fn lemma_write_runs_to_the_end(s: DispatcherView, n: int)
    requires
        s.phase == Phase::Write,
        0 < n < s.unsent.len(),
    ensures
        after_wrote(s, n) == (DispatcherView { unsent: s.unsent.skip(n), ..s }, StepView::Write),
        after_wrote(s, s.unsent.len() as int).1 == StepView::Flush,
        after_write_blocked(s) == (s, StepView::SleepThenWrite(RETRY_MS)),
{
}

} // verus!
