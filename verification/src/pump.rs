//! The relay of one stream, as a state machine.
//!
//! The pump decides and the caller acts: the caller performs the action that
//! a turn returns (a read, a write, a flush) and comes back with the event
//! that tells how it went. The pump never holds a stream.
//!
//! One cycle is read, inspect, write, flush. A cancellation that arrives
//! while the pump waits for a read stops it at once; one that arrives later
//! in the cycle lets the chunk in hand be written and flushed first, so that
//! no chunk is ever forwarded in part. The phase itself says whether the
//! cycle in progress is the last one, so a pump that waits for a read never
//! has a cancellation on hold.

use vstd::prelude::*;
use crate::inspector::{fault_of, observe, Inspector, InspectorModel};
use crate::parser::framing::ParseFault;
use crate::parser::message::{decoded, plainly_decoded, texts, Message};

verus! {

/// Size of the buffer that one read fills at most.
pub const BUFFER_SIZE: usize = 8192;

/// The call on a stream that failed.
#[derive(Clone, Copy, Debug, PartialEq, Eq, Structural)]
pub enum StreamFault {
    Read,
    Write,
    Flush,
}

/// Why a call on a stream did not go through.
#[derive(Clone, Copy, Debug, PartialEq, Eq, Structural)]
pub enum FailureKind {
    /// The stream ended where more was expected.
    UnexpectedEof,
    /// The other end of the pipe is gone.
    BrokenPipe,
    /// Anything else.
    Other,
}

/// How a pump ended.
#[derive(Clone, Copy, Debug, PartialEq, Eq, Structural)]
pub enum Outcome {
    /// The source or the sink closed.
    EndOfStream,
    /// The cancellation signal fired.
    Cancelled,
    /// A call on a stream failed.
    Failed(StreamFault),
}

/// What a pump is waiting for.
#[derive(Clone, Copy, Debug, PartialEq, Eq, Structural)]
pub enum Phase {
    /// A read from the source.
    Reading,
    /// The write of the chunk in hand to the sink.
    Writing,
    /// The flush of the sink.
    Flushing,
    /// The write of the chunk in hand, after which the pump will flush and
    /// end: the cancellation signal fired while the chunk was in hand.
    LastWrite,
    /// The flush of the sink, after which the pump will end: the
    /// cancellation signal fired while the chunk was in hand.
    LastFlush,
    /// Nothing: the pump has ended.
    Done(Outcome),
}

/// What the caller reports to the pump.
#[derive(Debug, PartialEq, Eq)]
pub enum Event {
    /// A read returned these bytes; none means that nothing was there yet.
    Read(Vec<u8>),
    /// A stream reported its end.
    EndOfStream,
    /// A read failed.
    ReadFailed,
    /// The write went through.
    Written,
    /// The write failed.
    WriteFailed,
    /// The flush went through.
    Flushed,
    /// The flush failed.
    FlushFailed,
    /// The cancellation signal fired.
    Cancelled,
}

/// What the pump asks the caller to do next.
#[derive(Debug, PartialEq, Eq)]
pub enum Action {
    /// Read from the source.
    Read,
    /// Yield to the scheduler, then read from the source again.
    Retry,
    /// Write exactly these bytes to the sink.
    Write(Vec<u8>),
    /// Flush the sink.
    Flush,
    /// Nothing new: let the call in flight finish and report it.
    Continue,
    /// Stop; the pump has ended in this way.
    Stop(Outcome),
}

/// What a pump holds between two turns.
pub struct PumpModel {
    pub phase: Phase,
    pub inspector: InspectorModel,
}

/// One turn: the state after it, the action asked for, and the payloads of
/// the messages that the inspector saw completed.
pub struct Turn {
    pub state: PumpModel,
    pub action: Action,
    pub payloads: Seq<Seq<u8>>,
}

/// The turn that does nothing but answer.
pub open spec fn stay(state: PumpModel, action: Action) -> Turn {
    Turn { state, action, payloads: Seq::empty() }
}

/// The turn that moves to another phase.
pub open spec fn go(state: PumpModel, phase: Phase, action: Action) -> Turn {
    Turn {
        state: PumpModel { phase, inspector: state.inspector },
        action,
        payloads: Seq::empty(),
    }
}

/// The turn that ends the pump.
pub open spec fn end(state: PumpModel, outcome: Outcome) -> Turn {
    go(state, Phase::Done(outcome), Action::Stop(outcome))
}

/// The rules of the pump: the turn that `event` causes in state `state`.
///
/// An event that the phase does not wait for changes nothing.
pub open spec fn turn(state: PumpModel, event: Event) -> Turn {
    match state.phase {
        Phase::Done(outcome) => stay(state, Action::Stop(outcome)),
        Phase::Reading => match event {
            Event::Cancelled => end(state, Outcome::Cancelled),
            Event::EndOfStream => end(state, Outcome::EndOfStream),
            Event::ReadFailed => end(state, Outcome::Failed(StreamFault::Read)),
            Event::Read(bytes) => if bytes@.len() == 0 {
                stay(state, Action::Retry)
            } else {
                Turn {
                    state: PumpModel {
                        phase: Phase::Writing,
                        inspector: observe(state.inspector, bytes@).state,
                    },
                    action: Action::Write(bytes),
                    payloads: observe(state.inspector, bytes@).payloads,
                }
            },
            _ => stay(state, Action::Continue),
        },
        Phase::Writing => match event {
            Event::Cancelled => go(state, Phase::LastWrite, Action::Continue),
            Event::Written => go(state, Phase::Flushing, Action::Flush),
            Event::EndOfStream => end(state, Outcome::EndOfStream),
            Event::WriteFailed => end(state, Outcome::Failed(StreamFault::Write)),
            _ => stay(state, Action::Continue),
        },
        Phase::Flushing => match event {
            Event::Cancelled => go(state, Phase::LastFlush, Action::Continue),
            Event::Flushed => go(state, Phase::Reading, Action::Read),
            Event::EndOfStream => end(state, Outcome::EndOfStream),
            Event::FlushFailed => end(state, Outcome::Failed(StreamFault::Flush)),
            _ => stay(state, Action::Continue),
        },
        Phase::LastWrite => match event {
            Event::Written => go(state, Phase::LastFlush, Action::Flush),
            Event::EndOfStream => end(state, Outcome::EndOfStream),
            Event::WriteFailed => end(state, Outcome::Failed(StreamFault::Write)),
            _ => stay(state, Action::Continue),
        },
        Phase::LastFlush => match event {
            Event::Flushed => end(state, Outcome::Cancelled),
            Event::EndOfStream => end(state, Outcome::EndOfStream),
            Event::FlushFailed => end(state, Outcome::Failed(StreamFault::Flush)),
            _ => stay(state, Action::Continue),
        },
    }
}

/// The event that a failed call amounts to. Only a stream that ended is an
/// end of stream; a broken pipe, like any other error, is a failure of the
/// call.
pub open spec fn failure_event(call: StreamFault, kind: FailureKind) -> Event {
    match kind {
        FailureKind::UnexpectedEof => Event::EndOfStream,
        _ => match call {
            StreamFault::Read => Event::ReadFailed,
            StreamFault::Write => Event::WriteFailed,
            StreamFault::Flush => Event::FlushFailed,
        },
    }
}

/// Tells which event to report for a call that failed.
pub fn event_of_failure(call: StreamFault, kind: FailureKind) -> (event: Event)
    ensures
        event == failure_event(call, kind),
{
    match kind {
        FailureKind::UnexpectedEof => Event::EndOfStream,
        _ => match call {
            StreamFault::Read => Event::ReadFailed,
            StreamFault::Write => Event::WriteFailed,
            StreamFault::Flush => Event::FlushFailed,
        },
    }
}

/// What one turn hands to the caller: the action, and the messages that the
/// inspector decoded from the chunk, for the caller to report.
#[derive(Debug)]
pub struct Reaction {
    pub action: Action,
    pub messages: Vec<Message>,
}

/// The relay of one stream.
#[derive(Debug)]
pub struct Pump {
    phase: Phase,
    inspector: Inspector,
}

impl View for Pump {
    type V = PumpModel;

    closed spec fn view(&self) -> PumpModel {
        PumpModel { phase: self.phase, inspector: self.inspector@ }
    }
}

impl Pump {
    /// A pump that waits for its first read. The caller starts by reading.
    pub fn new(inspector: Inspector) -> (pump: Pump)
        ensures
            pump@ == (PumpModel { phase: Phase::Reading, inspector: inspector@ }),
    {
        Pump { phase: Phase::Reading, inspector }
    }

    /// What the pump is waiting for.
    pub fn phase(&self) -> (phase: Phase)
        ensures
            phase == self@.phase,
    {
        self.phase
    }

    /// How the pump ended, once it has.
    pub fn outcome(&self) -> (outcome: Option<Outcome>)
        ensures
            outcome == match self@.phase {
                Phase::Done(outcome) => Some(outcome),
                _ => None,
            },
    {
        match self.phase {
            Phase::Done(outcome) => Some(outcome),
            _ => None,
        }
    }

    /// The malformed header that the inspector met in the stream, if it met
    /// one. The relay goes on all the same: what is forwarded never depends
    /// on what the inspector finds.
    pub fn protocol_fault(&self) -> (fault: Option<ParseFault>)
        ensures
            fault == fault_of(self@.inspector),
    {
        self.inspector.fault()
    }

    /// Takes one event and says what to do next, as the rules in `turn` say.
    ///
    /// A chunk that was read is shown to the inspector and then handed back
    /// unchanged, to be written.
    pub fn step(&mut self, event: Event) -> (reaction: Reaction)
        ensures
            final(self)@ == turn(old(self)@, event).state,
            reaction.action == turn(old(self)@, event).action,
            reaction.messages@.len() == turn(old(self)@, event).payloads.len(),
            texts(reaction.messages@) == decoded(turn(old(self)@, event).payloads),
            plainly_decoded(reaction.messages@, turn(old(self)@, event).payloads),
    {
        let mut messages: Vec<Message> = Vec::new();
        assert(texts(messages@) =~= decoded(Seq::empty()));
        let action = match self.phase {
            Phase::Done(outcome) => Action::Stop(outcome),
            Phase::Reading => match event {
                Event::Cancelled => self.finish(Outcome::Cancelled),
                Event::EndOfStream => self.finish(Outcome::EndOfStream),
                Event::ReadFailed => self.finish(Outcome::Failed(StreamFault::Read)),
                Event::Read(bytes) => if bytes.len() == 0 {
                    Action::Retry
                } else {
                    messages = self.inspector.inspect(bytes.as_slice());
                    self.phase = Phase::Writing;
                    Action::Write(bytes)
                },
                _ => Action::Continue,
            },
            Phase::Writing => match event {
                Event::Cancelled => {
                    self.phase = Phase::LastWrite;
                    Action::Continue
                },
                Event::Written => {
                    self.phase = Phase::Flushing;
                    Action::Flush
                },
                Event::EndOfStream => self.finish(Outcome::EndOfStream),
                Event::WriteFailed => self.finish(Outcome::Failed(StreamFault::Write)),
                _ => Action::Continue,
            },
            Phase::Flushing => match event {
                Event::Cancelled => {
                    self.phase = Phase::LastFlush;
                    Action::Continue
                },
                Event::Flushed => {
                    self.phase = Phase::Reading;
                    Action::Read
                },
                Event::EndOfStream => self.finish(Outcome::EndOfStream),
                Event::FlushFailed => self.finish(Outcome::Failed(StreamFault::Flush)),
                _ => Action::Continue,
            },
            Phase::LastWrite => match event {
                Event::Written => {
                    self.phase = Phase::LastFlush;
                    Action::Flush
                },
                Event::EndOfStream => self.finish(Outcome::EndOfStream),
                Event::WriteFailed => self.finish(Outcome::Failed(StreamFault::Write)),
                _ => Action::Continue,
            },
            Phase::LastFlush => match event {
                Event::Flushed => self.finish(Outcome::Cancelled),
                Event::EndOfStream => self.finish(Outcome::EndOfStream),
                Event::FlushFailed => self.finish(Outcome::Failed(StreamFault::Flush)),
                _ => Action::Continue,
            },
        };
        Reaction { action, messages }
    }

    /// Ends the pump.
    fn finish(&mut self, outcome: Outcome) -> (action: Action)
        ensures
            final(self)@ == end(old(self)@, outcome).state,
            action == end(old(self)@, outcome).action,
    {
        self.phase = Phase::Done(outcome);
        Action::Stop(outcome)
    }
}

/// The bytes that one turn takes from the source.
pub open spec fn taken_by(state: PumpModel, event: Event) -> Seq<u8> {
    match (state.phase, event) {
        (Phase::Reading, Event::Read(bytes)) => bytes@,
        _ => Seq::empty(),
    }
}

/// The bytes that one turn hands on for the sink.
pub open spec fn handed_by(state: PumpModel, event: Event) -> Seq<u8> {
    match turn(state, event).action {
        Action::Write(bytes) => bytes@,
        _ => Seq::empty(),
    }
}

/// The state after a run of events.
pub open spec fn after(state: PumpModel, events: Seq<Event>) -> PumpModel
    decreases events.len(),
{
    if events.len() == 0 {
        state
    } else {
        turn(after(state, events.drop_last()), events.last()).state
    }
}

/// All bytes that a run of events takes from the source, in order.
pub open spec fn taken(state: PumpModel, events: Seq<Event>) -> Seq<u8>
    decreases events.len(),
{
    if events.len() == 0 {
        Seq::empty()
    } else {
        taken(state, events.drop_last()) + taken_by(
            after(state, events.drop_last()),
            events.last(),
        )
    }
}

/// All bytes that a run of events hands on for the sink, in order.
pub open spec fn handed(state: PumpModel, events: Seq<Event>) -> Seq<u8>
    decreases events.len(),
{
    if events.len() == 0 {
        Seq::empty()
    } else {
        handed(state, events.drop_last()) + handed_by(
            after(state, events.drop_last()),
            events.last(),
        )
    }
}

/// The relay is exact: over any run of events, from any state, the bytes
/// handed on for the sink are the bytes taken from the source, in the same
/// order, however the source cut them into reads.
pub proof fn lemma_relay_is_exact(state: PumpModel, events: Seq<Event>)
    ensures
        handed(state, events) == taken(state, events),
    decreases events.len(),
{
    if events.len() > 0 {
        lemma_relay_is_exact(state, events.drop_last());
    }
}

/// A run in two parts: the second part starts where the first one ends, and
/// the bytes handed on are those of the first part, then of the second.
pub proof fn lemma_run_in_two_parts(state: PumpModel, first: Seq<Event>, second: Seq<Event>)
    ensures
        after(state, first + second) == after(after(state, first), second),
        handed(state, first + second) == handed(state, first) + handed(
            after(state, first),
            second,
        ),
    decreases second.len(),
{
    if second.len() == 0 {
        assert(first + second =~= first);
        assert(handed(state, first) + Seq::<u8>::empty() =~= handed(state, first));
    } else {
        assert((first + second).drop_last() =~= first + second.drop_last());
        assert((first + second).last() == second.last());
        lemma_run_in_two_parts(state, first, second.drop_last());
        let middle = after(state, first);
        let before = after(middle, second.drop_last());
        assert(handed(state, first) + (handed(middle, second.drop_last()) + handed_by(
            before,
            second.last(),
        )) =~= (handed(state, first) + handed(middle, second.drop_last())) + handed_by(
            before,
            second.last(),
        ));
    }
}

/// The events of one chunk that goes through: it is read, written, flushed.
pub open spec fn cycle(chunk: Vec<u8>) -> Seq<Event> {
    seq![Event::Read(chunk), Event::Written, Event::Flushed]
}

/// The events of a source that delivers `chunks`, each going through.
pub open spec fn cycles(chunks: Seq<Vec<u8>>) -> Seq<Event>
    decreases chunks.len(),
{
    if chunks.len() == 0 {
        Seq::empty()
    } else {
        cycles(chunks.drop_last()) + cycle(chunks.last())
    }
}

/// The bytes that a source delivers in `chunks`.
pub open spec fn bytes_of(chunks: Seq<Vec<u8>>) -> Seq<u8>
    decreases chunks.len(),
{
    if chunks.len() == 0 {
        Seq::empty()
    } else {
        bytes_of(chunks.drop_last()) + chunks.last()@
    }
}

/// One chunk that goes through is handed on as it was read, and the pump
/// waits for the next read.
pub proof fn lemma_one_cycle(state: PumpModel, chunk: Vec<u8>)
    requires
        state.phase == Phase::Reading,
    ensures
        handed(state, cycle(chunk)) == chunk@,
        after(state, cycle(chunk)).phase == Phase::Reading,
{
    let all = cycle(chunk);
    let two = all.drop_last();
    let one = two.drop_last();
    assert(two =~= seq![Event::Read(chunk), Event::Written]);
    assert(one =~= seq![Event::Read(chunk)]);
    assert(one.drop_last() =~= Seq::<Event>::empty());
    reveal_with_fuel(after, 4);
    reveal_with_fuel(handed, 4);
    assert(after(state, one.drop_last()) == state);
    assert(handed(state, all) =~= chunk@);
}

/// A pump relays what its source delivers: whatever the reads were, the
/// bytes handed on for the sink are the bytes delivered, each once and in
/// order. Empty reads add nothing.
pub proof fn lemma_relay_of_reads(state: PumpModel, chunks: Seq<Vec<u8>>)
    requires
        state.phase == Phase::Reading,
    ensures
        handed(state, cycles(chunks)) == bytes_of(chunks),
        after(state, cycles(chunks)).phase == Phase::Reading,
    decreases chunks.len(),
{
    if chunks.len() > 0 {
        let before = cycles(chunks.drop_last());
        lemma_relay_of_reads(state, chunks.drop_last());
        lemma_run_in_two_parts(state, before, cycle(chunks.last()));
        lemma_one_cycle(after(state, before), chunks.last());
    }
}

/// The inspector has no say in the relay: with another inspector in its
/// place, a turn moves to the same phase and asks for the same action.
pub proof fn lemma_inspector_has_no_say(state: PumpModel, other: InspectorModel, event: Event)
    ensures
        ({
            let with_other = PumpModel { phase: state.phase, inspector: other };
            &&& turn(with_other, event).action == turn(state, event).action
            &&& turn(with_other, event).state.phase == turn(state, event).state.phase
        }),
{
}

/// A pump that has ended stays ended.
pub proof fn lemma_done_stays_done(state: PumpModel, events: Seq<Event>)
    requires
        state.phase is Done,
    ensures
        after(state, events) == state,
        handed(state, events) == Seq::<u8>::empty(),
    decreases events.len(),
{
    if events.len() > 0 {
        lemma_done_stays_done(state, events.drop_last());
    }
}

/// A cancellation that finds the pump waiting for a read ends it there:
/// the turn asks for no write, and no later event brings one.
pub proof fn lemma_cancel_while_reading(state: PumpModel, later: Seq<Event>)
    requires
        state.phase == Phase::Reading,
    ensures
        turn(state, Event::Cancelled).action == Action::Stop(Outcome::Cancelled),
        turn(state, Event::Cancelled).state.phase == Phase::Done(Outcome::Cancelled),
        handed(turn(state, Event::Cancelled).state, later) == Seq::<u8>::empty(),
{
    lemma_done_stays_done(turn(state, Event::Cancelled).state, later);
}

/// A cancellation that finds a chunk in hand does not cut it: the write and
/// the flush still follow, and the pump ends when the flush is through.
pub proof fn lemma_cancel_with_chunk_in_hand(state: PumpModel)
    requires
        state.phase == Phase::Writing,
    ensures
        ({
            let noted = turn(state, Event::Cancelled);
            let written = turn(noted.state, Event::Written);
            let flushed = turn(written.state, Event::Flushed);
            &&& noted.action == Action::Continue
            &&& written.action == Action::Flush
            &&& flushed.action == Action::Stop(Outcome::Cancelled)
        }),
{
}

} // verus!
