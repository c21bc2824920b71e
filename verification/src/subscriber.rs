//! The subscribing role: what to do after each read of the channel, and what
//! to do with each envelope that was read.
//!
//! The caller owns the channel and the sink. It reads, tells the subscriber
//! what the read gave, and carries out the plan that comes back.

use crate::frame::{
    complete_lines, framed_all, has_delimiter, law_chunking, law_frames_round_trip,
    lemma_no_delimiter, lemma_unfinished_has_no_delimiter, line_content, line_views, unfinished,
    Deframer,
    CARRIAGE_RETURN,
};
use crate::message::Message;
use vstd::prelude::*;

verus! {

/// How long to sleep between two reads that gave nothing, in milliseconds.
pub const DEFAULT_POLL_INTERVAL_MS: u64 = 300;

/// The shortest sleep between two reads that gave nothing, in milliseconds.
pub const MIN_POLL_INTERVAL_MS: u64 = 1;

/// What ended a subscription for good.
#[derive(Debug, Clone, Copy, PartialEq, Eq)]
pub enum Fault {
    /// The channel failed before any data had arrived.
    ChannelRead,
    /// A line on the channel was not a well-formed record.
    MalformedFrame,
    /// The sink refused a write.
    SinkWrite,
}

/// Where a subscription stands.
#[derive(Debug, Clone, Copy, PartialEq, Eq)]
pub enum Phase {
    /// No byte has been seen yet.
    AwaitingData,
    /// Data has arrived; lines are being taken off the channel.
    Streaming,
    /// The stream has ended.
    Terminated,
    /// The subscription was given up.
    Error(Fault),
}

/// What one non-blocking read of the channel gave.
#[derive(Debug, PartialEq, Eq)]
pub enum ReadOutcome {
    /// The bytes that were read. None at all means that no writer holds the
    /// channel open.
    Data(Vec<u8>),
    /// A writer is there, but it has nothing to read yet.
    WouldBlock,
    /// The read failed for any other reason.
    Failed,
}

/// A read outcome as plain values.
pub ghost enum ReadEvent {
    Data(Seq<u8>),
    WouldBlock,
    Failed,
}

impl View for ReadOutcome {
    type V = ReadEvent;

    open spec fn view(&self) -> ReadEvent {
        match self {
            ReadOutcome::Data(bytes) => ReadEvent::Data(bytes@),
            ReadOutcome::WouldBlock => ReadEvent::WouldBlock,
            ReadOutcome::Failed => ReadEvent::Failed,
        }
    }
}

/// What the caller does after a read.
#[derive(Debug, PartialEq, Eq)]
pub enum ReadPlan {
    /// Sleep for so many milliseconds, then read again.
    Sleep { millis: u64 },
    /// Decode and judge these records in order, then read again.
    Handle { records: Vec<Vec<u8>> },
    /// Decode and judge these records in order, then stop: the stream is over.
    Finish { records: Vec<Vec<u8>> },
    /// Stop at once.
    Abort,
}

/// A plan as plain values.
pub ghost enum PlanView {
    Sleep { millis: u64 },
    Handle { records: Seq<Seq<u8>> },
    Finish { records: Seq<Seq<u8>> },
    Abort,
}

impl View for ReadPlan {
    type V = PlanView;

    open spec fn view(&self) -> PlanView {
        match self {
            ReadPlan::Sleep { millis } => PlanView::Sleep { millis: *millis },
            ReadPlan::Handle { records } => PlanView::Handle { records: line_views(records@) },
            ReadPlan::Finish { records } => PlanView::Finish { records: line_views(records@) },
            ReadPlan::Abort => PlanView::Abort,
        }
    }
}

/// What becomes of an envelope that was read.
#[derive(Debug, PartialEq, Eq)]
pub enum Verdict {
    /// The envelope is intact: write it to the sink.
    Forward(Message),
    /// The checksum does not fit the payload: report it and go on.
    Discard,
}

/// The test that tells a record from an empty line.
pub open spec fn is_record() -> spec_fn(Seq<u8>) -> bool {
    |line: Seq<u8>| line.len() > 0
}

/// The lines that carry a record: all but the empty ones, in order.
pub open spec fn records_of(lines: Seq<Seq<u8>>) -> Seq<Seq<u8>> {
    lines.filter(is_record())
}

/// A read that gave at least one byte.
pub open spec fn gave_data(event: ReadEvent) -> bool {
    event matches ReadEvent::Data(bytes) && bytes.len() > 0
}

/// A read that gave nothing: no writer yet, or no data yet.
pub open spec fn is_idle(event: ReadEvent) -> bool {
    match event {
        ReadEvent::Data(bytes) => bytes.len() == 0,
        ReadEvent::WouldBlock => true,
        ReadEvent::Failed => false,
    }
}

/// The bytes that a run of reads brought in, in the order of the reads.
pub open spec fn bytes_read(events: Seq<ReadEvent>) -> Seq<u8>
    decreases events.len(),
{
    if events.len() == 0 {
        Seq::empty()
    } else {
        bytes_read(events.drop_last()) + match events.last() {
            ReadEvent::Data(bytes) => bytes,
            _ => Seq::empty(),
        }
    }
}

/// The records that a plan hands out.
pub open spec fn handed_out(plan: PlanView) -> Seq<Seq<u8>> {
    match plan {
        PlanView::Handle { records } => records,
        PlanView::Finish { records } => records,
        _ => Seq::empty(),
    }
}

/// A record that comes back from the channel as it went in: it is not
/// empty, holds no line feed and does not end in a carriage return.
pub open spec fn travels_intact(record: Seq<u8>) -> bool {
    record.len() > 0 && !has_delimiter(record) && record.last() != CARRIAGE_RETURN
}

/// The poll interval that a subscriber keeps when it is asked for
/// `requested` milliseconds: never less than the shortest sleep, so that a
/// subscriber that waits does not spin.
pub open spec fn poll_interval(requested: u64) -> u64 {
    if requested < MIN_POLL_INTERVAL_MS {
        MIN_POLL_INTERVAL_MS
    } else {
        requested
    }
}

/// A counter after one more event, held at the largest value once reached.
pub open spec fn counted(count: u64) -> u64 {
    if count < u64::MAX {
        (count + 1) as u64
    } else {
        count
    }
}

/// A subscriber as plain values.
pub ghost struct SubscriberView {
    pub phase: Phase,
    pub pending: Seq<u8>,
    pub poll_interval_ms: u64,
    pub forwarded: u64,
    pub rejected: u64,
}

impl SubscriberView {
    /// A subscriber that has not read anything and was asked to poll every
    /// `requested` milliseconds.
    pub open spec fn fresh(requested: u64) -> SubscriberView {
        SubscriberView {
            phase: Phase::AwaitingData,
            pending: Seq::empty(),
            poll_interval_ms: poll_interval(requested),
            forwarded: 0,
            rejected: 0,
        }
    }

    /// The subscriber after it took in `bytes`: it streams, and the end of
    /// the bytes that is not yet a whole line stays open.
    pub open spec fn taking(self, bytes: Seq<u8>) -> SubscriberView {
        SubscriberView {
            phase: Phase::Streaming,
            pending: unfinished(self.pending + bytes),
            ..self
        }
    }

    /// The subscriber after its stream ended: nothing stays open.
    pub open spec fn ended(self) -> SubscriberView {
        SubscriberView { phase: Phase::Terminated, pending: Seq::empty(), ..self }
    }

    /// The subscriber after a read that gave `event`.
    pub open spec fn after_read(self, event: ReadEvent) -> SubscriberView {
        match self.phase {
            Phase::AwaitingData => match event {
                ReadEvent::WouldBlock => self,
                ReadEvent::Failed => SubscriberView {
                    phase: Phase::Error(Fault::ChannelRead),
                    ..self
                },
                ReadEvent::Data(bytes) => if bytes.len() == 0 {
                    self
                } else {
                    self.taking(bytes)
                },
            },
            Phase::Streaming => match event {
                ReadEvent::WouldBlock => self,
                ReadEvent::Failed => self.ended(),
                ReadEvent::Data(bytes) => if bytes.len() == 0 {
                    self.ended()
                } else {
                    self.taking(bytes)
                },
            },
            Phase::Terminated => self,
            Phase::Error(_) => self,
        }
    }

    /// What the caller is told to do after a read that gave `event`.
    pub open spec fn plan(self, event: ReadEvent) -> PlanView {
        let sleep = PlanView::Sleep { millis: self.poll_interval_ms };
        let nothing_more = PlanView::Finish { records: Seq::empty() };
        match self.phase {
            Phase::AwaitingData => match event {
                ReadEvent::WouldBlock => sleep,
                ReadEvent::Failed => PlanView::Abort,
                ReadEvent::Data(bytes) => if bytes.len() == 0 {
                    sleep
                } else {
                    PlanView::Handle { records: records_of(complete_lines(self.pending + bytes)) }
                },
            },
            Phase::Streaming => match event {
                ReadEvent::WouldBlock => sleep,
                ReadEvent::Failed => nothing_more,
                ReadEvent::Data(bytes) => if bytes.len() == 0 {
                    PlanView::Finish { records: records_of(seq![self.pending]) }
                } else {
                    PlanView::Handle { records: records_of(complete_lines(self.pending + bytes)) }
                },
            },
            Phase::Terminated => nothing_more,
            Phase::Error(_) => PlanView::Abort,
        }
    }

    /// The subscriber after an envelope was judged.
    pub open spec fn after_verdict(self, valid: bool) -> SubscriberView {
        if valid {
            SubscriberView { forwarded: counted(self.forwarded), ..self }
        } else {
            SubscriberView { rejected: counted(self.rejected), ..self }
        }
    }

    /// The subscriber after something went wrong for good. A subscription
    /// that was given up before keeps its first fault.
    pub open spec fn after_fault(self, fault: Fault) -> SubscriberView {
        match self.phase {
            Phase::Error(_) => self,
            _ => SubscriberView { phase: Phase::Error(fault), ..self },
        }
    }

    /// The subscriber after a run of reads.
    pub open spec fn after_reads(self, events: Seq<ReadEvent>) -> SubscriberView
        decreases events.len(),
    {
        if events.len() == 0 {
            self
        } else {
            self.after_reads(events.drop_last()).after_read(events.last())
        }
    }

    /// The records that a run of reads hands out, in order.
    pub open spec fn records_over(self, events: Seq<ReadEvent>) -> Seq<Seq<u8>>
        decreases events.len(),
    {
        if events.len() == 0 {
            Seq::empty()
        } else {
            self.records_over(events.drop_last()) + handed_out(
                self.after_reads(events.drop_last()).plan(events.last()),
            )
        }
    }

    /// What holds of every subscriber that can be reached: it sleeps when
    /// it waits, the open line holds no line feed, and nothing is open
    /// before the first byte or after the end of the stream.
    pub open spec fn is_consistent(self) -> bool {
        &&& self.poll_interval_ms >= MIN_POLL_INTERVAL_MS
        &&& !has_delimiter(self.pending)
        &&& self.phase == Phase::AwaitingData ==> self.pending.len() == 0
        &&& self.phase == Phase::Terminated ==> self.pending.len() == 0
    }

    /// The plans that a run of reads is answered with, one for each read.
    pub open spec fn plans(self, events: Seq<ReadEvent>) -> Seq<PlanView> {
        Seq::new(events.len(), |i: int| self.after_reads(events.take(i)).plan(events[i]))
    }
}

/// The state that decides what a subscription does next.
pub struct Subscriber {
    phase: Phase,
    deframer: Deframer,
    poll_interval_ms: u64,
    forwarded: u64,
    rejected: u64,
}

impl View for Subscriber {
    type V = SubscriberView;

    closed spec fn view(&self) -> SubscriberView {
        SubscriberView {
            phase: self.phase,
            pending: self.deframer.pending(),
            poll_interval_ms: self.poll_interval_ms,
            forwarded: self.forwarded,
            rejected: self.rejected,
        }
    }
}

/// Keeps the lines that carry a record and drops the empty ones.
pub fn keep_records(lines: Vec<Vec<u8>>) -> (records: Vec<Vec<u8>>)
    ensures
        line_views(records@) == records_of(line_views(lines@)),
{
    let ghost all = line_views(lines@);
    let mut records: Vec<Vec<u8>> = Vec::new();
    proof {
        reveal(Seq::filter);
        assert(all.take(0) =~= Seq::<Seq<u8>>::empty());
        assert(line_views(records@) =~= Seq::<Seq<u8>>::empty());
    }
    for line in iter: lines
        invariant
            iter.seq() == lines@,
            all == line_views(lines@),
            line_views(records@) == records_of(all.take(iter.index() as int)),
    {
        let ghost seen = all.take(iter.index() as int);
        let ghost kept = line_views(records@);
        proof {
            assert(all.take(iter.index() + 1) =~= seen.push(line@));
            seen.lemma_filter_push(line@, is_record());
        }
        if line.len() > 0 {
            records.push(line);
            assert(line_views(records@) =~= kept.push(line@));
        }
    }
    assert(all.take(lines@.len() as int) =~= all);
    records
}

impl Subscriber {
    /// A subscriber that waits for the first byte and sleeps
    /// `poll_interval_ms` milliseconds between two reads that give nothing.
    /// An interval of zero is raised to one millisecond.
    pub fn new(poll_interval_ms: u64) -> (subscriber: Subscriber)
        ensures
            subscriber@ == SubscriberView::fresh(poll_interval_ms),
            subscriber@.is_consistent(),
    {
        Subscriber {
            phase: Phase::AwaitingData,
            deframer: Deframer::new(),
            poll_interval_ms: if poll_interval_ms < MIN_POLL_INTERVAL_MS {
                MIN_POLL_INTERVAL_MS
            } else {
                poll_interval_ms
            },
            forwarded: 0,
            rejected: 0,
        }
    }

    /// How long the subscriber sleeps between two reads that gave nothing,
    /// in milliseconds.
    pub fn poll_interval_ms(&self) -> (millis: u64)
        ensures
            millis == self@.poll_interval_ms,
    {
        self.poll_interval_ms
    }

    /// Where the subscription stands.
    pub fn phase(&self) -> (phase: Phase)
        ensures
            phase == self@.phase,
    {
        self.phase
    }

    /// How many envelopes were forwarded to the sink.
    pub fn forwarded(&self) -> (count: u64)
        ensures
            count == self@.forwarded,
    {
        self.forwarded
    }

    /// How many envelopes were discarded for a checksum that did not fit.
    pub fn rejected(&self) -> (count: u64)
        ensures
            count == self@.rejected,
    {
        self.rejected
    }

    /// Takes in what a read of the channel gave and says what to do next.
    ///
    /// Until the first byte has arrived, a read that gives nothing is
    /// answered with a sleep and a failed read ends the subscription. From
    /// then on, data is split into lines, of which the empty ones are
    /// dropped; a read of no bytes or a failed read ends the stream.
    pub fn on_read(&mut self, outcome: ReadOutcome) -> (plan: ReadPlan)
        ensures
            final(self)@ == old(self)@.after_read(outcome@),
            plan@ == old(self)@.plan(outcome@),
            old(self)@.is_consistent() ==> final(self)@.is_consistent(),
    {
        let awaiting = match self.phase {
            Phase::AwaitingData => true,
            Phase::Streaming => false,
            Phase::Terminated => {
                let records: Vec<Vec<u8>> = Vec::new();
                assert(line_views(records@) =~= Seq::<Seq<u8>>::empty());
                return ReadPlan::Finish { records };
            },
            Phase::Error(_) => {
                return ReadPlan::Abort;
            },
        };
        match outcome {
            ReadOutcome::WouldBlock => ReadPlan::Sleep { millis: self.poll_interval_ms },
            ReadOutcome::Failed => {
                if awaiting {
                    self.phase = Phase::Error(Fault::ChannelRead);
                    ReadPlan::Abort
                } else {
                    self.phase = Phase::Terminated;
                    let _ = self.deframer.finish();
                    let records: Vec<Vec<u8>> = Vec::new();
                    assert(line_views(records@) =~= Seq::<Seq<u8>>::empty());
                    ReadPlan::Finish { records }
                }
            },
            ReadOutcome::Data(bytes) => {
                if bytes.len() > 0 {
                    proof {
                        lemma_unfinished_has_no_delimiter(self.deframer.pending() + bytes@);
                    }
                    self.phase = Phase::Streaming;
                    let lines = self.deframer.push(bytes.as_slice());
                    ReadPlan::Handle { records: keep_records(lines) }
                } else if awaiting {
                    ReadPlan::Sleep { millis: self.poll_interval_ms }
                } else {
                    self.phase = Phase::Terminated;
                    let ghost pending = self.deframer.pending();
                    let last = self.deframer.finish();
                    let mut records: Vec<Vec<u8>> = Vec::new();
                    proof {
                        reveal_with_fuel(Seq::filter, 2);
                        assert(seq![pending].drop_last() =~= Seq::<Seq<u8>>::empty());
                        assert(line_views(records@) =~= Seq::<Seq<u8>>::empty());
                    }
                    match last {
                        Some(line) => {
                            records.push(line);
                            assert(line_views(records@) =~= seq![pending]);
                        },
                        None => {},
                    }
                    ReadPlan::Finish { records }
                }
            },
        }
    }

    /// Judges an envelope that was decoded from a record: it is forwarded
    /// exactly if its checksum is the digest of its payload, and it is
    /// handed back as it came.
    pub fn on_message(&mut self, message: Message) -> (verdict: Verdict)
        ensures
            final(self)@ == old(self)@.after_verdict(message@.is_valid()),
            message@.is_valid() ==> verdict == Verdict::Forward(message),
            !message@.is_valid() ==> verdict == Verdict::Discard,
            old(self)@.is_consistent() ==> final(self)@.is_consistent(),
    {
        let mut message = message;
        if message.validate() {
            if self.forwarded < u64::MAX {
                self.forwarded = self.forwarded + 1;
            }
            Verdict::Forward(message)
        } else {
            if self.rejected < u64::MAX {
                self.rejected = self.rejected + 1;
            }
            Verdict::Discard
        }
    }

    /// Gives the subscription up: a record could not be decoded, or the sink
    /// could not be written.
    pub fn on_fault(&mut self, fault: Fault)
        ensures
            final(self)@ == old(self)@.after_fault(fault),
            old(self)@.is_consistent() ==> final(self)@.is_consistent(),
    {
        match self.phase {
            Phase::Error(_) => {},
            _ => {
                self.phase = Phase::Error(fault);
            },
        }
    }
}

/// While every read gives nothing, a subscriber that waits for its first
/// byte goes on waiting: it does not change at all, so it neither starts to
/// stream nor fails, and every one of those reads is answered with a sleep
/// of the poll interval, which is never zero.
pub proof fn law_idle_reads_keep_waiting(start: SubscriberView, events: Seq<ReadEvent>)
    requires
        start.is_consistent(),
        start.phase == Phase::AwaitingData,
        forall|i: int| 0 <= i < events.len() ==> is_idle(#[trigger] events[i]),
    ensures
        start.after_reads(events) == start,
        start.plans(events) == Seq::new(
            events.len(),
            |i: int| PlanView::Sleep { millis: start.poll_interval_ms },
        ),
        start.poll_interval_ms > 0,
    decreases events.len(),
{
    if events.len() > 0 {
        let earlier = events.drop_last();
        assert forall|i: int| 0 <= i < earlier.len() implies is_idle(#[trigger] earlier[i]) by {
            assert(earlier[i] == events[i]);
        }
        law_idle_reads_keep_waiting(start, earlier);
        assert(is_idle(events.last()));
    }
    assert forall|i: int| 0 <= i < events.len() implies #[trigger] start.plans(events)[i]
        == (PlanView::Sleep { millis: start.poll_interval_ms }) by {
        let seen = events.take(i);
        assert forall|j: int| 0 <= j < seen.len() implies is_idle(#[trigger] seen[j]) by {
            assert(seen[j] == events[j]);
        }
        law_idle_reads_keep_waiting(start, seen);
        assert(is_idle(events[i]));
    }
    assert(start.plans(events) =~= Seq::new(
        events.len(),
        |i: int| PlanView::Sleep { millis: start.poll_interval_ms },
    ));
}

/// A subscriber that waits for its first byte does not start to stream
/// before a read has given at least one byte.
pub proof fn law_streaming_needs_data(start: SubscriberView, events: Seq<ReadEvent>)
    requires
        start.phase == Phase::AwaitingData,
        start.after_reads(events).phase == Phase::Streaming,
    ensures
        exists|i: int| 0 <= i < events.len() && gave_data(#[trigger] events[i]),
    decreases events.len(),
{
    if events.len() > 0 {
        let earlier = events.drop_last();
        if gave_data(events.last()) {
            assert(events[events.len() - 1] == events.last());
        } else {
            assert(start.after_reads(earlier).phase == Phase::Streaming);
            law_streaming_needs_data(start, earlier);
            let i = choose|i: int| 0 <= i < earlier.len() && gave_data(#[trigger] earlier[i]);
            assert(events[i] == earlier[i]);
        }
    }
}

/// Once a subscription has ended or was given up, no read changes it any
/// more.
pub proof fn law_final_phases_stay(state: SubscriberView, event: ReadEvent)
    requires
        state.phase == Phase::Terminated || state.phase is Error,
    ensures
        state.after_read(event) == state,
        state.plan(event) is Finish || state.plan(event) is Abort,
{
}

/// An empty line leaves no trace. No plan hands out an empty record, so
/// none reaches the decoder or the sink; a read alone changes neither the
/// count of forwarded envelopes nor the count of rejected ones; and lines
/// with an empty line added anywhere give the same records as without it.
pub proof fn law_empty_lines_skipped(
    state: SubscriberView,
    event: ReadEvent,
    before: Seq<Seq<u8>>,
    after: Seq<Seq<u8>>,
)
    ensures
        forall|i: int|
            0 <= i < handed_out(state.plan(event)).len() ==> (#[trigger] handed_out(
                state.plan(event),
            )[i]).len() > 0,
        state.after_read(event).forwarded == state.forwarded,
        state.after_read(event).rejected == state.rejected,
        records_of(before.push(Seq::empty()) + after) == records_of(before + after),
{
    let keep = is_record();
    assert forall|i: int| 0 <= i < handed_out(state.plan(event)).len() implies (
    #[trigger] handed_out(state.plan(event))[i]).len() > 0 by {
        match event {
            ReadEvent::Data(bytes) => {
                if bytes.len() == 0 {
                    seq![state.pending].lemma_filter_pred(keep, i);
                } else {
                    complete_lines(state.pending + bytes).lemma_filter_pred(keep, i);
                }
            },
            _ => {},
        }
    }
    before.lemma_filter_push(Seq::empty(), keep);
    Seq::filter_distributes_over_add(before.push(Seq::empty()), after, keep);
    Seq::filter_distributes_over_add(before, after, keep);
}

/// A new subscriber is consistent, and every step keeps it so.
pub proof fn law_consistency_is_kept(
    state: SubscriberView,
    event: ReadEvent,
    valid: bool,
    fault: Fault,
    poll_interval_ms: u64,
)
    requires
        state.is_consistent(),
    ensures
        SubscriberView::fresh(poll_interval_ms).is_consistent(),
        state.after_read(event).is_consistent(),
        state.after_verdict(valid).is_consistent(),
        state.after_fault(fault).is_consistent(),
{
    match event {
        ReadEvent::Data(bytes) => {
            lemma_unfinished_has_no_delimiter(state.pending + bytes);
        },
        _ => {},
    }
}

/// Lines that are all records stay as they are when the empty ones are
/// dropped.
pub proof fn lemma_records_of_records(lines: Seq<Seq<u8>>)
    requires
        forall|i: int| 0 <= i < lines.len() ==> (#[trigger] lines[i]).len() > 0,
    ensures
        records_of(lines) == lines,
    decreases lines.len(),
{
    reveal(Seq::filter);
    if lines.len() > 0 {
        let earlier = lines.drop_last();
        assert forall|i: int| 0 <= i < earlier.len() implies (#[trigger] earlier[i]).len() > 0 by {
            assert(earlier[i] == lines[i]);
        }
        lemma_records_of_records(earlier);
        assert(lines.last() == lines[lines.len() - 1]);
        assert(earlier.push(lines.last()) =~= lines);
    }
}

/// However the channel cuts the stream into reads, a subscriber hands out
/// the same records: over a run of reads that each gave data or would have
/// blocked, they are the non-empty lines of all bytes read, in order and
/// once each, and what stays open is the unfinished end of those bytes.
pub proof fn law_reads_deliver_lines(state: SubscriberView, events: Seq<ReadEvent>)
    requires
        state.is_consistent(),
        state.phase == Phase::AwaitingData || state.phase == Phase::Streaming,
        forall|i: int|
            0 <= i < events.len() ==> (#[trigger] events[i]) is WouldBlock || gave_data(events[i]),
    ensures
        state.records_over(events) == records_of(
            complete_lines(state.pending + bytes_read(events)),
        ),
        state.after_reads(events).pending == unfinished(state.pending + bytes_read(events)),
        state.after_reads(events).phase == Phase::AwaitingData || state.after_reads(events).phase
            == Phase::Streaming,
        state.after_reads(events).forwarded == state.forwarded,
        state.after_reads(events).rejected == state.rejected,
    decreases events.len(),
{
    if events.len() == 0 {
        assert(state.pending + Seq::<u8>::empty() =~= state.pending);
        lemma_no_delimiter(state.pending);
        reveal(Seq::filter);
    } else {
        let earlier = events.drop_last();
        let last = events.last();
        assert forall|i: int| 0 <= i < earlier.len() implies (#[trigger] earlier[i]) is WouldBlock
            || gave_data(earlier[i]) by {
            assert(earlier[i] == events[i]);
        }
        assert(last == events[events.len() - 1]);
        law_reads_deliver_lines(state, earlier);
        let seen = state.pending + bytes_read(earlier);
        match last {
            ReadEvent::Data(bytes) => {
                assert(bytes.len() > 0);
                law_chunking(seen, bytes);
                assert(seen + bytes =~= state.pending + bytes_read(events));
                Seq::filter_distributes_over_add(
                    complete_lines(seen),
                    complete_lines(unfinished(seen) + bytes),
                    is_record(),
                );
            },
            _ => {
                assert(bytes_read(events) =~= bytes_read(earlier));
                assert(state.records_over(earlier) + Seq::<Seq<u8>>::empty()
                    =~= state.records_over(earlier));
            },
        }
    }
}

/// What is framed and written arrives: when the bytes read are the frames
/// of `records`, each of which travels intact, a new subscriber hands out
/// exactly those records, in the order in which they were framed, and no
/// line is left open, however the reads divide the bytes.
pub proof fn law_transport_delivers(
    records: Seq<Seq<u8>>,
    events: Seq<ReadEvent>,
    poll_interval_ms: u64,
)
    requires
        forall|i: int| 0 <= i < records.len() ==> travels_intact(#[trigger] records[i]),
        forall|i: int|
            0 <= i < events.len() ==> (#[trigger] events[i]) is WouldBlock || gave_data(events[i]),
        bytes_read(events) == framed_all(records),
    ensures
        SubscriberView::fresh(poll_interval_ms).records_over(events) == records,
        SubscriberView::fresh(poll_interval_ms).after_reads(events).pending == Seq::<u8>::empty(),
{
    let start = SubscriberView::fresh(poll_interval_ms);
    law_reads_deliver_lines(start, events);
    assert(start.pending + bytes_read(events) =~= framed_all(records));
    law_frames_round_trip(records);
    assert(records.map_values(|r: Seq<u8>| line_content(r)) =~= records);
    lemma_records_of_records(records);
}

} // verus!
