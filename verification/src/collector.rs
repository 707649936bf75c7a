//! The timed collector: the state machine of one collection session.
//!
//! The collector never waits and never touches the network. Its caller does
//! what an [`Action`] asks for and reports what happened as an [`Event`];
//! [`Session::step`] decides what the session becomes and what to do next.
//! Times are readings of one monotonic clock, in the unit of the session's
//! duration.

use crate::decode::{decode, decodes_to, DecodeError};
use crate::observation::Observation;
use vstd::prelude::*;

verus! {

/// Where a session stands.
#[derive(Clone, Copy, Debug, PartialEq, Eq, Structural)]
pub enum Phase {
    /// The connection attempt has not been answered yet.
    Connecting,
    /// Connected, and before the deadline: messages are being received.
    Listening,
    /// Listening is over; the connection is being released.
    Draining,
    /// Terminal.
    Done,
}

/// Why the single connection attempt failed.
#[derive(Clone, Copy, Debug, PartialEq, Eq, Structural)]
pub enum ConnectError {
    /// The endpoint could not be resolved or reached.
    Unreachable,
    /// The endpoint was reached, but the handshake did not succeed.
    HandshakeRejected,
}

/// What went wrong in a session, if anything did.
#[derive(Clone, Copy, Debug, PartialEq, Eq, Structural)]
pub enum SessionError {
    /// No connection was made; the session has no observations.
    Connect(ConnectError),
    /// The transport failed while listening.
    StreamFailed,
    /// The feed sent a frame that is neither a textual message nor the
    /// notice that the stream closes.
    UnexpectedFrame,
}

/// The kinds of frame, other than a textual message, that a feed can deliver.
#[derive(Clone, Copy, Debug, PartialEq, Eq, Structural)]
pub enum FrameKind {
    /// A message of bytes that are no text.
    Binary,
    /// A request for a sign of life.
    Ping,
    /// A sign of life.
    Pong,
    /// The remote end's notice that it closes the stream.
    Close,
    /// A frame that was not put together into a message.
    Raw,
}

/// What the caller reports to the collector.
#[derive(Clone, Copy, Debug, PartialEq, Eq)]
pub enum Event {
    /// The connection was established at time `at`.
    Connected { at: u64 },
    /// The connection attempt failed.
    ConnectFailed { cause: ConnectError },
    /// A textual message arrived at time `at` and was decoded.
    Message { at: u64, decoded: Result<Observation, DecodeError> },
    /// A frame that is no textual message arrived.
    Frame { kind: FrameKind },
    /// The stream ended.
    StreamEnded,
    /// The transport reported a failure.
    StreamFailed,
    /// The wait for a message was given up at time `at`.
    TimedOut { at: u64 },
    /// The connection has been released.
    Closed,
}

/// What the collector asks its caller to do next.
#[derive(Clone, Copy, Debug, PartialEq, Eq, Structural)]
pub enum Action {
    /// Make the one connection attempt.
    Connect,
    /// Wait for the next message, but no longer than `timeout`.
    Receive { timeout: u64 },
    /// Release the connection. A failure to do so is not an error of the
    /// session.
    Close,
    /// Nothing more: the session is over.
    Finish,
}

/// The time that has passed at `at` since `started_at`. A reading that lies
/// before the start counts as the start.
pub open spec fn elapsed(started_at: u64, at: u64) -> int {
    if at >= started_at {
        at - started_at
    } else {
        0
    }
}

/// The time left at `at` until the deadline `started_at + duration`; zero
/// once the deadline is reached.
pub open spec fn time_left(duration: u64, started_at: u64, at: u64) -> int {
    if elapsed(started_at, at) >= duration {
        0
    } else {
        duration - elapsed(started_at, at)
    }
}

/// A counter that stops at the largest value it can hold.
pub open spec fn counted_once_more(count: u64) -> u64 {
    if count < u64::MAX {
        (count + 1) as u64
    } else {
        count
    }
}

/// The mathematical state of a session.
pub struct SessionState {
    pub phase: Phase,
    /// How long the session listens, from the moment it is connected.
    pub duration: u64,
    /// When the connection was established; meaningful once connected.
    pub started_at: u64,
    /// The time left until the deadline at the latest event seen while
    /// listening.
    pub remaining: u64,
    /// The observations collected so far, in arrival order.
    pub samples: Seq<Observation>,
    /// How many messages failed to decode.
    pub decode_failures: u64,
    pub error: Option<SessionError>,
}

impl Event {
    /// The observation that an event carries, if any, is finite.
    pub open spec fn wf(self) -> bool {
        match self {
            Event::Message { decoded: Ok(observation), .. } => observation.is_finite(),
            _ => true,
        }
    }
}

impl SessionState {
    /// A fresh session: nothing collected, the connection not yet attempted.
    pub open spec fn initial(duration: u64) -> SessionState {
        SessionState {
            phase: Phase::Connecting,
            duration,
            started_at: 0,
            remaining: 0,
            samples: Seq::empty(),
            decode_failures: 0,
            error: None,
        }
    }

    /// What the session is waiting for its caller to do.
    pub open spec fn pending(self) -> Action {
        match self.phase {
            Phase::Connecting => Action::Connect,
            Phase::Listening => Action::Receive { timeout: self.remaining },
            Phase::Draining => Action::Close,
            Phase::Done => Action::Finish,
        }
    }

    /// The session leaves `Listening` for `Draining`, keeping what it has
    /// collected, with `error` as the reason if there is one.
    pub open spec fn drained(self, error: Option<SessionError>) -> SessionState {
        SessionState { phase: Phase::Draining, remaining: 0, error, ..self }
    }

    /// The session stays in `Listening` with `left` until the deadline.
    pub open spec fn listening_on(self, left: u64) -> SessionState {
        SessionState { phase: Phase::Listening, remaining: left, ..self }
    }

    /// The transition on a connection attempt's answer.
    pub open spec fn on_connecting(self, event: Event) -> SessionState {
        match event {
            Event::Connected { at } => {
                let connected = SessionState { started_at: at, ..self };
                if self.duration == 0 {
                    connected.drained(None)
                } else {
                    connected.listening_on(self.duration)
                }
            },
            Event::ConnectFailed { cause } => SessionState {
                phase: Phase::Done,
                error: Some(SessionError::Connect(cause)),
                ..self
            },
            _ => self,
        }
    }

    /// The transition on what the feed, or the clock, delivers while
    /// listening.
    pub open spec fn on_listening(self, event: Event) -> SessionState {
        match event {
            Event::Message { at, decoded } => {
                let left = time_left(self.duration, self.started_at, at);
                if left == 0 {
                    self.drained(None)
                } else {
                    match decoded {
                        Ok(observation) => SessionState {
                            samples: self.samples.push(observation),
                            ..self.listening_on(left as u64)
                        },
                        Err(_) => SessionState {
                            decode_failures: counted_once_more(self.decode_failures),
                            ..self.listening_on(left as u64)
                        },
                    }
                }
            },
            Event::TimedOut { at } => {
                let left = time_left(self.duration, self.started_at, at);
                if left == 0 {
                    self.drained(None)
                } else {
                    self.listening_on(left as u64)
                }
            },
            Event::Frame { kind: FrameKind::Close } => self.drained(None),
            Event::Frame { .. } => self.drained(Some(SessionError::UnexpectedFrame)),
            Event::StreamEnded => self.drained(None),
            Event::StreamFailed => self.drained(Some(SessionError::StreamFailed)),
            _ => self,
        }
    }

    /// The transition while the connection is being released.
    pub open spec fn on_draining(self, event: Event) -> SessionState {
        match event {
            Event::Closed => SessionState { phase: Phase::Done, ..self },
            _ => self,
        }
    }

    /// The session after `event`. An event that does not answer what the
    /// session is waiting for changes nothing.
    pub open spec fn after(self, event: Event) -> SessionState {
        match self.phase {
            Phase::Connecting => self.on_connecting(event),
            Phase::Listening => self.on_listening(event),
            Phase::Draining => self.on_draining(event),
            Phase::Done => self,
        }
    }

    /// The session after a whole sequence of events, first to last.
    pub open spec fn after_all(self, events: Seq<Event>) -> SessionState
        decreases events.len(),
    {
        if events.len() == 0 {
            self
        } else {
            self.after_all(events.drop_last()).after(events.last())
        }
    }

    /// What holds of every session that began fresh and saw only well-formed
    /// events.
    pub open spec fn inv(self) -> bool {
        &&& forall|i: int| 0 <= i < self.samples.len() ==> (#[trigger] self.samples[i]).is_finite()
        &&& self.phase == Phase::Connecting ==> self.samples.len() == 0 && self.decode_failures == 0
                && self.error is None
        &&& self.phase == Phase::Listening ==> self.error is None && 0 < self.remaining
                <= self.duration
        &&& self.error matches Some(SessionError::Connect(_)) ==> self.phase == Phase::Done
                && self.samples.len() == 0 && self.decode_failures == 0
    }

    /// Whether the results of the session are to be handed to the persistence
    /// sink: the session is over, and it had a connection.
    pub open spec fn persists(self) -> bool {
        self.phase == Phase::Done && !(self.error matches Some(SessionError::Connect(_)))
    }
}

/// One collection session.
pub struct Session {
    phase: Phase,
    duration: u64,
    started_at: u64,
    remaining: u64,
    samples: Vec<Observation>,
    decode_failures: u64,
    error: Option<SessionError>,
}

impl View for Session {
    type V = SessionState;

    closed spec fn view(&self) -> SessionState {
        SessionState {
            phase: self.phase,
            duration: self.duration,
            started_at: self.started_at,
            remaining: self.remaining,
            samples: self.samples@,
            decode_failures: self.decode_failures,
            error: self.error,
        }
    }
}

impl Session {
    /// A fresh session that will listen for `duration` once it is connected.
    /// The first thing to do for it is [`Action::Connect`].
    pub fn new(duration: u64) -> (session: Session)
        ensures
            session@ == SessionState::initial(duration),
            session@.inv(),
    {
        Session {
            phase: Phase::Connecting,
            duration,
            started_at: 0,
            remaining: 0,
            samples: Vec::new(),
            decode_failures: 0,
            error: None,
        }
    }

    /// The time left at `at` until the deadline.
    fn left_at(&self, at: u64) -> (left: u64)
        ensures
            left == time_left(self@.duration, self@.started_at, at),
    {
        if at >= self.started_at && at - self.started_at < self.duration {
            self.duration - (at - self.started_at)
        } else if at >= self.started_at {
            0
        } else {
            self.duration
        }
    }

    /// What the session is waiting for its caller to do.
    pub fn pending(&self) -> (action: Action)
        ensures
            action == self@.pending(),
    {
        match self.phase {
            Phase::Connecting => Action::Connect,
            Phase::Listening => Action::Receive { timeout: self.remaining },
            Phase::Draining => Action::Close,
            Phase::Done => Action::Finish,
        }
    }

    fn drain(&mut self, error: Option<SessionError>)
        ensures
            final(self)@ == old(self)@.drained(error),
    {
        self.phase = Phase::Draining;
        self.remaining = 0;
        self.error = error;
    }

    fn listen_on(&mut self, at: u64) -> (listening: bool)
        ensures
            time_left(old(self)@.duration, old(self)@.started_at, at) == 0 ==> !listening
                && final(self)@ == old(self)@.drained(None),
            time_left(old(self)@.duration, old(self)@.started_at, at) != 0 ==> listening
                && final(self)@ == old(self)@.listening_on(
                time_left(old(self)@.duration, old(self)@.started_at, at) as u64,
            ),
    {
        let left = self.left_at(at);
        if left == 0 {
            self.drain(None);
            false
        } else {
            self.phase = Phase::Listening;
            self.remaining = left;
            true
        }
    }

    /// Takes one event and says what to do next.
    ///
    /// A message is appended to the samples only if it arrived before the
    /// deadline and was decoded; one that failed to decode is counted and
    /// skipped. The end of the stream, a failure of the stream, a frame that
    /// is no textual message and the deadline all end the listening and keep
    /// the samples; of the frames, only the notice of closing is no error.
    pub fn step(&mut self, event: Event) -> (action: Action)
        ensures
            final(self)@ == old(self)@.after(event),
            action == final(self)@.pending(),
            old(self)@.inv() ==> final(self)@.inv(),
    {
        match self.phase {
            Phase::Connecting => match event {
                Event::Connected { at } => {
                    self.started_at = at;
                    if self.duration == 0 {
                        self.drain(None);
                    } else {
                        self.phase = Phase::Listening;
                        self.remaining = self.duration;
                    }
                },
                Event::ConnectFailed { cause } => {
                    self.phase = Phase::Done;
                    self.error = Some(SessionError::Connect(cause));
                },
                _ => {},
            },
            Phase::Listening => match event {
                Event::Message { at, decoded } => {
                    if self.listen_on(at) {
                        match decoded {
                            Ok(observation) => {
                                proof {
                                    use_type_invariant(observation);
                                }
                                self.samples.push(observation);
                            },
                            Err(_) => {
                                if self.decode_failures < u64::MAX {
                                    self.decode_failures = self.decode_failures + 1;
                                }
                            },
                        }
                    }
                },
                Event::TimedOut { at } => {
                    self.listen_on(at);
                },
                Event::Frame { kind: FrameKind::Close } => self.drain(None),
                Event::Frame { .. } => self.drain(Some(SessionError::UnexpectedFrame)),
                Event::StreamEnded => self.drain(None),
                Event::StreamFailed => self.drain(Some(SessionError::StreamFailed)),
                _ => {},
            },
            Phase::Draining => match event {
                Event::Closed => {
                    self.phase = Phase::Done;
                },
                _ => {},
            },
            Phase::Done => {},
        }
        self.pending()
    }

    /// Takes one textual message that arrived at `at`: decodes it, and takes
    /// the result as [`Session::step`] takes an [`Event::Message`]. The
    /// decoded result is returned with the next action, for the caller to
    /// report a failure.
    pub fn receive<P: Fn(&str) -> Option<u64>>(
        &mut self,
        at: u64,
        payload: &str,
        parse_number: P,
    ) -> (outcome: (Action, Result<Observation, DecodeError>))
        requires
            forall|text: &str| parse_number.requires((text,)),
        ensures
            decodes_to(payload@, parse_number, outcome.1),
            final(self)@ == old(self)@.after(Event::Message { at, decoded: outcome.1 }),
            outcome.0 == final(self)@.pending(),
            old(self)@.inv() ==> final(self)@.inv(),
    {
        let decoded = decode(payload, parse_number);
        let action = self.step(Event::Message { at, decoded });
        (action, decoded)
    }

    /// Where the session stands.
    pub fn phase(&self) -> (phase: Phase)
        ensures
            phase == self@.phase,
    {
        self.phase
    }

    /// How long the session listens once it is connected.
    pub fn duration(&self) -> (duration: u64)
        ensures
            duration == self@.duration,
    {
        self.duration
    }

    /// The observations collected so far, in arrival order.
    pub fn samples(&self) -> (samples: &Vec<Observation>)
        ensures
            samples@ == self@.samples,
    {
        &self.samples
    }

    /// How many messages failed to decode and were skipped.
    pub fn decode_failures(&self) -> (count: u64)
        ensures
            count == self@.decode_failures,
    {
        self.decode_failures
    }

    /// What went wrong, if anything did.
    pub fn error(&self) -> (error: Option<SessionError>)
        ensures
            error == self@.error,
    {
        self.error
    }

    /// Whether the results are to be handed to the persistence sink: the
    /// session is over, and it had a connection. An empty result is handed
    /// over like any other; the result of a failed connection never is.
    pub fn persists(&self) -> (persists: bool)
        ensures
            persists == self@.persists(),
    {
        match self.phase {
            Phase::Done => match self.error {
                Some(SessionError::Connect(_)) => false,
                _ => true,
            },
            _ => false,
        }
    }

    /// Ends the session and hands over what it collected, with the error
    /// that ended it, if one did.
    pub fn finish(self) -> (outcome: (Vec<Observation>, Option<SessionError>))
        ensures
            outcome.0@ == self@.samples,
            outcome.1 == self@.error,
    {
        (self.samples, self.error)
    }
}

/// Whether `event` is a message that arrived at a time when `state` has not
/// yet reached its deadline.
pub open spec fn timely_message(state: SessionState, event: Event) -> bool {
    event matches Event::Message { at, .. } && elapsed(state.started_at, at) < state.duration
}

/// The observations of the messages among `events` that were decoded, in the
/// order of the events.
pub open spec fn decoded_in_order(events: Seq<Event>) -> Seq<Observation>
    decreases events.len(),
{
    if events.len() == 0 {
        Seq::empty()
    } else {
        match events.last() {
            Event::Message { decoded: Ok(observation), .. } => decoded_in_order(
                events.drop_last(),
            ).push(observation),
            _ => decoded_in_order(events.drop_last()),
        }
    }
}

/// Every session that began fresh and saw only well-formed events satisfies
/// the invariant: among other things, a session whose connection failed has
/// no observations, and a listening session has time left and no error.
pub proof fn lemma_invariant_always_holds(duration: u64, events: Seq<Event>)
    requires
        forall|i: int| 0 <= i < events.len() ==> (#[trigger] events[i]).wf(),
    ensures
        SessionState::initial(duration).after_all(events).inv(),
    decreases events.len(),
{
    if events.len() > 0 {
        lemma_invariant_always_holds(duration, events.drop_last());
        lemma_step_keeps_invariant(
            SessionState::initial(duration).after_all(events.drop_last()),
            events.last(),
        );
    }
}

/// One well-formed event leads from a session that satisfies the invariant
/// to one that does.
pub proof fn lemma_step_keeps_invariant(state: SessionState, event: Event)
    requires
        state.inv(),
        event.wf(),
    ensures
        state.after(event).inv(),
{
}

/// The samples change in one way only: a message that was decoded, and that
/// reached a listening session before its deadline, is appended at the end.
/// Every other event leaves the samples as they are; in particular a message
/// that arrived at or after the deadline.
pub proof fn lemma_only_timely_messages_append(state: SessionState, event: Event)
    ensures
        match event {
            Event::Message { at, decoded: Ok(observation) } => if state.phase == Phase::Listening
                && elapsed(state.started_at, at) < state.duration {
                state.after(event).samples == state.samples.push(observation)
            } else {
                state.after(event).samples == state.samples
            },
            _ => state.after(event).samples == state.samples,
        },
{
}

/// However many messages arrive at or after the deadline, and whatever else
/// happens in between, none of them is appended.
pub proof fn lemma_late_messages_never_append(state: SessionState, events: Seq<Event>)
    requires
        state.phase != Phase::Connecting,
        forall|i: int|
            0 <= i < events.len() && (#[trigger] events[i]) is Message ==> !timely_message(
                state,
                events[i],
            ),
    ensures
        state.after_all(events).samples == state.samples,
        state.after_all(events).started_at == state.started_at,
        state.after_all(events).duration == state.duration,
        state.after_all(events).phase != Phase::Connecting,
    decreases events.len(),
{
    if events.len() > 0 {
        lemma_late_messages_never_append(state, events.drop_last());
        let before = state.after_all(events.drop_last());
        assert(events.last() == events[events.len() - 1]);
        assert(events.last() is Message ==> !timely_message(before, events.last()));
        assert(state.after_all(events) == before.after(events.last()));
    }
}

/// A message that fails to decode is skipped, not fatal: the session goes on
/// listening with its samples untouched, and the next message is appended if
/// it decodes. Both messages are taken to arrive before the deadline.
pub proof fn lemma_decode_failure_is_skipped(state: SessionState, failed: Event, next: Event)
    requires
        state.phase == Phase::Listening,
        timely_message(state, failed),
        failed matches Event::Message { decoded: Err(_), .. },
        timely_message(state, next),
        next matches Event::Message { decoded: Ok(_), .. },
    ensures
        state.after(failed).phase == Phase::Listening,
        state.after(failed).samples == state.samples,
        state.after(failed).decode_failures == counted_once_more(state.decode_failures),
        state.after(failed).error is None <==> state.error is None,
        next matches Event::Message { decoded: Ok(observation), .. } && state.after(failed).after(
            next,
        ).samples == state.samples.push(observation),
{
}

/// Arrival order is kept: after any run of messages that arrive before the
/// deadline, the samples are the earlier samples followed by the
/// observations that were decoded, in the order in which their messages
/// arrived. Nothing is dropped, repeated or moved.
pub proof fn lemma_arrival_order_is_kept(state: SessionState, events: Seq<Event>)
    requires
        state.phase == Phase::Listening,
        forall|i: int| 0 <= i < events.len() ==> timely_message(state, #[trigger] events[i]),
    ensures
        state.after_all(events).phase == Phase::Listening,
        state.after_all(events).started_at == state.started_at,
        state.after_all(events).duration == state.duration,
        state.after_all(events).samples == state.samples + decoded_in_order(events),
    decreases events.len(),
{
    if events.len() > 0 {
        lemma_arrival_order_is_kept(state, events.drop_last());
        let before = state.after_all(events.drop_last());
        assert(timely_message(state, events[events.len() - 1]));
        assert(timely_message(before, events.last()));
        match events.last() {
            Event::Message { decoded: Ok(observation), .. } => {
                assert(before.after(events.last()).samples == (state.samples + decoded_in_order(
                    events.drop_last(),
                )).push(observation));
            },
            _ => {},
        }
    }
}

/// Whether `event` ends the listening of a session that was connected at
/// `started_at` and listens for `duration`: a message or a given-up wait at
/// or after the deadline, any frame that is no textual message, the end of
/// the stream, or its failure.
pub open spec fn ends_listening(duration: u64, started_at: u64, event: Event) -> bool {
    match event {
        Event::Message { at, .. } => elapsed(started_at, at) >= duration,
        Event::TimedOut { at } => elapsed(started_at, at) >= duration,
        Event::Frame { .. } => true,
        Event::StreamEnded => true,
        Event::StreamFailed => true,
        _ => false,
    }
}

/// The events that a listening session listens to: those before the first
/// that ends the listening.
pub open spec fn listening_window(duration: u64, started_at: u64, events: Seq<Event>) -> Seq<
    Event,
>
    decreases events.len(),
{
    if events.len() == 0 || ends_listening(duration, started_at, events.first()) {
        Seq::empty()
    } else {
        seq![events.first()] + listening_window(duration, started_at, events.drop_first())
    }
}

/// Taking a sequence of events is taking the first, then the rest.
pub proof fn lemma_after_all_from_the_front(state: SessionState, events: Seq<Event>)
    requires
        events.len() > 0,
    ensures
        state.after_all(events) == state.after(events.first()).after_all(events.drop_first()),
    decreases events.len(),
{
    if events.len() == 1 {
        assert(events.drop_last() == Seq::<Event>::empty());
        assert(events.drop_first() == Seq::<Event>::empty());
        assert(state.after_all(events.drop_last()) == state);
        assert(state.after(events.first()).after_all(events.drop_first()) == state.after(
            events.first(),
        ));
    } else {
        let rest = events.drop_first();
        lemma_after_all_from_the_front(state, events.drop_last());
        assert(events.drop_last().first() == events.first());
        assert(events.drop_last().drop_first() == rest.drop_last());
        assert(rest.last() == events.last());
        assert(state.after(events.first()).after_all(rest) == state.after(
            events.first(),
        ).after_all(rest.drop_last()).after(rest.last()));
    }
}

/// The observations decoded from a sequence of events are that of the first,
/// if it has one, and then those of the rest.
pub proof fn lemma_decoded_in_order_from_the_front(events: Seq<Event>)
    requires
        events.len() > 0,
    ensures
        decoded_in_order(events) == match events.first() {
            Event::Message { decoded: Ok(observation), .. } => seq![observation]
                + decoded_in_order(events.drop_first()),
            _ => decoded_in_order(events.drop_first()),
        },
    decreases events.len(),
{
    if events.len() == 1 {
        assert(events.drop_last() == Seq::<Event>::empty());
        assert(events.drop_first() == Seq::<Event>::empty());
        assert(decoded_in_order(events.drop_last()) == Seq::<Observation>::empty());
    } else {
        let rest = events.drop_first();
        lemma_decoded_in_order_from_the_front(events.drop_last());
        assert(events.drop_last().first() == events.first());
        assert(events.drop_last().drop_first() == rest.drop_last());
        assert(rest.last() == events.last());
    }
}

/// Once the listening is over, nothing is appended any more.
pub proof fn lemma_nothing_is_appended_after_listening(state: SessionState, events: Seq<Event>)
    requires
        state.phase == Phase::Draining || state.phase == Phase::Done,
    ensures
        state.after_all(events).samples == state.samples,
        state.after_all(events).error == state.error,
        state.after_all(events).phase == Phase::Draining || state.after_all(events).phase
            == Phase::Done,
    decreases events.len(),
{
    if events.len() > 0 {
        lemma_nothing_is_appended_after_listening(state, events.drop_last());
        assert(state.after_all(events) == state.after_all(events.drop_last()).after(events.last()));
    }
}

/// What a listening session collects, whatever is reported to it: the
/// observations decoded from the messages that arrive before the first event
/// that ends the listening, in the order of their arrival, after the samples
/// it had. Nothing that arrives at or after the deadline, and nothing that
/// follows the end or a failure of the stream, is among them; a message that
/// fails to decode leaves no trace in them and ends nothing.
pub proof fn lemma_samples_are_the_listening_window(state: SessionState, events: Seq<Event>)
    requires
        state.phase == Phase::Listening,
    ensures
        state.after_all(events).samples == state.samples + decoded_in_order(
            listening_window(state.duration, state.started_at, events),
        ),
    decreases events.len(),
{
    let window = listening_window(state.duration, state.started_at, events);
    if events.len() == 0 {
        assert(state.samples + decoded_in_order(window) == state.samples);
    } else {
        let first = events.first();
        let rest = events.drop_first();
        let next = state.after(first);
        lemma_after_all_from_the_front(state, events);
        if ends_listening(state.duration, state.started_at, first) {
            assert(next.phase == Phase::Draining && next.samples == state.samples);
            lemma_nothing_is_appended_after_listening(next, rest);
            assert(state.samples + decoded_in_order(window) == state.samples);
        } else {
            assert(next.phase == Phase::Listening && next.duration == state.duration
                && next.started_at == state.started_at);
            lemma_samples_are_the_listening_window(next, rest);
            let later = listening_window(state.duration, state.started_at, rest);
            assert(window == seq![first] + later);
            lemma_decoded_in_order_from_the_front(window);
            assert(window.first() == first);
            assert(window.drop_first() == later);
            match first {
                Event::Message { decoded: Ok(observation), .. } => {
                    assert(state.samples.push(observation) + decoded_in_order(later)
                        == state.samples + (seq![observation] + decoded_in_order(later)));
                },
                _ => {},
            }
        }
    }
}

/// With no time to listen, no message is listened to.
proof fn lemma_no_time_no_window(started_at: u64, events: Seq<Event>)
    ensures
        decoded_in_order(listening_window(0, started_at, events)).len() == 0,
    decreases events.len(),
{
    let window = listening_window(0, started_at, events);
    if window.len() > 0 {
        lemma_no_time_no_window(started_at, events.drop_first());
        lemma_decoded_in_order_from_the_front(window);
        assert(window.drop_first() == listening_window(0, started_at, events.drop_first()));
    }
}

/// What a session collects from the moment it is connected, whatever is
/// reported to it afterwards: the observations decoded from the messages
/// that arrive before the first event that ends the listening, in the order
/// of their arrival, and nothing else.
pub proof fn lemma_session_collects_its_window(
    duration: u64,
    connected_at: u64,
    events: Seq<Event>,
)
    ensures
        SessionState::initial(duration).after(Event::Connected { at: connected_at }).after_all(
            events,
        ).samples == decoded_in_order(listening_window(duration, connected_at, events)),
{
    let connected = SessionState::initial(duration).after(Event::Connected { at: connected_at });
    if duration == 0 {
        lemma_nothing_is_appended_after_listening(connected, events);
        lemma_no_time_no_window(connected_at, events);
    } else {
        lemma_samples_are_the_listening_window(connected, events);
    }
}

/// Whatever happens, the samples collected so far stay where they are:
/// later events can only add to their end.
pub proof fn lemma_samples_only_grow(state: SessionState, events: Seq<Event>)
    ensures
        state.samples.is_prefix_of(state.after_all(events).samples),
    decreases events.len(),
{
    if events.len() > 0 {
        lemma_samples_only_grow(state, events.drop_last());
        lemma_only_timely_messages_append(state.after_all(events.drop_last()), events.last());
    }
}

/// A failure of the stream ends the listening and is reported, but the
/// session keeps every observation it had: once the connection is released
/// the session is over, with those samples, and they are to be persisted.
pub proof fn lemma_stream_failure_keeps_samples(state: SessionState)
    requires
        state.phase == Phase::Listening,
    ensures
        state.after(Event::StreamFailed).phase == Phase::Draining,
        state.after(Event::StreamFailed).pending() == Action::Close,
        ({
            let end = state.after(Event::StreamFailed).after(Event::Closed);
            &&& end.phase == Phase::Done
            &&& end.samples == state.samples
            &&& end.error == Some(SessionError::StreamFailed)
            &&& end.persists()
        }),
{
}

/// A session whose deadline has passed the moment it is connected never
/// listens: it releases the connection at once and ends with no samples and
/// no error, and its empty result is still to be persisted.
pub proof fn lemma_no_time_no_samples(at: u64)
    ensures
        SessionState::initial(0).after(Event::Connected { at }).phase == Phase::Draining,
        SessionState::initial(0).after(Event::Connected { at }).pending() == Action::Close,
        ({
            let end = SessionState::initial(0).after(Event::Connected { at }).after(Event::Closed);
            &&& end.phase == Phase::Done
            &&& end.samples.len() == 0
            &&& end.error is None
            &&& end.persists()
        }),
{
}

/// A session whose deadline has passed when the first message arrives, or
/// when the first wait is given up, collects nothing: it ends with no samples
/// and no error, and its empty result is still to be persisted.
pub proof fn lemma_elapsed_deadline_collects_nothing(duration: u64, connected_at: u64, first: Event)
    requires
        match first {
            Event::Message { at, .. } => elapsed(connected_at, at) >= duration,
            Event::TimedOut { at } => elapsed(connected_at, at) >= duration,
            _ => false,
        },
    ensures
        ({
            let connected = SessionState::initial(duration).after(
                Event::Connected { at: connected_at },
            );
            let end = connected.after(first).after(Event::Closed);
            &&& connected.after(first).phase == Phase::Draining
            &&& connected.after(first).pending() == Action::Close
            &&& end.phase == Phase::Done
            &&& end.samples.len() == 0
            &&& end.decode_failures == 0
            &&& end.error is None
            &&& end.persists()
        }),
{
}

/// A session that is over stays as it is, whatever is reported to it.
pub proof fn lemma_done_is_final(state: SessionState, events: Seq<Event>)
    requires
        state.phase == Phase::Done,
    ensures
        state.after_all(events) == state,
    decreases events.len(),
{
    if events.len() > 0 {
        lemma_done_is_final(state, events.drop_last());
        assert(state.after_all(events) == state.after_all(events.drop_last()).after(events.last()));
    }
}

/// A failed connection attempt ends the session on the spot. It never
/// listens, whatever is reported afterwards; it has no observations; it
/// carries the cause of the failure; and nothing is to be persisted.
pub proof fn lemma_failed_connection_ends_session(
    duration: u64,
    cause: ConnectError,
    events: Seq<Event>,
)
    ensures
        ({
            let end = SessionState::initial(duration).after(Event::ConnectFailed { cause }).after_all(
                events,
            );
            &&& end.phase == Phase::Done
            &&& end.samples.len() == 0
            &&& end.error == Some(SessionError::Connect(cause))
            &&& end.pending() == Action::Finish
            &&& !end.persists()
        }),
{
    lemma_done_is_final(
        SessionState::initial(duration).after(Event::ConnectFailed { cause }),
        events,
    );
}

} // verus!
