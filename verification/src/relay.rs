//! The relay: what to do on each event, and what on each answer of the
//! capture source and of the output channel.
//!
//! The relay does no input or output of its own.  Its caller receives the
//! events, grabs the frames and publishes them; the relay says what is to be
//! done next and keeps account of the capture source's lifecycle.

use vstd::prelude::*;
use vstd::string::*;
use crate::config::Config;
use crate::metadata::{enriched, MetadataBag, Value};
use crate::text::same_text;

verus! {

/// The operation at which the relay failed.
#[derive(Clone, Copy, Debug, PartialEq, Eq, Structural)]
pub enum Failure {
    /// The capture source could not be made or started.
    CaptureStart,
    /// The capture source reported a failure when asked for a frame.
    Grab,
    /// The output channel did not take a frame.
    Publish,
}

impl Failure {
    /// What was being done when the failure came.
    pub open spec fn context(self) -> Seq<char> {
        match self {
            Failure::CaptureStart => "failed to start the capture source"@,
            Failure::Grab => "failed to grab a frame"@,
            Failure::Publish => "failed to publish a frame"@,
        }
    }

    /// The report of a failure: what was being done, and the cause as the
    /// failing side gave it.
    pub fn report(self, cause: &str) -> (text: String)
        ensures
            text@ == self.context() + ": "@ + cause@,
    {
        let mut text = match self {
            Failure::CaptureStart => String::from_str("failed to start the capture source"),
            Failure::Grab => String::from_str("failed to grab a frame"),
            Failure::Publish => String::from_str("failed to publish a frame"),
        };
        text.append(": ");
        text.append(cause);
        text
    }
}

/// Where the relay stands in its life.
#[derive(Clone, Copy, Debug, PartialEq, Eq, Structural)]
pub enum Phase {
    /// The capture source has not been started yet.
    Uninitialized,
    /// Ticks are served.
    Running,
    /// The relay was stopped and the capture source released.
    Stopped,
    /// An operation failed; nothing is served any more.
    Failed(Failure),
}

/// The state of the relay: its phase, and whether it holds a capture source
/// that was started and has not been released yet.
#[derive(Clone, Copy, Debug, PartialEq, Eq, Structural)]
pub struct RelayState {
    pub phase: Phase,
    pub holding: bool,
}

/// An inbound event, as far as the relay tells events apart.
pub enum EventKind {
    /// An input with the id `tick`.
    Tick,
    /// An input with any other id.
    UnknownInput,
    Stop,
    /// Any other kind of event.
    Other,
}

/// What a grab came back with.
pub enum GrabKind {
    Frame,
    /// No frame is ready; this is not a failure.
    Empty,
    Error,
}

/// What can happen to the relay.
pub enum Stimulus {
    /// The attempt to start the capture source has ended, well or not.
    Started(bool),
    /// An event has come in.
    Event(EventKind),
    /// The grab that the relay asked for has ended.
    Grabbed(GrabKind),
    /// The attempt to publish a frame has ended, well or not.
    Published(bool),
    /// The caller is about to leave, for whatever reason.
    Finished,
}

/// What the relay asks of its caller in answer to a stimulus.
#[derive(PartialEq, Eq, Structural)]
pub enum Response {
    Nothing,
    /// Grab one frame from the capture source.
    Grab,
    /// Log a warning and go on.
    Warn,
    /// Release the capture source.
    Release,
    /// Publish a frame.
    Publish,
    /// Give up: the failure is fatal.
    Abort,
}

impl RelayState {
    /// The state before the capture source is started.
    pub open spec fn initial() -> RelayState {
        RelayState { phase: Phase::Uninitialized, holding: false }
    }

    /// The states that a relay can be in: it holds the capture source
    /// while it is running, and may still hold it after a failure of a grab
    /// or of a publish, but at no other time.
    pub open spec fn valid(self) -> bool {
        match self.phase {
            Phase::Uninitialized => !self.holding,
            Phase::Running => self.holding,
            Phase::Stopped => !self.holding,
            Phase::Failed(Failure::CaptureStart) => !self.holding,
            Phase::Failed(_) => true,
        }
    }
}

/// The relay's transition: the state after a stimulus, and what the relay
/// asks of its caller.
///
/// Only a running relay serves events and answers.  A tick makes it ask for
/// a grab; a frame, for a publish; no frame, for nothing.  A stop makes it
/// ask for the release of the capture source and ends the run.  Inputs with
/// another id and events of another kind earn a warning and change nothing.
/// A failed start, grab or publish is fatal.  On leaving, the capture source
/// is released if the relay still holds it.
pub open spec fn step(state: RelayState, stimulus: Stimulus) -> (RelayState, Response) {
    match stimulus {
        Stimulus::Started(ok) => if state.phase != Phase::Uninitialized {
            (state, Response::Nothing)
        } else if ok {
            (RelayState { phase: Phase::Running, holding: true }, Response::Nothing)
        } else {
            (
                RelayState { phase: Phase::Failed(Failure::CaptureStart), holding: false },
                Response::Abort,
            )
        },
        Stimulus::Event(kind) => if state.phase != Phase::Running {
            (state, Response::Nothing)
        } else {
            match kind {
                EventKind::Tick => (state, Response::Grab),
                EventKind::UnknownInput => (state, Response::Warn),
                EventKind::Stop => (
                    RelayState { phase: Phase::Stopped, holding: false },
                    Response::Release,
                ),
                EventKind::Other => (state, Response::Warn),
            }
        },
        Stimulus::Grabbed(kind) => if state.phase != Phase::Running {
            (state, Response::Nothing)
        } else {
            match kind {
                GrabKind::Frame => (state, Response::Publish),
                GrabKind::Empty => (state, Response::Nothing),
                GrabKind::Error => (
                    RelayState { phase: Phase::Failed(Failure::Grab), holding: state.holding },
                    Response::Abort,
                ),
            }
        },
        Stimulus::Published(ok) => if state.phase != Phase::Running || ok {
            (state, Response::Nothing)
        } else {
            (
                RelayState { phase: Phase::Failed(Failure::Publish), holding: state.holding },
                Response::Abort,
            )
        },
        Stimulus::Finished => if !state.holding {
            (state, Response::Nothing)
        } else if state.phase == Phase::Running {
            (RelayState { phase: Phase::Stopped, holding: false }, Response::Release)
        } else {
            (RelayState { phase: state.phase, holding: false }, Response::Release)
        },
    }
}

/// The state after a run of stimuli, taken in order.
pub open spec fn run(state: RelayState, trace: Seq<Stimulus>) -> RelayState
    decreases trace.len(),
{
    if trace.len() == 0 {
        state
    } else {
        run(step(state, trace[0]).0, trace.drop_first())
    }
}

/// How often the relay gives the response `which` over a run of stimuli.
pub open spec fn occurrences(state: RelayState, trace: Seq<Stimulus>, which: Response) -> nat
    decreases trace.len(),
{
    if trace.len() == 0 {
        0
    } else {
        let (next, response) = step(state, trace[0]);
        let here: nat = if response == which {
            1
        } else {
            0
        };
        here + occurrences(next, trace.drop_first(), which)
    }
}

/// The relay is never in a state that is not valid: every run leads from a
/// valid state to a valid state.
pub proof fn law_states_stay_valid(state: RelayState, trace: Seq<Stimulus>)
    requires
        state.valid(),
    ensures
        run(state, trace).valid(),
    decreases trace.len(),
{
    if trace.len() > 0 {
        law_states_stay_valid(step(state, trace[0]).0, trace.drop_first());
    }
}

/// The capture source is used only between its start and its release: a
/// grab, a publish and a release are asked for only of a relay that holds
/// the source, and a grab and a publish only while it runs.
pub proof fn law_source_used_only_while_held(state: RelayState, stimulus: Stimulus)
    requires
        state.valid(),
    ensures
        ({
            let response = step(state, stimulus).1;
            &&& response == Response::Grab || response == Response::Publish ==> state.phase
                == Phase::Running
            &&& response == Response::Grab || response == Response::Publish || response
                == Response::Release ==> state.holding
        }),
{
}

/// A failure is final: a relay that has failed stays failed, for the same
/// reason, and asks for nothing but the release of a capture source that it
/// still holds.
pub proof fn law_failure_is_final(state: RelayState, trace: Seq<Stimulus>, which: Response)
    requires
        state.phase is Failed,
    ensures
        run(state, trace).phase == state.phase,
        which != Response::Nothing && which != Response::Release ==> occurrences(
            state,
            trace,
            which,
        ) == 0,
    decreases trace.len(),
{
    if trace.len() > 0 {
        law_failure_is_final(step(state, trace[0]).0, trace.drop_first(), which);
    }
}

/// A run in two parts is the run of the first part and then, from where it
/// ended, the run of the second.
pub proof fn lemma_run_in_parts(
    state: RelayState,
    first: Seq<Stimulus>,
    second: Seq<Stimulus>,
    which: Response,
)
    ensures
        run(state, first + second) == run(run(state, first), second),
        occurrences(state, first + second, which) == occurrences(state, first, which)
            + occurrences(run(state, first), second, which),
    decreases first.len(),
{
    if first.len() == 0 {
        assert(first + second =~= second);
    } else {
        assert((first + second).drop_first() =~= first.drop_first() + second);
        lemma_run_in_parts(step(state, first[0]).0, first.drop_first(), second, which);
    }
}

/// A relay that has let go of its capture source, or failed to start it,
/// stays as it is and asks for nothing ever after.
pub proof fn law_quiet_once_released(state: RelayState, trace: Seq<Stimulus>, which: Response)
    requires
        state.valid(),
        !state.holding,
        state.phase != Phase::Uninitialized,
    ensures
        run(state, trace) == state,
        which != Response::Nothing ==> occurrences(state, trace, which) == 0,
    decreases trace.len(),
{
    if trace.len() > 0 {
        law_quiet_once_released(state, trace.drop_first(), which);
    }
}

/// While the relay is running, it has never asked for a release.
proof fn lemma_running_has_not_released(state: RelayState, trace: Seq<Stimulus>)
    requires
        state.valid(),
        run(state, trace).phase == Phase::Running,
    ensures
        occurrences(state, trace, Response::Release) == 0,
    decreases trace.len(),
{
    if trace.len() > 0 {
        let (next, response) = step(state, trace[0]);
        if response == Response::Release {
            law_quiet_once_released(next, trace.drop_first(), Response::Release);
        } else {
            lemma_running_has_not_released(next, trace.drop_first());
        }
    }
}

/// A tick that finds no frame ready is a no-op: the relay asks for a grab,
/// the empty answer changes nothing, and nothing is published or given up.
pub proof fn law_tick_without_frame_is_no_op(state: RelayState)
    ensures
        step(state, Stimulus::Grabbed(GrabKind::Empty)) == (state, Response::Nothing),
        state.phase == Phase::Running ==> step(state, Stimulus::Event(EventKind::Tick)) == (
            state,
            Response::Grab,
        ),
        run(state, seq![Stimulus::Event(EventKind::Tick), Stimulus::Grabbed(GrabKind::Empty)])
            == state,
{
    let trace = seq![Stimulus::Event(EventKind::Tick), Stimulus::Grabbed(GrabKind::Empty)];
    assert(trace.drop_first() =~= seq![Stimulus::Grabbed(GrabKind::Empty)]);
    assert(trace.drop_first().drop_first() =~= Seq::<Stimulus>::empty());
    reveal_with_fuel(run, 3);
}

/// An input with an unknown id is not fatal: it earns a warning, leaves the
/// state as it is, and the next tick is served as any other.
pub proof fn law_unknown_input_is_harmless(state: RelayState)
    ensures
        step(state, Stimulus::Event(EventKind::UnknownInput)).0 == state,
        step(state, Stimulus::Event(EventKind::Other)).0 == state,
        state.phase == Phase::Running ==> {
            &&& step(state, Stimulus::Event(EventKind::UnknownInput)).1 == Response::Warn
            &&& step(
                step(state, Stimulus::Event(EventKind::UnknownInput)).0,
                Stimulus::Event(EventKind::Tick),
            ) == (state, Response::Grab)
        },
{
}

/// A stop releases the capture source exactly once.  Whatever came before
/// the stop that found the relay running, and whatever comes after it, the
/// release is asked for once in all; and after the stop no grab and no
/// publish is asked for, not even on further ticks.
pub proof fn law_stop_releases_exactly_once(
    start: RelayState,
    before: Seq<Stimulus>,
    after: Seq<Stimulus>,
)
    requires
        start.valid(),
        run(start, before).phase == Phase::Running,
    ensures
        ({
            let stop = seq![Stimulus::Event(EventKind::Stop)];
            let stopped = run(start, before + stop);
            &&& stopped == RelayState { phase: Phase::Stopped, holding: false }
            &&& run(start, before + stop + after) == stopped
            &&& occurrences(start, before + stop + after, Response::Release) == 1
            &&& occurrences(stopped, after, Response::Grab) == 0
            &&& occurrences(stopped, after, Response::Publish) == 0
        }),
{
    let stop = seq![Stimulus::Event(EventKind::Stop)];
    let running = run(start, before);
    let stopped = RelayState { phase: Phase::Stopped, holding: false };
    assert(stop.drop_first() =~= Seq::<Stimulus>::empty());
    assert(run(running, stop) == stopped && occurrences(running, stop, Response::Release) == 1) by {
        reveal_with_fuel(run, 2);
        reveal_with_fuel(occurrences, 2);
    }
    lemma_running_has_not_released(start, before);
    lemma_run_in_parts(start, before, stop, Response::Release);
    lemma_run_in_parts(start, before + stop, after, Response::Release);
    law_quiet_once_released(stopped, after, Response::Release);
    law_quiet_once_released(stopped, after, Response::Grab);
    law_quiet_once_released(stopped, after, Response::Publish);
}

/// Over the whole life of a relay the capture source is released at most
/// once.
pub proof fn law_release_at_most_once(trace: Seq<Stimulus>)
    ensures
        occurrences(RelayState::initial(), trace, Response::Release) <= 1,
{
    lemma_release_at_most_once_from(RelayState::initial(), trace);
}

proof fn lemma_release_at_most_once_from(state: RelayState, trace: Seq<Stimulus>)
    requires
        state.valid(),
    ensures
        occurrences(state, trace, Response::Release) <= 1,
    decreases trace.len(),
{
    if trace.len() > 0 {
        let (next, response) = step(state, trace[0]);
        if response == Response::Release {
            law_quiet_once_released(next, trace.drop_first(), Response::Release);
        } else {
            lemma_release_at_most_once_from(next, trace.drop_first());
        }
    }
}

/// An inbound event.
#[derive(Debug, PartialEq, Eq)]
pub enum Event {
    /// An input; `tick` is the one id that the relay serves.
    Input { id: String, metadata: MetadataBag },
    /// The request to stop.
    Stop,
    /// Any other event, with a description of it for the log.
    Other { description: String },
}

/// One frame as the capture source hands it out.
#[derive(Debug, PartialEq, Eq)]
pub struct Frame {
    pub width: usize,
    pub height: usize,
    /// The pixels, row by row.
    pub data: Vec<u8>,
}

/// What a grab came back with.
#[derive(Debug, PartialEq, Eq)]
pub enum GrabOutcome {
    Frame(Frame),
    /// No frame is ready yet.
    Empty,
    /// The capture source failed.
    Failed,
}

/// What the relay asks of its caller on an event.
#[derive(Debug, PartialEq, Eq)]
pub enum Directive {
    Nothing,
    /// Grab a frame and hand the outcome, with this metadata, to
    /// [`Relay::on_grab`].
    Grab { metadata: MetadataBag },
    /// Log the message as a warning.
    Warn { message: String },
    /// Release the capture source and leave the loop.
    Release,
}

/// A frame on its way out.
#[derive(Debug, PartialEq, Eq)]
pub struct Outgoing {
    /// The id of the output, always `frame`.
    pub output: String,
    pub metadata: MetadataBag,
    /// The declared length of the data in bytes.
    pub len: usize,
    pub data: Vec<u8>,
}

/// What the relay asks of its caller on the outcome of a grab.
#[derive(Debug, PartialEq, Eq)]
pub enum Delivery {
    Nothing,
    /// Publish this and hand the outcome to [`Relay::on_publish`].
    Publish(Outgoing),
    /// Give up: the grab failed.
    Abort,
}

/// The warning for an input with an id that the relay does not serve.
pub open spec fn unknown_input_warning(id: Seq<char>) -> Seq<char> {
    "Ignoring unexpected input `"@ + id + "`"@
}

/// The warning for an event of a kind that the relay does not serve.
pub open spec fn unexpected_event_warning(description: Seq<char>) -> Seq<char> {
    "Received unexpected input: "@ + description
}

impl Event {
    pub open spec fn kind(&self) -> EventKind {
        match self {
            Event::Input { id, .. } => if id@ == "tick"@ {
                EventKind::Tick
            } else {
                EventKind::UnknownInput
            },
            Event::Stop => EventKind::Stop,
            Event::Other { .. } => EventKind::Other,
        }
    }

    /// The warning that the event earns where it earns one.
    pub open spec fn warning(&self) -> Seq<char> {
        match self {
            Event::Input { id, .. } => unknown_input_warning(id@),
            Event::Stop => Seq::empty(),
            Event::Other { description } => unexpected_event_warning(description@),
        }
    }
}

impl GrabOutcome {
    pub open spec fn kind(&self) -> GrabKind {
        match self {
            GrabOutcome::Frame(_) => GrabKind::Frame,
            GrabOutcome::Empty => GrabKind::Empty,
            GrabOutcome::Failed => GrabKind::Error,
        }
    }
}

impl Directive {
    pub open spec fn response(&self) -> Response {
        match self {
            Directive::Nothing => Response::Nothing,
            Directive::Grab { .. } => Response::Grab,
            Directive::Warn { .. } => Response::Warn,
            Directive::Release => Response::Release,
        }
    }
}

impl Delivery {
    pub open spec fn response(&self) -> Response {
        match self {
            Delivery::Nothing => Response::Nothing,
            Delivery::Publish(_) => Response::Publish,
            Delivery::Abort => Response::Abort,
        }
    }
}

/// The frame with its metadata, addressed to the output `frame`: the bag
/// enriched by the encoding and the frame's own size, the frame's bytes,
/// and their number as the declared length.
pub open spec fn is_outgoing(
    out: Outgoing,
    metadata: Map<Seq<char>, Value>,
    encoding: Seq<char>,
    frame: Frame,
) -> bool {
    &&& out.output@ == "frame"@
    &&& out.metadata@ == enriched(metadata, encoding, frame.height as i64, frame.width as i64)
    &&& out.len == frame.data@.len()
    &&& out.data@ == frame.data@
}

/// The exit code of the process: zero unless the relay failed.
pub open spec fn exit_code_of(state: RelayState) -> i32 {
    match state.phase {
        Phase::Failed(_) => 1,
        _ => 0,
    }
}

/// The relay.
#[derive(Debug)]
pub struct Relay {
    state: RelayState,
    encoding: String,
    output: String,
}

impl Relay {
    #[verifier::type_invariant]
    spec fn sound(&self) -> bool {
        self.state.valid() && self.output@ == "frame"@
    }

    /// The state of the relay.
    pub closed spec fn state(&self) -> RelayState {
        self.state
    }

    /// The tag of the pixel format that goes out with every frame.
    pub closed spec fn encoding(&self) -> Seq<char> {
        self.encoding@
    }

    /// A relay for the configuration, before the capture source is started.
    pub fn new(config: &Config) -> (relay: Relay)
        ensures
            relay.state() == RelayState::initial(),
            relay.encoding() == config.format@,
    {
        Relay {
            state: RelayState { phase: Phase::Uninitialized, holding: false },
            encoding: config.format.clone(),
            output: String::from_str("frame"),
        }
    }

    /// The state of the relay.
    pub fn current(&self) -> (state: RelayState)
        ensures
            state == self.state(),
            state.valid(),
    {
        proof {
            use_type_invariant(self);
        }
        self.state
    }

    /// Whether ticks are served.
    pub fn is_running(&self) -> (running: bool)
        ensures
            running == (self.state().phase == Phase::Running),
    {
        match self.state.phase {
            Phase::Running => true,
            _ => false,
        }
    }

    /// Takes note of how the start of the capture source went.
    pub fn started(&mut self, ok: bool)
        ensures
            final(self).state() == step(old(self).state(), Stimulus::Started(ok)).0,
            final(self).encoding() == old(self).encoding(),
    {
        proof {
            use_type_invariant(&*self);
        }
        match self.state.phase {
            Phase::Uninitialized => {
                if ok {
                    self.state = RelayState { phase: Phase::Running, holding: true };
                } else {
                    let phase = Phase::Failed(Failure::CaptureStart);
                    self.state = RelayState { phase, holding: false };
                }
            },
            _ => {},
        }
    }

    /// Decides what is to be done on an event.
    ///
    /// While the relay runs: a tick asks for a grab and hands the event's
    /// metadata back for it; a stop asks for the release of the capture
    /// source and ends the run; an input with another id, or an event of
    /// another kind, asks for a warning.  At any other time nothing is
    /// asked for.
    pub fn on_event(&mut self, event: Event) -> (directive: Directive)
        ensures
            (final(self).state(), directive.response()) == step(
                old(self).state(),
                Stimulus::Event(event.kind()),
            ),
            final(self).encoding() == old(self).encoding(),
            match directive {
                Directive::Grab { metadata } => event matches Event::Input { metadata: given, .. }
                    && metadata == given,
                Directive::Warn { message } => message@ == event.warning(),
                _ => true,
            },
    {
        proof {
            use_type_invariant(&*self);
        }
        if !self.is_running() {
            return Directive::Nothing;
        }
        match event {
            Event::Input { id, metadata } => {
                if same_text(id.as_str(), "tick") {
                    Directive::Grab { metadata }
                } else {
                    let mut message = String::from_str("Ignoring unexpected input `");
                    message.append(id.as_str());
                    message.append("`");
                    Directive::Warn { message }
                }
            },
            Event::Stop => {
                self.state = RelayState { phase: Phase::Stopped, holding: false };
                Directive::Release
            },
            Event::Other { description } => {
                let mut message = String::from_str("Received unexpected input: ");
                message.append(description.as_str());
                Directive::Warn { message }
            },
        }
    }

    /// Decides what is to be done with the outcome of a grab.
    ///
    /// While the relay runs: a frame goes out under the output `frame`,
    /// with the metadata of the tick enriched by the encoding and by the
    /// size that the frame itself reports; no frame means that nothing is
    /// done; a failure is fatal.  At any other time nothing is asked for.
    pub fn on_grab(&mut self, metadata: MetadataBag, outcome: GrabOutcome) -> (delivery: Delivery)
        ensures
            (final(self).state(), delivery.response()) == step(
                old(self).state(),
                Stimulus::Grabbed(outcome.kind()),
            ),
            final(self).encoding() == old(self).encoding(),
            match delivery {
                Delivery::Publish(out) => outcome matches GrabOutcome::Frame(frame) && is_outgoing(
                    out,
                    metadata@,
                    old(self).encoding(),
                    frame,
                ),
                _ => true,
            },
    {
        proof {
            use_type_invariant(&*self);
        }
        if !self.is_running() {
            return Delivery::Nothing;
        }
        match outcome {
            GrabOutcome::Frame(frame) => {
                let mut metadata = metadata;
                metadata.enrich(
                    self.encoding.as_str(),
                    #[verifier::truncate]
                    (frame.height as i64),
                    #[verifier::truncate]
                    (frame.width as i64),
                );
                Delivery::Publish(
                    Outgoing {
                        output: self.output.clone(),
                        metadata,
                        len: frame.data.len(),
                        data: frame.data,
                    },
                )
            },
            GrabOutcome::Empty => Delivery::Nothing,
            GrabOutcome::Failed => {
                let phase = Phase::Failed(Failure::Grab);
                self.state = RelayState { phase, holding: self.state.holding };
                Delivery::Abort
            },
        }
    }

    /// Takes note of how the publishing of a frame went.  A frame that the
    /// output channel did not take is fatal.
    pub fn on_publish(&mut self, delivered: bool)
        ensures
            final(self).state() == step(old(self).state(), Stimulus::Published(delivered)).0,
            final(self).encoding() == old(self).encoding(),
    {
        proof {
            use_type_invariant(&*self);
        }
        if self.is_running() && !delivered {
            let phase = Phase::Failed(Failure::Publish);
            self.state = RelayState { phase, holding: self.state.holding };
        }
    }

    /// Settles the account of the capture source before the caller leaves.
    /// Returns whether the caller has to release it now: that is the case
    /// when the relay still holds it, after a failure or when the events
    /// ran out without a stop.
    pub fn finish(&mut self) -> (release: bool)
        ensures
            final(self).state() == step(old(self).state(), Stimulus::Finished).0,
            release == (step(old(self).state(), Stimulus::Finished).1 == Response::Release),
            release == old(self).state().holding,
            !final(self).state().holding,
            final(self).encoding() == old(self).encoding(),
    {
        proof {
            use_type_invariant(&*self);
        }
        if !self.state.holding {
            return false;
        }
        match self.state.phase {
            Phase::Running => {
                self.state = RelayState { phase: Phase::Stopped, holding: false };
            },
            phase => {
                self.state = RelayState { phase, holding: false };
            },
        }
        true
    }

    /// The exit code for the process: zero after a clean run, one after a
    /// failure.
    pub fn exit_code(&self) -> (code: i32)
        ensures
            code == exit_code_of(self.state()),
    {
        match self.state.phase {
            Phase::Failed(_) => 1,
            _ => 0,
        }
    }
}

} // verus!
