//! One polling cycle after the other: fetch, filter, forward, sleep.
//!
//! The exporter decides; its caller acts. The caller performs the action it
//! is handed, reports what came of it, and is handed the next action. The
//! watermark moves only when a forward is reported as done.

use crate::loki::ForwardError;
use crate::models::Event;
use crate::netbird::FetchError;
use crate::timestamp::Timestamp;
use crate::watermark::{advanced, lemma_watermark_is_monotonic, not_later, select_new, selected};
use vstd::prelude::*;

verus! {

/// Where in the cycle the exporter stands: what it waits to hear of.
#[derive(Clone, Copy, Debug, PartialEq, Eq, Structural)]
pub enum Phase {
    /// A fetch is under way.
    Fetching,
    /// A forward is under way.
    Forwarding,
    /// The pause between two cycles is under way.
    Sleeping,
}

/// What the caller reports back.
#[derive(Debug)]
pub enum CycleInput {
    /// The fetch ended, with the batch or with an error.
    Fetched(Result<Vec<Event>, FetchError>),
    /// The forward ended, well or with an error.
    Forwarded(Result<(), ForwardError>),
    /// The pause is over.
    Woke,
}

/// How a cycle ended.
#[derive(Clone, Debug, PartialEq, Eq)]
pub enum CycleOutcome {
    /// The batch held nothing new; nothing was forwarded.
    NothingNew,
    /// The new events were forwarded and the watermark moved.
    Delivered,
    /// The fetch failed; the watermark stands.
    FetchFailed(FetchError),
    /// The forward failed; the watermark stands, so the same events are
    /// offered again by the next cycle.
    ForwardFailed(ForwardError),
}

/// What the caller is to do next.
#[derive(Debug)]
pub enum CycleAction {
    /// Fetch the source's event list.
    Fetch,
    /// Forward these events, in this order.
    Forward(Vec<Event>),
    /// Pause for the polling interval; the cycle ended as `outcome` says.
    Sleep(CycleOutcome),
    /// The report did not fit the phase and was ignored: go on with what
    /// was under way.
    Stay,
}

/// The exporter's state as plain values.
pub struct CycleState {
    pub phase: Phase,
    /// The instant of the latest event delivered so far.
    pub watermark: Option<Timestamp>,
    /// While forwarding: the watermark to commit once the forward is done.
    pub pending: Option<Timestamp>,
}

impl CycleState {
    /// A pending watermark exists exactly while forwarding, and lies
    /// strictly after the watermark.
    pub open spec fn wf(self) -> bool {
        match self.phase {
            Phase::Forwarding => self.pending is Some && self.pending != self.watermark
                && not_later(self.watermark, self.pending),
            _ => self.pending is None,
        }
    }
}

/// Whether the report is the one that the phase waits for.
pub open spec fn in_turn(phase: Phase, input: CycleInput) -> bool {
    match (phase, input) {
        (Phase::Fetching, CycleInput::Fetched(_)) => true,
        (Phase::Forwarding, CycleInput::Forwarded(_)) => true,
        (Phase::Sleeping, CycleInput::Woke) => true,
        _ => false,
    }
}

/// The state after a report.
pub open spec fn next_state(s: CycleState, input: CycleInput) -> CycleState {
    match (s.phase, input) {
        (Phase::Fetching, CycleInput::Fetched(Ok(batch))) => if selected(batch@, s.watermark).len()
            > 0 {
            CycleState {
                phase: Phase::Forwarding,
                watermark: s.watermark,
                pending: advanced(batch@, s.watermark),
            }
        } else {
            CycleState { phase: Phase::Sleeping, watermark: s.watermark, pending: None }
        },
        (Phase::Fetching, CycleInput::Fetched(Err(_))) => CycleState {
            phase: Phase::Sleeping,
            watermark: s.watermark,
            pending: None,
        },
        (Phase::Forwarding, CycleInput::Forwarded(Ok(_))) => CycleState {
            phase: Phase::Sleeping,
            watermark: s.pending,
            pending: None,
        },
        (Phase::Forwarding, CycleInput::Forwarded(Err(_))) => CycleState {
            phase: Phase::Sleeping,
            watermark: s.watermark,
            pending: None,
        },
        (Phase::Sleeping, CycleInput::Woke) => CycleState {
            phase: Phase::Fetching,
            watermark: s.watermark,
            pending: None,
        },
        _ => s,
    }
}

/// Whether `action` is what a report calls for.
pub open spec fn is_next_action(s: CycleState, input: CycleInput, action: CycleAction) -> bool {
    match (s.phase, input) {
        (Phase::Fetching, CycleInput::Fetched(Ok(batch))) => if selected(batch@, s.watermark).len()
            > 0 {
            action matches CycleAction::Forward(events) && events@ == selected(
                batch@,
                s.watermark,
            )
        } else {
            action == CycleAction::Sleep(CycleOutcome::NothingNew)
        },
        (Phase::Fetching, CycleInput::Fetched(Err(e))) => action == CycleAction::Sleep(
            CycleOutcome::FetchFailed(e),
        ),
        (Phase::Forwarding, CycleInput::Forwarded(Ok(_))) => action == CycleAction::Sleep(
            CycleOutcome::Delivered,
        ),
        (Phase::Forwarding, CycleInput::Forwarded(Err(e))) => action == CycleAction::Sleep(
            CycleOutcome::ForwardFailed(e),
        ),
        (Phase::Sleeping, CycleInput::Woke) => action == CycleAction::Fetch,
        _ => action == CycleAction::Stay,
    }
}

/// The connector's one piece of state, owned by the driving loop.
pub struct Exporter {
    phase: Phase,
    watermark: Option<Timestamp>,
    pending: Option<Timestamp>,
}

impl View for Exporter {
    type V = CycleState;

    closed spec fn view(&self) -> CycleState {
        CycleState { phase: self.phase, watermark: self.watermark, pending: self.pending }
    }
}

impl Exporter {
    #[verifier::type_invariant]
    closed spec fn valid(self) -> bool {
        self@.wf()
    }

    /// An exporter that has delivered nothing yet and is about to fetch.
    pub fn new() -> (e: Exporter)
        ensures
            e@ == (CycleState { phase: Phase::Fetching, watermark: None, pending: None }),
    {
        Exporter { phase: Phase::Fetching, watermark: None, pending: None }
    }

    /// The phase the exporter is in.
    pub fn phase(&self) -> (p: Phase)
        ensures
            p == self@.phase,
    {
        self.phase
    }

    /// The instant of the latest event delivered so far.
    pub fn watermark(&self) -> (w: Option<Timestamp>)
        ensures
            w == self@.watermark,
    {
        self.watermark
    }

    /// Takes in the caller's report and says what to do next. A fetched
    /// batch is filtered against the watermark; the watermark itself moves
    /// only on the report that the forward is done, never on a failure.
    pub fn advance(self, input: CycleInput) -> (r: (Exporter, CycleAction))
        ensures
            self@.wf(),
            r.0@ == next_state(self@, input),
            is_next_action(self@, input, r.1),
            r.0@.wf(),
            not_later(self@.watermark, r.0@.watermark),
    {
        proof {
            use_type_invariant(&self);
        }
        match input {
            CycleInput::Fetched(Ok(batch)) => match self.phase {
                Phase::Fetching => {
                    proof {
                        lemma_watermark_is_monotonic(batch@, self.watermark);
                    }
                    let (events, next) = select_new(batch, self.watermark);
                    if events.len() > 0 {
                        (
                            Exporter {
                                phase: Phase::Forwarding,
                                watermark: self.watermark,
                                pending: next,
                            },
                            CycleAction::Forward(events),
                        )
                    } else {
                        (
                            Exporter {
                                phase: Phase::Sleeping,
                                watermark: self.watermark,
                                pending: None,
                            },
                            CycleAction::Sleep(CycleOutcome::NothingNew),
                        )
                    }
                },
                _ => (self, CycleAction::Stay),
            },
            CycleInput::Fetched(Err(e)) => match self.phase {
                Phase::Fetching => (
                    Exporter { phase: Phase::Sleeping, watermark: self.watermark, pending: None },
                    CycleAction::Sleep(CycleOutcome::FetchFailed(e)),
                ),
                _ => (self, CycleAction::Stay),
            },
            CycleInput::Forwarded(Ok(done)) => match self.phase {
                Phase::Forwarding => (
                    Exporter { phase: Phase::Sleeping, watermark: self.pending, pending: None },
                    CycleAction::Sleep(CycleOutcome::Delivered),
                ),
                _ => (self, CycleAction::Stay),
            },
            CycleInput::Forwarded(Err(e)) => match self.phase {
                Phase::Forwarding => (
                    Exporter { phase: Phase::Sleeping, watermark: self.watermark, pending: None },
                    CycleAction::Sleep(CycleOutcome::ForwardFailed(e)),
                ),
                _ => (self, CycleAction::Stay),
            },
            CycleInput::Woke => match self.phase {
                Phase::Sleeping => (
                    Exporter { phase: Phase::Fetching, watermark: self.watermark, pending: None },
                    CycleAction::Fetch,
                ),
                _ => (self, CycleAction::Stay),
            },
        }
    }
}

/// Every report leaves a well-formed state well-formed and never moves the
/// watermark back.
pub proof fn lemma_watermark_never_retreats(s: CycleState, input: CycleInput)
    requires
        s.wf(),
    ensures
        next_state(s, input).wf(),
        not_later(s.watermark, next_state(s, input).watermark),
{
    match (s.phase, input) {
        (Phase::Fetching, CycleInput::Fetched(Ok(batch))) => {
            lemma_watermark_is_monotonic(batch@, s.watermark);
        },
        _ => {},
    }
}

/// A report out of turn changes nothing.
pub proof fn lemma_out_of_turn_is_ignored(s: CycleState, input: CycleInput)
    requires
        !in_turn(s.phase, input),
    ensures
        next_state(s, input) == s,
        forall|action: CycleAction|
            is_next_action(s, input, action) <==> action == CycleAction::Stay,
{
}

/// Whether the report says that the forward under way is done.
pub open spec fn is_delivery(s: CycleState, input: CycleInput) -> bool {
    s.phase == Phase::Forwarding && input is Forwarded && input->Forwarded_0 is Ok
}

/// The watermark moves on one report only: that a forward is done. A failed
/// fetch, a failed forward, a batch with nothing new and a report out of turn
/// all leave it where it was.
pub proof fn lemma_watermark_moves_on_delivery_only(s: CycleState, input: CycleInput)
    requires
        s.wf(),
    ensures
        next_state(s, input).watermark != s.watermark <==> is_delivery(s, input),
        is_delivery(s, input) ==> next_state(s, input).watermark == s.pending,
{
}

/// A failed forward costs nothing: after the pause the exporter stands where
/// the cycle began, so the same batch yields the same events in the same
/// order, and delivering them then moves the watermark as the first attempt
/// would have.
pub proof fn lemma_failed_forward_is_retried(
    s: CycleState,
    batch: Vec<Event>,
    failure: ForwardError,
)
    requires
        s.wf(),
        s.phase == Phase::Fetching,
        selected(batch@, s.watermark).len() > 0,
    ensures
        ({
            let forwarding = next_state(s, CycleInput::Fetched(Ok(batch)));
            let failed = next_state(forwarding, CycleInput::Forwarded(Err(failure)));
            let again = next_state(failed, CycleInput::Woke);
            let retried = next_state(again, CycleInput::Fetched(Ok(batch)));
            &&& failed.watermark == s.watermark
            &&& again == s
            &&& retried == forwarding
            &&& next_state(retried, CycleInput::Forwarded(Ok(()))).watermark == advanced(
                batch@,
                s.watermark,
            )
        }),
{
}

} // verus!
