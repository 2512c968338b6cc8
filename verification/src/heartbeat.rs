//! The per-connection liveness-probe protocol: a session that sends
//! nonce-carrying probes over an established stream, matches their echoes,
//! and records round-trip times. The session is a state machine driven by
//! reports from the transport; it decides, the surroundings perform.

use vstd::prelude::*;

verus! {

/// Configuration of one heartbeat session.
#[derive(Clone, Copy, PartialEq, Eq, Structural, Debug)]
pub struct HeartbeatConfig {
    /// Hold the connection open even absent application traffic; the
    /// connection manager must then never reclaim it for inactivity.
    pub keep_alive_enabled: bool,
    /// How long, in milliseconds, a probe may stay unanswered before its
    /// timeout counts as a failure.
    pub timeout_ms: u64,
}

/// Where a session stands in the probe exchange.
#[derive(Clone, Copy, PartialEq, Eq, Structural, Debug)]
pub enum ProbeState {
    /// No probe is outstanding.
    Idle,
    /// A probe with this nonce left at this time and awaits its echo.
    ProbeSent { nonce: u64, sent_at_ms: u64 },
    /// The underlying connection is gone; terminal.
    Closed,
}

/// Why a probe failed.
#[derive(Clone, Copy, PartialEq, Eq, Structural, Debug)]
pub enum ProbeFailReason {
    /// No echo arrived within the configured window.
    Timeout,
    /// An echo arrived whose nonce does not match the outstanding probe.
    NonceMismatch,
}

/// What the transport reports to one session.
#[derive(Clone, Copy, PartialEq, Eq, Structural, Debug)]
pub enum HeartbeatInput {
    /// The probe interval elapsed; `nonce` is fresh material for a new
    /// probe, drawn by the caller from its entropy source.
    Tick { now_ms: u64, nonce: u64 },
    /// An echo with this nonce arrived on the stream.
    Echo { nonce: u64, now_ms: u64 },
    /// The answer window of the outstanding probe is being checked.
    Timeout { now_ms: u64 },
    /// The underlying stream closed or errored.
    StreamClosed,
}

/// What one step of a session asks of its surroundings, or reports.
#[derive(Clone, Copy, PartialEq, Eq, Structural, Debug)]
pub enum HeartbeatOutcome {
    /// Send a probe with this nonce over the stream.
    SendProbe { nonce: u64 },
    /// The outstanding probe was echoed after this many milliseconds.
    Succeeded { round_trip_ms: u64 },
    /// The outstanding probe failed.
    Failed { reason: ProbeFailReason },
    /// The session reached its terminal state.
    SessionClosed,
    /// Nothing to report.
    Quiet,
}

/// The mathematical model of a session.
#[verifier::ext_equal]
pub ghost struct SessionModel {
    pub config: HeartbeatConfig,
    pub state: ProbeState,
    pub round_trip_samples: Seq<u64>,
}

/// Per-connection liveness-probe state. Created with its connection,
/// mutated only by `step`, and destroyed with the connection.
pub struct HeartbeatSession {
    pub config: HeartbeatConfig,
    pub state: ProbeState,
    pub round_trip_samples: Vec<u64>,
}

impl View for HeartbeatSession {
    type V = SessionModel;

    open spec fn view(&self) -> SessionModel {
        SessionModel {
            config: self.config,
            state: self.state,
            round_trip_samples: self.round_trip_samples@,
        }
    }
}

/// The clock the transport reports never runs behind the send time of an
/// outstanding probe.
pub open spec fn input_clock_ok(s: SessionModel, i: HeartbeatInput) -> bool {
    match s.state {
        ProbeState::ProbeSent { nonce: _, sent_at_ms } => match i {
            HeartbeatInput::Echo { nonce: _, now_ms } => now_ms >= sent_at_ms,
            HeartbeatInput::Timeout { now_ms } => now_ms >= sent_at_ms,
            _ => true,
        },
        _ => true,
    }
}

/// One step of the session: from a state and a transport report to the
/// next state and what to do. A closed session absorbs every report; the
/// stream closing ends the session from any state; a tick in `Idle` sends
/// a probe; a matching echo while one is outstanding succeeds with the
/// exact round trip; a mismatched nonce or an elapsed answer window fails
/// the probe and returns to `Idle`, keeping the session and its samples.
pub open spec fn step_model(s: SessionModel, i: HeartbeatInput) -> (SessionModel, HeartbeatOutcome) {
    if s.state is Closed {
        (s, HeartbeatOutcome::Quiet)
    } else {
        match i {
            HeartbeatInput::StreamClosed => (
                SessionModel { state: ProbeState::Closed, ..s },
                HeartbeatOutcome::SessionClosed,
            ),
            HeartbeatInput::Tick { now_ms, nonce } => {
                if s.state is Idle {
                    (
                        SessionModel {
                            state: ProbeState::ProbeSent { nonce, sent_at_ms: now_ms },
                            ..s
                        },
                        HeartbeatOutcome::SendProbe { nonce },
                    )
                } else {
                    (s, HeartbeatOutcome::Quiet)
                }
            },
            HeartbeatInput::Echo { nonce, now_ms } => match s.state {
                ProbeState::ProbeSent { nonce: expected, sent_at_ms } => {
                    if nonce == expected {
                        let rtt = (now_ms - sent_at_ms) as u64;
                        (
                            SessionModel {
                                state: ProbeState::Idle,
                                round_trip_samples: s.round_trip_samples.push(rtt),
                                ..s
                            },
                            HeartbeatOutcome::Succeeded { round_trip_ms: rtt },
                        )
                    } else {
                        (
                            SessionModel { state: ProbeState::Idle, ..s },
                            HeartbeatOutcome::Failed { reason: ProbeFailReason::NonceMismatch },
                        )
                    }
                },
                _ => (s, HeartbeatOutcome::Quiet),
            },
            HeartbeatInput::Timeout { now_ms } => match s.state {
                ProbeState::ProbeSent { nonce: _, sent_at_ms } => {
                    if now_ms - sent_at_ms >= s.config.timeout_ms {
                        (
                            SessionModel { state: ProbeState::Idle, ..s },
                            HeartbeatOutcome::Failed { reason: ProbeFailReason::Timeout },
                        )
                    } else {
                        (s, HeartbeatOutcome::Quiet)
                    }
                },
                _ => (s, HeartbeatOutcome::Quiet),
            },
        }
    }
}

impl HeartbeatSession {
    /// A fresh session for a newly established connection: idle, with no
    /// samples yet.
    pub fn new(config: HeartbeatConfig) -> (r: HeartbeatSession)
        ensures
            r@ == (SessionModel {
                config,
                state: ProbeState::Idle,
                round_trip_samples: Seq::<u64>::empty(),
            }),
    {
        HeartbeatSession { config, state: ProbeState::Idle, round_trip_samples: Vec::new() }
    }

    /// Drives the session by one transport report, exactly as `step_model`
    /// says.
    pub fn step(&mut self, input: HeartbeatInput) -> (o: HeartbeatOutcome)
        requires
            input_clock_ok(old(self)@, input),
        ensures
            (final(self)@, o) == step_model(old(self)@, input),
    {
        match self.state {
            ProbeState::Closed => HeartbeatOutcome::Quiet,
            _ => match input {
                HeartbeatInput::StreamClosed => {
                    self.state = ProbeState::Closed;
                    HeartbeatOutcome::SessionClosed
                },
                HeartbeatInput::Tick { now_ms, nonce } => match self.state {
                    ProbeState::Idle => {
                        self.state = ProbeState::ProbeSent { nonce, sent_at_ms: now_ms };
                        HeartbeatOutcome::SendProbe { nonce }
                    },
                    _ => HeartbeatOutcome::Quiet,
                },
                HeartbeatInput::Echo { nonce, now_ms } => match self.state {
                    ProbeState::ProbeSent { nonce: expected, sent_at_ms } => {
                        if nonce == expected {
                            let rtt = now_ms - sent_at_ms;
                            self.round_trip_samples.push(rtt);
                            self.state = ProbeState::Idle;
                            HeartbeatOutcome::Succeeded { round_trip_ms: rtt }
                        } else {
                            self.state = ProbeState::Idle;
                            HeartbeatOutcome::Failed { reason: ProbeFailReason::NonceMismatch }
                        }
                    },
                    _ => HeartbeatOutcome::Quiet,
                },
                HeartbeatInput::Timeout { now_ms } => match self.state {
                    ProbeState::ProbeSent { nonce: _, sent_at_ms } => {
                        if now_ms - sent_at_ms >= self.config.timeout_ms {
                            self.state = ProbeState::Idle;
                            HeartbeatOutcome::Failed { reason: ProbeFailReason::Timeout }
                        } else {
                            HeartbeatOutcome::Quiet
                        }
                    },
                    _ => HeartbeatOutcome::Quiet,
                },
            },
        }
    }
}

/// The heartbeat behaviour never closes a connection of its own accord:
/// with keep-alive enabled and the session running, no transport report
/// other than the stream itself closing can take the session to its
/// terminal state, however long the connection stays without traffic.
pub proof fn lemma_keep_alive_never_closes(s: SessionModel, i: HeartbeatInput)
    requires
        s.config.keep_alive_enabled,
        !(s.state is Closed),
        !(i is StreamClosed),
    ensures
        !(step_model(s, i).0.state is Closed),
        !(step_model(s, i).1 is SessionClosed),
{
}

/// Every reported round trip is the exact, non-negative span between the
/// send time of the outstanding probe and the arrival of its echo, and it
/// is appended to the session's samples.
pub proof fn lemma_round_trip_exact(s: SessionModel, i: HeartbeatInput)
    requires
        input_clock_ok(s, i),
        step_model(s, i).1 is Succeeded,
    ensures
        s.state matches ProbeState::ProbeSent { nonce, sent_at_ms } && i matches HeartbeatInput::Echo {
            nonce: echoed,
            now_ms,
        } && {
            &&& echoed == nonce
            &&& now_ms >= sent_at_ms
            &&& step_model(s, i).1 == (HeartbeatOutcome::Succeeded {
                round_trip_ms: (now_ms - sent_at_ms) as u64,
            })
            &&& step_model(s, i).0.round_trip_samples == s.round_trip_samples.push(
                (now_ms - sent_at_ms) as u64,
            )
        },
{
}

} // verus!
