//! The connection manager: it owns the dial attempt and the set of live
//! connections with their heartbeat sessions, consumes transport-level
//! reports one at a time, and serializes everything observable into one
//! ordered stream of events. The transport performs; the manager decides.

use vstd::prelude::*;
use crate::address::AddrSegment;
use crate::address::NetworkAddress;
use crate::heartbeat::HeartbeatConfig;
use crate::heartbeat::HeartbeatInput;
use crate::heartbeat::HeartbeatOutcome;
use crate::heartbeat::HeartbeatSession;
use crate::heartbeat::ProbeFailReason;
use crate::heartbeat::ProbeState;
use crate::heartbeat::SessionModel;
use crate::heartbeat::input_clock_ok;
use crate::heartbeat::step_model;

verus! {

/// Who opened a connection.
#[derive(Clone, Copy, PartialEq, Eq, Structural, Debug)]
pub enum Direction {
    Inbound,
    Outbound,
}

/// Why a connection went away.
#[derive(Clone, Copy, PartialEq, Eq, Structural, Debug)]
pub enum CloseReason {
    /// The remote side closed the stream.
    RemoteClosed,
    /// The transport reported a stream error.
    StreamError,
}

/// Why an outbound dial failed.
#[derive(Clone, Copy, PartialEq, Eq, Structural, Debug)]
pub enum DialFailReason {
    ConnectionRefused,
    TimedOut,
    HandshakeFailed,
}

/// One observable event, produced by the manager and consumed at once by
/// the logging collaborator.
#[derive(PartialEq, Eq, Debug)]
#[allow(inconsistent_fields)]
pub enum Event {
    /// The listener is bound and reachable at this concrete address.
    ListenAddrReady { addr: NetworkAddress },
    /// A handshake completed and a connection to this peer now lives.
    ConnectionEstablished { peer_id: Vec<u8>, direction: Direction },
    /// A connection to this peer ended.
    ConnectionClosed { peer_id: Vec<u8>, reason: CloseReason },
    /// A liveness probe to this peer was echoed within this round trip.
    ProbeSucceeded { peer_id: Vec<u8>, round_trip_ms: u64 },
    /// A liveness probe to this peer failed.
    ProbeFailed { peer_id: Vec<u8>, reason: ProbeFailReason },
    /// The one outbound dial could not establish a connection.
    DialFailed { addr: NetworkAddress, reason: DialFailReason },
}

/// The mathematical model of an event.
#[verifier::ext_equal]
#[allow(inconsistent_fields)]
pub ghost enum EventModel {
    ListenAddrReady { addr: Seq<AddrSegment> },
    ConnectionEstablished { peer_id: Seq<u8>, direction: Direction },
    ConnectionClosed { peer_id: Seq<u8>, reason: CloseReason },
    ProbeSucceeded { peer_id: Seq<u8>, round_trip_ms: u64 },
    ProbeFailed { peer_id: Seq<u8>, reason: ProbeFailReason },
    DialFailed { addr: Seq<AddrSegment>, reason: DialFailReason },
}

impl View for Event {
    type V = EventModel;

    open spec fn view(&self) -> EventModel {
        match self {
            Event::ListenAddrReady { addr } => EventModel::ListenAddrReady { addr: addr@ },
            Event::ConnectionEstablished { peer_id, direction } => EventModel::ConnectionEstablished {
                peer_id: peer_id@,
                direction: *direction,
            },
            Event::ConnectionClosed { peer_id, reason } => EventModel::ConnectionClosed {
                peer_id: peer_id@,
                reason: *reason,
            },
            Event::ProbeSucceeded { peer_id, round_trip_ms } => EventModel::ProbeSucceeded {
                peer_id: peer_id@,
                round_trip_ms: *round_trip_ms,
            },
            Event::ProbeFailed { peer_id, reason } => EventModel::ProbeFailed {
                peer_id: peer_id@,
                reason: *reason,
            },
            Event::DialFailed { addr, reason } => EventModel::DialFailed {
                addr: addr@,
                reason: *reason,
            },
        }
    }
}

/// The views of a sequence of emitted events.
pub open spec fn event_views(evs: Seq<Event>) -> Seq<EventModel> {
    evs.map_values(|e: Event| e@)
}

/// What the transport reports to the manager.
#[allow(inconsistent_fields)]
pub enum TransportInput {
    /// The listener is bound at this concrete address.
    ListenerReady { addr: NetworkAddress },
    /// An inbound handshake completed with this peer.
    InboundEstablished { peer_id: Vec<u8> },
    /// The one outbound dial completed its handshake with this peer.
    DialSucceeded { peer_id: Vec<u8> },
    /// The one outbound dial failed.
    DialFailed { reason: DialFailReason },
    /// The stream of this connection closed or errored.
    StreamClosed { conn_id: u64, reason: CloseReason },
    /// A heartbeat report for this connection: a tick, an echo, or a
    /// timeout check.
    Probe { conn_id: u64, input: HeartbeatInput },
}

/// The mathematical model of a transport report.
#[verifier::ext_equal]
#[allow(inconsistent_fields)]
pub ghost enum InputModel {
    ListenerReady { addr: Seq<AddrSegment> },
    InboundEstablished { peer_id: Seq<u8> },
    DialSucceeded { peer_id: Seq<u8> },
    DialFailed { reason: DialFailReason },
    StreamClosed { conn_id: nat, reason: CloseReason },
    Probe { conn_id: nat, input: HeartbeatInput },
}

impl View for TransportInput {
    type V = InputModel;

    open spec fn view(&self) -> InputModel {
        match self {
            TransportInput::ListenerReady { addr } => InputModel::ListenerReady { addr: addr@ },
            TransportInput::InboundEstablished { peer_id } => InputModel::InboundEstablished {
                peer_id: peer_id@,
            },
            TransportInput::DialSucceeded { peer_id } => InputModel::DialSucceeded {
                peer_id: peer_id@,
            },
            TransportInput::DialFailed { reason } => InputModel::DialFailed { reason: *reason },
            TransportInput::StreamClosed { conn_id, reason } => InputModel::StreamClosed {
                conn_id: *conn_id as nat,
                reason: *reason,
            },
            TransportInput::Probe { conn_id, input } => InputModel::Probe {
                conn_id: *conn_id as nat,
                input: *input,
            },
        }
    }
}

/// A request the manager hands back to the transport: send this probe on
/// this connection.
#[derive(Clone, Copy, PartialEq, Eq, Structural, Debug)]
pub struct ProbeRequest {
    pub conn_id: u64,
    pub nonce: u64,
}

/// Where the one optional outbound dial stands.
#[derive(Clone, Copy, PartialEq, Eq, Structural, Debug)]
pub enum DialPhase {
    /// No dial target was given; the node only listens.
    NoDial,
    /// The dial is underway; its one outcome event is still owed.
    DialPending,
    /// The dial concluded, one way or the other.
    DialConcluded,
}

/// One live connection with its heartbeat session.
pub struct Connection {
    pub conn_id: u64,
    pub peer_id: Vec<u8>,
    pub direction: Direction,
    pub session: HeartbeatSession,
}

/// The mathematical model of a connection.
#[verifier::ext_equal]
pub ghost struct ConnectionModel {
    pub conn_id: nat,
    pub peer_id: Seq<u8>,
    pub direction: Direction,
    pub session: SessionModel,
}

impl View for Connection {
    type V = ConnectionModel;

    open spec fn view(&self) -> ConnectionModel {
        ConnectionModel {
            conn_id: self.conn_id as nat,
            peer_id: self.peer_id@,
            direction: self.direction,
            session: self.session@,
        }
    }
}

/// The connection manager.
pub struct ConnectionManager {
    pub config: HeartbeatConfig,
    pub dial_phase: DialPhase,
    pub dial_target: Option<NetworkAddress>,
    pub next_conn_id: u64,
    pub connections: Vec<Connection>,
}

/// The mathematical model of the manager.
#[verifier::ext_equal]
pub ghost struct ManagerModel {
    pub config: HeartbeatConfig,
    pub dial_phase: DialPhase,
    pub dial_target: Option<Seq<AddrSegment>>,
    pub next_conn_id: nat,
    pub connections: Seq<ConnectionModel>,
}

impl View for ConnectionManager {
    type V = ManagerModel;

    open spec fn view(&self) -> ManagerModel {
        ManagerModel {
            config: self.config,
            dial_phase: self.dial_phase,
            dial_target: match self.dial_target {
                Some(a) => Some(a@),
                None => None,
            },
            next_conn_id: self.next_conn_id as nat,
            connections: self.connections@.map_values(|c: Connection| c@),
        }
    }
}

/// The manager's invariant: a pending dial has a target; connection
/// identifiers are unique, below the next fresh one; and every session
/// belongs to a live connection, so none is in its terminal state.
pub open spec fn mgr_wf(m: ManagerModel) -> bool {
    &&& (m.dial_phase is DialPending ==> m.dial_target is Some)
    &&& forall|i: int, j: int|
        0 <= i < j < m.connections.len() ==> #[trigger] m.connections[i].conn_id
            != #[trigger] m.connections[j].conn_id
    &&& forall|i: int|
        0 <= i < m.connections.len() ==> #[trigger] m.connections[i].conn_id < m.next_conn_id
    &&& forall|i: int|
        0 <= i < m.connections.len() ==> !(#[trigger] m.connections[i].session.state is Closed)
}

/// Whether some live connection carries this identifier.
pub open spec fn has_conn(conns: Seq<ConnectionModel>, id: nat) -> bool {
    exists|i: int| 0 <= i < conns.len() && (#[trigger] conns[i].conn_id) == id
}

/// The index of the live connection carrying this identifier.
pub open spec fn conn_index(conns: Seq<ConnectionModel>, id: nat) -> int {
    choose|i: int| 0 <= i < conns.len() && (#[trigger] conns[i].conn_id) == id
}

/// A fresh model connection: the given peer, an idle session, no samples.
pub open spec fn fresh_conn(
    id: nat,
    peer_id: Seq<u8>,
    direction: Direction,
    config: HeartbeatConfig,
) -> ConnectionModel {
    ConnectionModel {
        conn_id: id,
        peer_id,
        direction,
        session: SessionModel {
            config,
            state: ProbeState::Idle,
            round_trip_samples: Seq::<u64>::empty(),
        },
    }
}

/// One step of the manager: from a state and one transport report to the
/// next state, the events emitted for the observer, and at most one probe
/// to send. A listener address is reported as ready; a completed inbound
/// handshake becomes a live connection and one `ConnectionEstablished`; the
/// one pending dial concludes on its first reported outcome with exactly
/// one `ConnectionEstablished` or one `DialFailed`, and later outcome
/// reports for it are dropped; a closing stream removes its connection and
/// reports `ConnectionClosed`; a heartbeat report drives the connection's
/// session and reports what it yielded. Reports for unknown connections
/// are dropped.
pub open spec fn manager_step(m: ManagerModel, i: InputModel) -> (
    ManagerModel,
    Seq<EventModel>,
    Option<ProbeRequest>,
) {
    match i {
        InputModel::ListenerReady { addr } => (
            m,
            seq![EventModel::ListenAddrReady { addr }],
            None,
        ),
        InputModel::InboundEstablished { peer_id } => (
            ManagerModel {
                next_conn_id: m.next_conn_id + 1,
                connections: m.connections.push(
                    fresh_conn(m.next_conn_id, peer_id, Direction::Inbound, m.config),
                ),
                ..m
            },
            seq![EventModel::ConnectionEstablished { peer_id, direction: Direction::Inbound }],
            None,
        ),
        InputModel::DialSucceeded { peer_id } => {
            if m.dial_phase is DialPending {
                (
                    ManagerModel {
                        dial_phase: DialPhase::DialConcluded,
                        next_conn_id: m.next_conn_id + 1,
                        connections: m.connections.push(
                            fresh_conn(m.next_conn_id, peer_id, Direction::Outbound, m.config),
                        ),
                        ..m
                    },
                    seq![
                        EventModel::ConnectionEstablished {
                            peer_id,
                            direction: Direction::Outbound,
                        },
                    ],
                    None,
                )
            } else {
                (m, seq![], None)
            }
        },
        InputModel::DialFailed { reason } => {
            if m.dial_phase is DialPending {
                (
                    ManagerModel { dial_phase: DialPhase::DialConcluded, ..m },
                    seq![EventModel::DialFailed { addr: m.dial_target->Some_0, reason }],
                    None,
                )
            } else {
                (m, seq![], None)
            }
        },
        InputModel::StreamClosed { conn_id, reason } => {
            if has_conn(m.connections, conn_id) {
                let idx = conn_index(m.connections, conn_id);
                (
                    ManagerModel { connections: m.connections.remove(idx), ..m },
                    seq![
                        EventModel::ConnectionClosed {
                            peer_id: m.connections[idx].peer_id,
                            reason,
                        },
                    ],
                    None,
                )
            } else {
                (m, seq![], None)
            }
        },
        InputModel::Probe { conn_id, input } => {
            if has_conn(m.connections, conn_id) && !(input is StreamClosed) {
                let idx = conn_index(m.connections, conn_id);
                let conn = m.connections[idx];
                let (session, outcome) = step_model(conn.session, input);
                let m2 = ManagerModel {
                    connections: m.connections.update(
                        idx,
                        ConnectionModel { session, ..conn },
                    ),
                    ..m
                };
                match outcome {
                    HeartbeatOutcome::SendProbe { nonce } => (
                        m2,
                        seq![],
                        Some(ProbeRequest { conn_id: conn.conn_id as u64, nonce }),
                    ),
                    HeartbeatOutcome::Succeeded { round_trip_ms } => (
                        m2,
                        seq![
                            EventModel::ProbeSucceeded { peer_id: conn.peer_id, round_trip_ms },
                        ],
                        None,
                    ),
                    HeartbeatOutcome::Failed { reason } => (
                        m2,
                        seq![EventModel::ProbeFailed { peer_id: conn.peer_id, reason }],
                        None,
                    ),
                    HeartbeatOutcome::SessionClosed => (m2, seq![], None),
                    HeartbeatOutcome::Quiet => (m2, seq![], None),
                }
            } else {
                (m, seq![], None)
            }
        },
    }
}

/// The clocks a probe report carries never run behind the send time its
/// connection's session recorded.
pub open spec fn probe_clock_ok(m: ManagerModel, i: InputModel) -> bool {
    match i {
        InputModel::Probe { conn_id, input } => has_conn(m.connections, conn_id)
            ==> input_clock_ok(m.connections[conn_index(m.connections, conn_id)].session, input),
        _ => true,
    }
}

/// Each step keeps the manager's invariant.
pub proof fn lemma_step_preserves_wf(m: ManagerModel, i: InputModel)
    requires
        mgr_wf(m),
    ensures
        mgr_wf(manager_step(m, i).0),
{
    let m2 = manager_step(m, i).0;
    match i {
        InputModel::InboundEstablished { peer_id } => {
            assert forall|a: int, b: int| 0 <= a < b < m2.connections.len() implies #[trigger] m2
                .connections[a].conn_id != #[trigger] m2.connections[b].conn_id by {
                if b < m.connections.len() as int {
                } else {
                    assert(m2.connections[b] == fresh_conn(
                        m.next_conn_id,
                        peer_id,
                        Direction::Inbound,
                        m.config,
                    ));
                }
            }
        },
        InputModel::DialSucceeded { peer_id } => {
            if m.dial_phase is DialPending {
                assert forall|a: int, b: int| 0 <= a < b < m2.connections.len() implies #[trigger] m2
                    .connections[a].conn_id != #[trigger] m2.connections[b].conn_id by {
                    if b < m.connections.len() as int {
                    } else {
                        assert(m2.connections[b] == fresh_conn(
                            m.next_conn_id,
                            peer_id,
                            Direction::Outbound,
                            m.config,
                        ));
                    }
                }
            }
        },
        InputModel::StreamClosed { conn_id, reason } => {
            if has_conn(m.connections, conn_id) {
                let idx = conn_index(m.connections, conn_id);
                assert(m2.connections =~= m.connections.remove(idx));
                assert forall|a: int| 0 <= a < m2.connections.len() implies {
                    &&& #[trigger] m2.connections[a].conn_id < m2.next_conn_id
                    &&& !(m2.connections[a].session.state is Closed)
                } by {
                    if a < idx {
                        assert(m2.connections[a] == m.connections[a]);
                    } else {
                        assert(m2.connections[a] == m.connections[a + 1]);
                    }
                }
                assert forall|a: int, b: int| 0 <= a < b < m2.connections.len() implies #[trigger] m2
                    .connections[a].conn_id != #[trigger] m2.connections[b].conn_id by {
                    let oa = if a < idx { a } else { a + 1 };
                    let ob = if b < idx { b } else { b + 1 };
                    assert(m2.connections[a] == m.connections[oa]);
                    assert(m2.connections[b] == m.connections[ob]);
                }
            }
        },
        InputModel::Probe { conn_id, input } => {
            if has_conn(m.connections, conn_id) && !(input is StreamClosed) {
                let idx = conn_index(m.connections, conn_id);
                let conn = m.connections[idx];
                let (session, outcome) = step_model(conn.session, input);
                assert(!(session.state is Closed));
            }
        },
        _ => {},
    }
}

/// Running the manager over a whole sequence of transport reports: the
/// final state and the one ordered stream of emitted events.
pub open spec fn run_model(m: ManagerModel, inputs: Seq<InputModel>) -> (
    ManagerModel,
    Seq<EventModel>,
)
    decreases inputs.len(),
{
    if inputs.len() == 0 {
        (m, Seq::<EventModel>::empty())
    } else {
        let step = manager_step(m, inputs[0]);
        let rest = run_model(step.0, inputs.skip(1));
        (rest.0, step.1 + rest.1)
    }
}

/// The kinds of events the trace laws below count.
pub ghost enum EventKind {
    DialFailedEvent,
    OutboundEstablishedEvent,
    InboundEstablishedEvent,
    ConnectionClosedEvent,
}

pub open spec fn event_is(e: EventModel, k: EventKind) -> bool {
    match k {
        EventKind::DialFailedEvent => e is DialFailed,
        EventKind::OutboundEstablishedEvent => e matches EventModel::ConnectionEstablished {
            peer_id: _,
            direction: Direction::Outbound,
        },
        EventKind::InboundEstablishedEvent => e matches EventModel::ConnectionEstablished {
            peer_id: _,
            direction: Direction::Inbound,
        },
        EventKind::ConnectionClosedEvent => e is ConnectionClosed,
    }
}

pub open spec fn count_events(evs: Seq<EventModel>, k: EventKind) -> nat
    decreases evs.len(),
{
    if evs.len() == 0 {
        0
    } else {
        count_events(evs.drop_last(), k) + if event_is(evs.last(), k) {
            1nat
        } else {
            0nat
        }
    }
}

proof fn lemma_count_events_append(a: Seq<EventModel>, b: Seq<EventModel>, k: EventKind)
    ensures
        count_events(a + b, k) == count_events(a, k) + count_events(b, k),
    decreases b.len(),
{
    if b.len() == 0 {
        assert(a + b =~= a);
    } else {
        assert((a + b).drop_last() =~= a + b.drop_last());
        assert((a + b).last() == b.last());
        lemma_count_events_append(a, b.drop_last(), k);
    }
}

/// A transport report that concludes the one pending dial.
pub open spec fn is_outcome_input(i: InputModel) -> bool {
    i is DialSucceeded || i is DialFailed
}

/// The first report that concludes the dial, if any arrives at all.
pub open spec fn first_outcome_input(inputs: Seq<InputModel>) -> Option<InputModel>
    decreases inputs.len(),
{
    if inputs.len() == 0 {
        None
    } else if is_outcome_input(inputs[0]) {
        Some(inputs[0])
    } else {
        first_outcome_input(inputs.skip(1))
    }
}

pub open spec fn count_inbound_inputs(inputs: Seq<InputModel>) -> nat
    decreases inputs.len(),
{
    if inputs.len() == 0 {
        0
    } else {
        count_inbound_inputs(inputs.drop_last()) + if inputs.last() is InboundEstablished {
            1nat
        } else {
            0nat
        }
    }
}

/// What one step contributes to the dial-outcome counts: nothing unless
/// the dial is pending and the report concludes it, and then exactly the
/// one event of the matching kind, after which the dial is concluded for
/// good.
proof fn lemma_step_dial_facts(m: ManagerModel, i: InputModel)
    requires
        mgr_wf(m),
    ensures
        ({
            let step = manager_step(m, i);
            &&& !(m.dial_phase is DialPending) ==> step.0.dial_phase == m.dial_phase
                && count_events(step.1, EventKind::DialFailedEvent) == 0 && count_events(
                step.1,
                EventKind::OutboundEstablishedEvent,
            ) == 0
            &&& m.dial_phase is DialPending && !is_outcome_input(i) ==> step.0.dial_phase
                is DialPending && count_events(step.1, EventKind::DialFailedEvent) == 0
                && count_events(step.1, EventKind::OutboundEstablishedEvent) == 0
            &&& m.dial_phase is DialPending && i is DialFailed ==> step.0.dial_phase
                is DialConcluded && count_events(step.1, EventKind::DialFailedEvent) == 1
                && count_events(step.1, EventKind::OutboundEstablishedEvent) == 0
            &&& m.dial_phase is DialPending && i is DialSucceeded ==> step.0.dial_phase
                is DialConcluded && count_events(step.1, EventKind::DialFailedEvent) == 0
                && count_events(step.1, EventKind::OutboundEstablishedEvent) == 1
            &&& count_events(step.1, EventKind::InboundEstablishedEvent) == (
            if i is InboundEstablished {
                1nat
            } else {
                0nat
            })
        }),
{
    let step = manager_step(m, i);
    if step.1.len() == 1 {
        assert(step.1.drop_last() =~= Seq::<EventModel>::empty());
        assert(count_events(Seq::<EventModel>::empty(), EventKind::DialFailedEvent) == 0);
        assert(count_events(Seq::<EventModel>::empty(), EventKind::OutboundEstablishedEvent) == 0);
        assert(count_events(Seq::<EventModel>::empty(), EventKind::InboundEstablishedEvent) == 0);
        assert(count_events(step.1, EventKind::DialFailedEvent) == (if event_is(
            step.1[0],
            EventKind::DialFailedEvent,
        ) {
            1nat
        } else {
            0nat
        }));
        assert(count_events(step.1, EventKind::OutboundEstablishedEvent) == (if event_is(
            step.1[0],
            EventKind::OutboundEstablishedEvent,
        ) {
            1nat
        } else {
            0nat
        }));
        assert(count_events(step.1, EventKind::InboundEstablishedEvent) == (if event_is(
            step.1[0],
            EventKind::InboundEstablishedEvent,
        ) {
            1nat
        } else {
            0nat
        }));
    }
    match i {
        InputModel::ListenerReady { addr } => {
            assert(step.1.len() == 1);
        },
        InputModel::InboundEstablished { peer_id } => {
            assert(step.1.len() == 1);
            assert(event_is(step.1[0], EventKind::InboundEstablishedEvent));
        },
        InputModel::DialSucceeded { peer_id } => {
            if m.dial_phase is DialPending {
                assert(step.1.len() == 1);
                assert(event_is(step.1[0], EventKind::OutboundEstablishedEvent));
            } else {
                assert(step.1.len() == 0);
            }
        },
        InputModel::DialFailed { reason } => {
            if m.dial_phase is DialPending {
                assert(step.1.len() == 1);
                assert(event_is(step.1[0], EventKind::DialFailedEvent));
            } else {
                assert(step.1.len() == 0);
            }
        },
        InputModel::StreamClosed { conn_id, reason } => {
            if has_conn(m.connections, conn_id) {
                assert(step.1.len() == 1);
                assert(!event_is(step.1[0], EventKind::DialFailedEvent));
                assert(!event_is(step.1[0], EventKind::OutboundEstablishedEvent));
                assert(!event_is(step.1[0], EventKind::InboundEstablishedEvent));
            }
        },
        InputModel::Probe { conn_id, input } => {
            if has_conn(m.connections, conn_id) && !(input is StreamClosed) {
                let idx = conn_index(m.connections, conn_id);
                let conn = m.connections[idx];
                let outcome = step_model(conn.session, input).1;
                if step.1.len() == 1 {
                    assert(!event_is(step.1[0], EventKind::DialFailedEvent));
                    assert(!event_is(step.1[0], EventKind::OutboundEstablishedEvent));
                    assert(!event_is(step.1[0], EventKind::InboundEstablishedEvent));
                }
            }
        },
    }
}

/// A manager whose dial is not pending never reports a dial outcome,
/// whatever the transport reports from then on.
pub proof fn lemma_concluded_dial_reports_nothing(m: ManagerModel, inputs: Seq<InputModel>)
    requires
        mgr_wf(m),
        !(m.dial_phase is DialPending),
    ensures
        count_events(run_model(m, inputs).1, EventKind::DialFailedEvent) == 0,
        count_events(run_model(m, inputs).1, EventKind::OutboundEstablishedEvent) == 0,
    decreases inputs.len(),
{
    if inputs.len() > 0 {
        let step = manager_step(m, inputs[0]);
        lemma_step_preserves_wf(m, inputs[0]);
        lemma_step_dial_facts(m, inputs[0]);
        lemma_concluded_dial_reports_nothing(step.0, inputs.skip(1));
        lemma_count_events_append(step.1, run_model(step.0, inputs.skip(1)).1,
            EventKind::DialFailedEvent);
        lemma_count_events_append(step.1, run_model(step.0, inputs.skip(1)).1,
            EventKind::OutboundEstablishedEvent);
    }
}

/// A pending dial is reported exactly once, by its first reported
/// outcome: a transport that reports failure yields one `DialFailed` and
/// no outbound `ConnectionEstablished`, one that reports success yields
/// the converse, and further outcome reports change nothing. Until some
/// outcome is reported, neither event appears.
pub proof fn lemma_dial_outcome_exactly_once(m: ManagerModel, inputs: Seq<InputModel>)
    requires
        mgr_wf(m),
        m.dial_phase is DialPending,
    ensures
        count_events(run_model(m, inputs).1, EventKind::DialFailedEvent) == (
        match first_outcome_input(inputs) {
            Some(InputModel::DialFailed { .. }) => 1nat,
            _ => 0nat,
        }),
        count_events(run_model(m, inputs).1, EventKind::OutboundEstablishedEvent) == (
        match first_outcome_input(inputs) {
            Some(InputModel::DialSucceeded { .. }) => 1nat,
            _ => 0nat,
        }),
    decreases inputs.len(),
{
    if inputs.len() > 0 {
        let step = manager_step(m, inputs[0]);
        let rest = run_model(step.0, inputs.skip(1));
        lemma_step_preserves_wf(m, inputs[0]);
        lemma_step_dial_facts(m, inputs[0]);
        lemma_count_events_append(step.1, rest.1, EventKind::DialFailedEvent);
        lemma_count_events_append(step.1, rest.1, EventKind::OutboundEstablishedEvent);
        if is_outcome_input(inputs[0]) {
            lemma_concluded_dial_reports_nothing(step.0, inputs.skip(1));
        } else {
            lemma_dial_outcome_exactly_once(step.0, inputs.skip(1));
        }
    }
}

/// Every completed inbound handshake is reported exactly once: the run's
/// inbound `ConnectionEstablished` events are one per inbound report.
pub proof fn lemma_each_inbound_reported_once(m: ManagerModel, inputs: Seq<InputModel>)
    requires
        mgr_wf(m),
    ensures
        count_events(run_model(m, inputs).1, EventKind::InboundEstablishedEvent)
            == count_inbound_inputs(inputs),
    decreases inputs.len(),
{
    if inputs.len() > 0 {
        let step = manager_step(m, inputs[0]);
        lemma_step_preserves_wf(m, inputs[0]);
        lemma_step_dial_facts(m, inputs[0]);
        lemma_each_inbound_reported_once(step.0, inputs.skip(1));
        lemma_count_events_append(step.1, run_model(step.0, inputs.skip(1)).1,
            EventKind::InboundEstablishedEvent);
        assert(inputs.skip(1) =~= inputs.drop_first());
        lemma_count_inbound_cons(inputs);
    }
}

/// One step yields a `ConnectionClosed` event only for a stream-closed
/// report.
proof fn lemma_step_close_facts(m: ManagerModel, i: InputModel)
    requires
        mgr_wf(m),
        !(i is StreamClosed),
    ensures
        count_events(manager_step(m, i).1, EventKind::ConnectionClosedEvent) == 0,
{
    let step = manager_step(m, i);
    if step.1.len() == 1 {
        assert(step.1.drop_last() =~= Seq::<EventModel>::empty());
        assert(count_events(Seq::<EventModel>::empty(), EventKind::ConnectionClosedEvent) == 0);
        assert(count_events(step.1, EventKind::ConnectionClosedEvent) == (if event_is(
            step.1[0],
            EventKind::ConnectionClosedEvent,
        ) {
            1nat
        } else {
            0nat
        }));
        assert(!event_is(step.1[0], EventKind::ConnectionClosedEvent));
    }
}

/// Keep-alive at the manager: over any sequence of transport reports none
/// of which closes a stream, the manager reports no connection closed —
/// idleness, probe failures and further handshakes alone never end a
/// connection.
pub proof fn lemma_no_close_without_stream_close(m: ManagerModel, inputs: Seq<InputModel>)
    requires
        mgr_wf(m),
        forall|j: int| 0 <= j < inputs.len() ==> !(#[trigger] inputs[j] is StreamClosed),
    ensures
        count_events(run_model(m, inputs).1, EventKind::ConnectionClosedEvent) == 0,
    decreases inputs.len(),
{
    if inputs.len() > 0 {
        let step = manager_step(m, inputs[0]);
        lemma_step_preserves_wf(m, inputs[0]);
        lemma_step_close_facts(m, inputs[0]);
        assert forall|j: int| 0 <= j < inputs.skip(1).len() implies !(#[trigger] inputs.skip(1)[j]
            is StreamClosed) by {
            assert(inputs.skip(1)[j] == inputs[j + 1]);
        }
        lemma_no_close_without_stream_close(step.0, inputs.skip(1));
        lemma_count_events_append(step.1, run_model(step.0, inputs.skip(1)).1,
            EventKind::ConnectionClosedEvent);
    }
}

/// An event that speaks of one live connection's session or end.
pub open spec fn is_session_event(e: EventModel) -> bool {
    ||| e is ProbeSucceeded
    ||| e is ProbeFailed
    ||| e is ConnectionClosed
}

/// The peer a session event speaks of.
pub open spec fn session_event_peer(e: EventModel) -> Seq<u8> {
    match e {
        EventModel::ProbeSucceeded { peer_id, round_trip_ms: _ } => peer_id,
        EventModel::ProbeFailed { peer_id, reason: _ } => peer_id,
        EventModel::ConnectionClosed { peer_id, reason: _ } => peer_id,
        _ => Seq::<u8>::empty(),
    }
}

/// `e` establishes a connection to peer `p`.
pub open spec fn is_established_for(e: EventModel, p: Seq<u8>) -> bool {
    e matches EventModel::ConnectionEstablished { peer_id, direction: _ } && peer_id == p
}

/// The trace holds an establishment of a connection to peer `p`.
pub open spec fn established_for(trace: Seq<EventModel>, p: Seq<u8>) -> bool {
    exists|j: int| 0 <= j < trace.len() && is_established_for(#[trigger] trace[j], p)
}

/// Events of one connection come causally ordered: every probe success,
/// probe failure or close for a peer stands after the establishment of a
/// connection to that peer.
pub open spec fn causally_ordered(trace: Seq<EventModel>) -> bool {
    forall|x: int|
        0 <= x < trace.len() && is_session_event(#[trigger] trace[x]) ==> established_for(
            trace.take(x),
            session_event_peer(trace[x]),
        )
}

/// Every live connection's peer was announced in the trace so far.
spec fn conn_peers_established(m: ManagerModel, trace: Seq<EventModel>) -> bool {
    forall|k: int|
        0 <= k < m.connections.len() ==> established_for(
            trace,
            (#[trigger] m.connections[k]).peer_id,
        )
}

proof fn lemma_established_extend(t: Seq<EventModel>, evs: Seq<EventModel>, p: Seq<u8>)
    requires
        established_for(t, p),
    ensures
        established_for(t + evs, p),
{
    let j = choose|j: int| 0 <= j < t.len() && is_established_for(#[trigger] t[j], p);
    assert((t + evs)[j] == t[j]);
}

proof fn lemma_step_causal(m: ManagerModel, i: InputModel, t: Seq<EventModel>)
    requires
        mgr_wf(m),
        conn_peers_established(m, t),
        causally_ordered(t),
    ensures
        causally_ordered(t + manager_step(m, i).1),
        conn_peers_established(manager_step(m, i).0, t + manager_step(m, i).1),
    {
    let step = manager_step(m, i);
    let u = t + step.1;
    assert forall|x: int| 0 <= x < u.len() && is_session_event(#[trigger] u[x]) implies
        established_for(u.take(x), session_event_peer(u[x])) by {
        if x < t.len() {
            assert(u[x] == t[x]);
            assert(u.take(x) =~= t.take(x));
        } else {
            assert(u[x] == step.1[x - t.len()]);
            assert(step.1.len() == 1 && x == t.len());
            assert(u.take(x) =~= t);
            match i {
                InputModel::StreamClosed { conn_id, reason } => {
                    let idx = conn_index(m.connections, conn_id);
                    assert(session_event_peer(u[x]) == m.connections[idx].peer_id);
                },
                InputModel::Probe { conn_id, input } => {
                    let idx = conn_index(m.connections, conn_id);
                    assert(session_event_peer(u[x]) == m.connections[idx].peer_id);
                },
                _ => {
                    assert(!is_session_event(u[x]));
                },
            }
        }
    }
    assert forall|k: int| 0 <= k < step.0.connections.len() implies established_for(
        u,
        (#[trigger] step.0.connections[k]).peer_id,
    ) by {
        match i {
            InputModel::InboundEstablished { peer_id } => {
                if k < m.connections.len() as int {
                    lemma_established_extend(t, step.1, m.connections[k].peer_id);
                } else {
                    assert(is_established_for(u[t.len() as int], peer_id));
                }
            },
            InputModel::DialSucceeded { peer_id } => {
                if k < m.connections.len() as int {
                    lemma_established_extend(t, step.1, m.connections[k].peer_id);
                } else {
                    assert(is_established_for(u[t.len() as int], peer_id));
                }
            },
            InputModel::StreamClosed { conn_id, reason } => {
                if has_conn(m.connections, conn_id) {
                    let idx = conn_index(m.connections, conn_id);
                    let kept = if k < idx {
                        k
                    } else {
                        k + 1
                    };
                    assert(step.0.connections[k] == m.connections[kept]);
                    lemma_established_extend(t, step.1, m.connections[kept].peer_id);
                } else {
                    lemma_established_extend(t, step.1, m.connections[k].peer_id);
                }
            },
            InputModel::Probe { conn_id, input } => {
                assert(step.0.connections[k].peer_id == m.connections[k].peer_id);
                lemma_established_extend(t, step.1, m.connections[k].peer_id);
            },
            _ => {
                lemma_established_extend(t, step.1, m.connections[k].peer_id);
            },
        }
    }
}

proof fn lemma_run_causal(m: ManagerModel, inputs: Seq<InputModel>, t: Seq<EventModel>)
    requires
        mgr_wf(m),
        conn_peers_established(m, t),
        causally_ordered(t),
    ensures
        causally_ordered(t + run_model(m, inputs).1),
        conn_peers_established(run_model(m, inputs).0, t + run_model(m, inputs).1),
    decreases inputs.len(),
{
    if inputs.len() == 0 {
        assert(t + run_model(m, inputs).1 =~= t);
    } else {
        let step = manager_step(m, inputs[0]);
        let rest = run_model(step.0, inputs.skip(1));
        lemma_step_preserves_wf(m, inputs[0]);
        lemma_step_causal(m, inputs[0], t);
        lemma_run_causal(step.0, inputs.skip(1), t + step.1);
        assert(t + run_model(m, inputs).1 =~= (t + step.1) + rest.1);
    }
}

/// Within one connection, events come causally ordered: from a manager
/// that starts with no connections, every probe success, probe failure or
/// close in the whole emitted stream stands after a
/// `ConnectionEstablished` for its peer.
pub proof fn lemma_events_causally_ordered(m: ManagerModel, inputs: Seq<InputModel>)
    requires
        mgr_wf(m),
        m.connections.len() == 0,
    ensures
        causally_ordered(run_model(m, inputs).1),
{
    lemma_run_causal(m, inputs, Seq::<EventModel>::empty());
    assert(Seq::<EventModel>::empty() + run_model(m, inputs).1 =~= run_model(m, inputs).1);
}

proof fn lemma_count_inbound_cons(inputs: Seq<InputModel>)
    requires
        inputs.len() > 0,
    ensures
        count_inbound_inputs(inputs) == (if inputs[0] is InboundEstablished {
            1nat
        } else {
            0nat
        }) + count_inbound_inputs(inputs.skip(1)),
    decreases inputs.len(),
{
    if inputs.len() == 1 {
        assert(inputs.drop_last() =~= Seq::<InputModel>::empty());
        assert(inputs.skip(1) =~= Seq::<InputModel>::empty());
    } else {
        lemma_count_inbound_cons(inputs.drop_last());
        assert(inputs.drop_last().skip(1) =~= inputs.skip(1).drop_last());
        assert(inputs.skip(1).last() == inputs.last());
        assert(inputs.drop_last()[0] == inputs[0]);
    }
}

fn clone_bytes(v: &Vec<u8>) -> (r: Vec<u8>)
    ensures
        r@ == v@,
{
    let mut r: Vec<u8> = Vec::new();
    let n = v.len();
    let mut i: usize = 0;
    while i < n
        invariant
            i <= n == v@.len(),
            r@ == v@.take(i as int),
        decreases n - i,
    {
        r.push(v[i]);
        proof {
            assert(r@ =~= v@.take(i + 1));
        }
        i += 1;
    }
    proof {
        assert(v@.take(n as int) =~= v@);
    }
    r
}

impl ConnectionManager {
    /// A manager for a node that listens and, given a target, dials it
    /// once. It starts with no connections and its one dial, if any,
    /// pending.
    pub fn new(config: HeartbeatConfig, dial_target: Option<NetworkAddress>) -> (r:
        ConnectionManager)
        ensures
            mgr_wf(r@),
            r@.config == config,
            r@.next_conn_id == 0,
            r@.connections.len() == 0,
            dial_target matches Some(a) ==> r@.dial_phase is DialPending && r@.dial_target
                == Some(a@),
            dial_target is None ==> r@.dial_phase is NoDial && r@.dial_target is None,
    {
        let dial_phase = match &dial_target {
            Some(_) => DialPhase::DialPending,
            None => DialPhase::NoDial,
        };
        let r = ConnectionManager {
            config,
            dial_phase,
            dial_target,
            next_conn_id: 0,
            connections: Vec::new(),
        };
        proof {
            assert(r@.connections =~= Seq::<ConnectionModel>::empty());
        }
        r
    }

    fn find_connection(&self, conn_id: u64) -> (r: Option<usize>)
        requires
            mgr_wf(self@),
        ensures
            match r {
                Some(idx) => idx < self.connections@.len() && has_conn(
                    self@.connections,
                    conn_id as nat,
                ) && conn_index(self@.connections, conn_id as nat) == idx as int,
                None => !has_conn(self@.connections, conn_id as nat),
            },
    {
        let n = self.connections.len();
        let mut p: usize = 0;
        while p < n
            invariant
                p <= n == self.connections@.len(),
                mgr_wf(self@),
                forall|q: int|
                    0 <= q < p ==> (#[trigger] self@.connections[q].conn_id) != conn_id as nat,
            decreases n - p,
        {
            if self.connections[p].conn_id == conn_id {
                proof {
                    assert(self@.connections[p as int].conn_id == conn_id as nat);
                    let ci = conn_index(self@.connections, conn_id as nat);
                    assert(0 <= ci < self@.connections.len() && self@.connections[ci].conn_id
                        == conn_id as nat);
                }
                return Some(p);
            }
            p += 1;
        }
        None
    }

    /// Consumes one transport report and yields the events to observe and
    /// at most one probe to send, exactly as `manager_step` says; the
    /// manager's invariant is kept.
    pub fn handle(&mut self, input: TransportInput) -> (r: (Vec<Event>, Option<ProbeRequest>))
        requires
            mgr_wf(old(self)@),
            old(self).next_conn_id < u64::MAX,
            probe_clock_ok(old(self)@, input@),
        ensures
            mgr_wf(final(self)@),
            final(self)@ == manager_step(old(self)@, input@).0,
            event_views(r.0@) == manager_step(old(self)@, input@).1,
            r.1 == manager_step(old(self)@, input@).2,
    {
        proof {
            lemma_step_preserves_wf(old(self)@, input@);
        }
        let ghost m0 = self@;
        let mut evs: Vec<Event> = Vec::new();
        match input {
            TransportInput::ListenerReady { addr } => {
                evs.push(Event::ListenAddrReady { addr });
                proof {
                    assert(event_views(evs@) =~= manager_step(m0, input@).1);
                }
                (evs, None)
            },
            TransportInput::InboundEstablished { peer_id } => {
                let peer_copy = clone_bytes(&peer_id);
                let session = HeartbeatSession::new(self.config);
                let conn = Connection {
                    conn_id: self.next_conn_id,
                    peer_id,
                    direction: Direction::Inbound,
                    session,
                };
                self.connections.push(conn);
                self.next_conn_id = self.next_conn_id + 1;
                evs.push(
                    Event::ConnectionEstablished {
                        peer_id: peer_copy,
                        direction: Direction::Inbound,
                    },
                );
                proof {
                    assert(self@.connections =~= manager_step(m0, input@).0.connections);
                    assert(self@ =~= manager_step(m0, input@).0);
                    assert(event_views(evs@) =~= manager_step(m0, input@).1);
                }
                (evs, None)
            },
            TransportInput::DialSucceeded { peer_id } => {
                match self.dial_phase {
                    DialPhase::DialPending => {
                        let peer_copy = clone_bytes(&peer_id);
                        let session = HeartbeatSession::new(self.config);
                        let conn = Connection {
                            conn_id: self.next_conn_id,
                            peer_id,
                            direction: Direction::Outbound,
                            session,
                        };
                        self.connections.push(conn);
                        self.next_conn_id = self.next_conn_id + 1;
                        self.dial_phase = DialPhase::DialConcluded;
                        evs.push(
                            Event::ConnectionEstablished {
                                peer_id: peer_copy,
                                direction: Direction::Outbound,
                            },
                        );
                        proof {
                            assert(self@.connections =~= manager_step(m0, input@).0.connections);
                            assert(self@ =~= manager_step(m0, input@).0);
                            assert(event_views(evs@) =~= manager_step(m0, input@).1);
                        }
                        (evs, None)
                    },
                    _ => {
                        proof {
                            assert(event_views(evs@) =~= Seq::<EventModel>::empty());
                        }
                        (evs, None)
                    },
                }
            },
            TransportInput::DialFailed { reason } => {
                match self.dial_phase {
                    DialPhase::DialPending => {
                        let addr = match &self.dial_target {
                            Some(a) => a.duplicate(),
                            None => {
                                proof {
                                    assert(false);
                                }
                                NetworkAddress::new(0, 0, 0, 0, 0)
                            },
                        };
                        self.dial_phase = DialPhase::DialConcluded;
                        evs.push(Event::DialFailed { addr, reason });
                        proof {
                            assert(self@ =~= manager_step(m0, input@).0);
                            assert(event_views(evs@) =~= manager_step(m0, input@).1);
                        }
                        (evs, None)
                    },
                    _ => {
                        proof {
                            assert(event_views(evs@) =~= Seq::<EventModel>::empty());
                        }
                        (evs, None)
                    },
                }
            },
            TransportInput::StreamClosed { conn_id, reason } => {
                match self.find_connection(conn_id) {
                    Some(idx) => {
                        let conn = self.connections.remove(idx);
                        evs.push(Event::ConnectionClosed { peer_id: conn.peer_id, reason });
                        proof {
                            assert(self@.connections =~= manager_step(m0, input@).0.connections);
                            assert(self@ =~= manager_step(m0, input@).0);
                            assert(event_views(evs@) =~= manager_step(m0, input@).1);
                        }
                        (evs, None)
                    },
                    None => {
                        proof {
                            assert(event_views(evs@) =~= Seq::<EventModel>::empty());
                        }
                        (evs, None)
                    },
                }
            },
            TransportInput::Probe { conn_id, input: probe_input } => {
                if matches!(probe_input, HeartbeatInput::StreamClosed) {
                    proof {
                        assert(event_views(evs@) =~= Seq::<EventModel>::empty());
                    }
                    return (evs, None);
                }
                match self.find_connection(conn_id) {
                    Some(idx) => {
                        let ghost conns0 = self@.connections;
                        let mut conn = self.connections.remove(idx);
                        let outcome = conn.session.step(probe_input);
                        let req: Option<ProbeRequest> = match outcome {
                            HeartbeatOutcome::SendProbe { nonce } => Some(
                                ProbeRequest { conn_id: conn.conn_id, nonce },
                            ),
                            HeartbeatOutcome::Succeeded { round_trip_ms } => {
                                evs.push(
                                    Event::ProbeSucceeded {
                                        peer_id: clone_bytes(&conn.peer_id),
                                        round_trip_ms,
                                    },
                                );
                                None
                            },
                            HeartbeatOutcome::Failed { reason } => {
                                evs.push(
                                    Event::ProbeFailed {
                                        peer_id: clone_bytes(&conn.peer_id),
                                        reason,
                                    },
                                );
                                None
                            },
                            _ => None,
                        };
                        self.connections.insert(idx, conn);
                        proof {
                            assert(self@.connections =~= manager_step(m0, input@).0.connections);
                            assert(self@ =~= manager_step(m0, input@).0);
                            assert(event_views(evs@) =~= manager_step(m0, input@).1);
                        }
                        (evs, req)
                    },
                    None => {
                        proof {
                            assert(event_views(evs@) =~= Seq::<EventModel>::empty());
                        }
                        (evs, None)
                    },
                }
            },
        }
    }
}

} // verus!
