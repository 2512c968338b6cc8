use ping_node::address::NetworkAddress;
use ping_node::heartbeat::HeartbeatConfig;
use ping_node::heartbeat::HeartbeatInput;
use ping_node::manager::ConnectionManager;
use ping_node::manager::DialFailReason;
use ping_node::manager::DialPhase;
use ping_node::manager::Direction;
use ping_node::manager::CloseReason;
use ping_node::manager::Event;
use ping_node::manager::ProbeRequest;
use ping_node::manager::TransportInput;

fn config() -> HeartbeatConfig {
    HeartbeatConfig { keep_alive_enabled: true, timeout_ms: 5000 }
}

#[test]
fn listener_only_node_reports_ready_and_stays_open() {
    // Listener bound on 0.0.0.0:8080, no dial target: one listener-ready
    // event, then nothing further until an inbound peer connects.
    let mut m = ConnectionManager::new(config(), None);
    assert_eq!(m.dial_phase, DialPhase::NoDial);
    let addr = NetworkAddress::new(0, 0, 0, 0, 8080);
    let (evs, req) = m.handle(TransportInput::ListenerReady { addr: addr.duplicate() });
    assert_eq!(evs, vec![Event::ListenAddrReady { addr }]);
    assert_eq!(req, None);
    assert_eq!(m.connections.len(), 0);

    let (evs, req) = m.handle(TransportInput::InboundEstablished { peer_id: vec![1, 2, 3] });
    assert_eq!(
        evs,
        vec![Event::ConnectionEstablished { peer_id: vec![1, 2, 3], direction: Direction::Inbound }]
    );
    assert_eq!(req, None);
    assert_eq!(m.connections.len(), 1);
}

#[test]
fn failed_dial_reports_exactly_once_and_node_keeps_listening() {
    // Dial target on a closed port: exactly one DialFailed event, no
    // ConnectionEstablished, and the node continues as a listener.
    let target = NetworkAddress::new(127, 0, 0, 1, 8080);
    let mut m = ConnectionManager::new(config(), Some(target.duplicate()));
    assert_eq!(m.dial_phase, DialPhase::DialPending);

    let (evs, _) = m.handle(TransportInput::DialFailed { reason: DialFailReason::ConnectionRefused });
    assert_eq!(
        evs,
        vec![Event::DialFailed { addr: target, reason: DialFailReason::ConnectionRefused }]
    );
    assert_eq!(m.dial_phase, DialPhase::DialConcluded);
    assert_eq!(m.connections.len(), 0);

    // A repeated failure report for the same dial changes nothing.
    let (evs, _) = m.handle(TransportInput::DialFailed { reason: DialFailReason::TimedOut });
    assert_eq!(evs, Vec::<Event>::new());

    // The listener side still works.
    let (evs, _) = m.handle(TransportInput::InboundEstablished { peer_id: vec![9] });
    assert_eq!(evs.len(), 1);
}

#[test]
fn successful_dial_establishes_on_both_sides_then_probes() {
    // A dialer and a listener: each observes exactly one established
    // connection, then periodic probe successes.
    let target = NetworkAddress::new(127, 0, 0, 1, 8080);
    let mut dialer = ConnectionManager::new(config(), Some(target));
    let mut listener = ConnectionManager::new(config(), None);

    let (evs, _) = dialer.handle(TransportInput::DialSucceeded { peer_id: vec![0xbb] });
    assert_eq!(
        evs,
        vec![Event::ConnectionEstablished { peer_id: vec![0xbb], direction: Direction::Outbound }]
    );
    let (evs, _) = listener.handle(TransportInput::InboundEstablished { peer_id: vec![0xaa] });
    assert_eq!(
        evs,
        vec![Event::ConnectionEstablished { peer_id: vec![0xaa], direction: Direction::Inbound }]
    );

    // A second success report for the one dial is dropped.
    let (evs, _) = dialer.handle(TransportInput::DialSucceeded { peer_id: vec![0xbb] });
    assert_eq!(evs, Vec::<Event>::new());
    assert_eq!(dialer.connections.len(), 1);

    // One probe round trip on each side.
    let dial_conn = dialer.connections[0].conn_id;
    let (evs, req) = dialer.handle(TransportInput::Probe {
        conn_id: dial_conn,
        input: HeartbeatInput::Tick { now_ms: 1000, nonce: 7 },
    });
    assert_eq!(evs, Vec::<Event>::new());
    assert_eq!(req, Some(ProbeRequest { conn_id: dial_conn, nonce: 7 }));
    let (evs, req) = dialer.handle(TransportInput::Probe {
        conn_id: dial_conn,
        input: HeartbeatInput::Echo { nonce: 7, now_ms: 1040 },
    });
    assert_eq!(
        evs,
        vec![Event::ProbeSucceeded { peer_id: vec![0xbb], round_trip_ms: 40 }]
    );
    assert_eq!(req, None);

    let listen_conn = listener.connections[0].conn_id;
    listener.handle(TransportInput::Probe {
        conn_id: listen_conn,
        input: HeartbeatInput::Tick { now_ms: 2000, nonce: 8 },
    });
    let (evs, _) = listener.handle(TransportInput::Probe {
        conn_id: listen_conn,
        input: HeartbeatInput::Echo { nonce: 8, now_ms: 2005 },
    });
    assert_eq!(
        evs,
        vec![Event::ProbeSucceeded { peer_id: vec![0xaa], round_trip_ms: 5 }]
    );
}

#[test]
fn probe_failures_are_reported_but_keep_the_connection() {
    let mut m = ConnectionManager::new(config(), None);
    m.handle(TransportInput::InboundEstablished { peer_id: vec![5] });
    let conn = m.connections[0].conn_id;
    m.handle(TransportInput::Probe {
        conn_id: conn,
        input: HeartbeatInput::Tick { now_ms: 0, nonce: 1 },
    });
    let (evs, _) = m.handle(TransportInput::Probe {
        conn_id: conn,
        input: HeartbeatInput::Timeout { now_ms: 5000 },
    });
    assert_eq!(evs.len(), 1);
    assert!(matches!(evs[0], Event::ProbeFailed { .. }));
    assert_eq!(m.connections.len(), 1);
}

#[test]
fn closing_stream_removes_the_connection_and_its_session() {
    let mut m = ConnectionManager::new(config(), None);
    m.handle(TransportInput::InboundEstablished { peer_id: vec![5, 6] });
    let conn = m.connections[0].conn_id;
    let (evs, _) = m.handle(TransportInput::StreamClosed {
        conn_id: conn,
        reason: CloseReason::RemoteClosed,
    });
    assert_eq!(
        evs,
        vec![Event::ConnectionClosed { peer_id: vec![5, 6], reason: CloseReason::RemoteClosed }]
    );
    assert_eq!(m.connections.len(), 0);

    // Reports for the gone connection are dropped.
    let (evs, req) = m.handle(TransportInput::Probe {
        conn_id: conn,
        input: HeartbeatInput::Tick { now_ms: 1, nonce: 2 },
    });
    assert_eq!(evs, Vec::<Event>::new());
    assert_eq!(req, None);
}

#[test]
fn connection_identifiers_stay_unique() {
    let mut m = ConnectionManager::new(config(), None);
    m.handle(TransportInput::InboundEstablished { peer_id: vec![1] });
    m.handle(TransportInput::InboundEstablished { peer_id: vec![2] });
    m.handle(TransportInput::StreamClosed {
        conn_id: m.connections[0].conn_id,
        reason: CloseReason::StreamError,
    });
    m.handle(TransportInput::InboundEstablished { peer_id: vec![3] });
    assert_eq!(m.connections.len(), 2);
    assert_ne!(m.connections[0].conn_id, m.connections[1].conn_id);
}
