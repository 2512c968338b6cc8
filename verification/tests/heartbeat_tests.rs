use ping_node::heartbeat::HeartbeatConfig;
use ping_node::heartbeat::HeartbeatInput;
use ping_node::heartbeat::HeartbeatOutcome;
use ping_node::heartbeat::HeartbeatSession;
use ping_node::heartbeat::ProbeFailReason;
use ping_node::heartbeat::ProbeState;

fn config() -> HeartbeatConfig {
    HeartbeatConfig { keep_alive_enabled: true, timeout_ms: 5000 }
}

#[test]
fn tick_sends_probe_from_idle() {
    let mut s = HeartbeatSession::new(config());
    assert_eq!(s.state, ProbeState::Idle);
    let o = s.step(HeartbeatInput::Tick { now_ms: 1000, nonce: 42 });
    assert_eq!(o, HeartbeatOutcome::SendProbe { nonce: 42 });
    assert_eq!(s.state, ProbeState::ProbeSent { nonce: 42, sent_at_ms: 1000 });
}

#[test]
fn matching_echo_measures_exact_round_trip() {
    let mut s = HeartbeatSession::new(config());
    s.step(HeartbeatInput::Tick { now_ms: 1000, nonce: 42 });
    let o = s.step(HeartbeatInput::Echo { nonce: 42, now_ms: 1250 });
    assert_eq!(o, HeartbeatOutcome::Succeeded { round_trip_ms: 250 });
    assert_eq!(s.state, ProbeState::Idle);
    assert_eq!(s.round_trip_samples, vec![250]);
    // The reported span is non-negative and below the answer window.
    assert!(250 < 5000);
}

#[test]
fn immediate_echo_measures_zero() {
    let mut s = HeartbeatSession::new(config());
    s.step(HeartbeatInput::Tick { now_ms: 7, nonce: 1 });
    let o = s.step(HeartbeatInput::Echo { nonce: 1, now_ms: 7 });
    assert_eq!(o, HeartbeatOutcome::Succeeded { round_trip_ms: 0 });
}

#[test]
fn mismatched_nonce_fails_the_probe() {
    let mut s = HeartbeatSession::new(config());
    s.step(HeartbeatInput::Tick { now_ms: 1000, nonce: 42 });
    let o = s.step(HeartbeatInput::Echo { nonce: 43, now_ms: 1100 });
    assert_eq!(o, HeartbeatOutcome::Failed { reason: ProbeFailReason::NonceMismatch });
    assert_eq!(s.state, ProbeState::Idle);
    assert_eq!(s.round_trip_samples, Vec::<u64>::new());
}

#[test]
fn timeout_before_window_changes_nothing() {
    let mut s = HeartbeatSession::new(config());
    s.step(HeartbeatInput::Tick { now_ms: 1000, nonce: 42 });
    let o = s.step(HeartbeatInput::Timeout { now_ms: 5999 });
    assert_eq!(o, HeartbeatOutcome::Quiet);
    assert_eq!(s.state, ProbeState::ProbeSent { nonce: 42, sent_at_ms: 1000 });
}

#[test]
fn timeout_after_window_fails_the_probe() {
    let mut s = HeartbeatSession::new(config());
    s.step(HeartbeatInput::Tick { now_ms: 1000, nonce: 42 });
    let o = s.step(HeartbeatInput::Timeout { now_ms: 6000 });
    assert_eq!(o, HeartbeatOutcome::Failed { reason: ProbeFailReason::Timeout });
    assert_eq!(s.state, ProbeState::Idle);
}

#[test]
fn keep_alive_session_survives_idle_traffic_forever() {
    // With keep-alive on and no application traffic at all, nothing the
    // behaviour does on its own ever closes the session: only a stream
    // report does.
    let mut s = HeartbeatSession::new(config());
    let mut now: u64 = 0;
    for round in 0..1000u64 {
        now += 10_000;
        let o = s.step(HeartbeatInput::Tick { now_ms: now, nonce: round });
        assert_eq!(o, HeartbeatOutcome::SendProbe { nonce: round });
        now += 6000;
        let o = s.step(HeartbeatInput::Timeout { now_ms: now });
        assert_eq!(o, HeartbeatOutcome::Failed { reason: ProbeFailReason::Timeout });
        assert_ne!(s.state, ProbeState::Closed);
    }
    let o = s.step(HeartbeatInput::StreamClosed);
    assert_eq!(o, HeartbeatOutcome::SessionClosed);
    assert_eq!(s.state, ProbeState::Closed);
}

#[test]
fn closed_session_absorbs_every_report() {
    let mut s = HeartbeatSession::new(config());
    s.step(HeartbeatInput::StreamClosed);
    assert_eq!(s.step(HeartbeatInput::Tick { now_ms: 1, nonce: 9 }), HeartbeatOutcome::Quiet);
    assert_eq!(s.step(HeartbeatInput::Echo { nonce: 9, now_ms: 2 }), HeartbeatOutcome::Quiet);
    assert_eq!(s.step(HeartbeatInput::StreamClosed), HeartbeatOutcome::Quiet);
    assert_eq!(s.state, ProbeState::Closed);
}
