use shm_ringbuf::registry::Registry;
use shm_ringbuf::session::{Session, SessionAction, SessionEvent, SessionState};
use shm_ringbuf::Ringbuf;

#[test]
fn heartbeat_loss_drains_waiters_and_reconnects_on_a_fresh_ring() {
    let mut s = Session::new();
    assert_eq!(s.step(SessionEvent::Start), SessionAction::OpenSockets);
    assert_eq!(s.step(SessionEvent::SocketsOpen), SessionAction::SendHandshake);
    assert_eq!(s.step(SessionEvent::HandshakeAcked), SessionAction::Nothing);
    assert_eq!(s.state, SessionState::Running);

    let mut rb = Ringbuf::new(4096, false).unwrap();
    let mut reg = Registry::new();
    for id in 0..10u32 {
        rb.publish(id, &vec![id as u8; 10]).unwrap();
        reg.register(id, 5_000).unwrap();
    }

    assert_eq!(s.step(SessionEvent::ProbeMissed), SessionAction::Nothing);
    assert_eq!(s.step(SessionEvent::ProbeMissed), SessionAction::Nothing);
    assert_eq!(s.state, SessionState::Running);
    assert_eq!(s.step(SessionEvent::ProbeMissed), SessionAction::DrainDisconnected);
    assert_eq!(s.state, SessionState::Reconnecting);
    let mut drained = reg.drain();
    drained.sort();
    assert_eq!(drained, (0..10).collect::<Vec<u32>>());
    assert_eq!(reg.len(), 0);

    assert_eq!(s.step(SessionEvent::ReconnectTimer), SessionAction::SendHandshake);
    assert_eq!(s.step(SessionEvent::HandshakeAcked), SessionAction::Nothing);
    assert_eq!(s.state, SessionState::Running);
    let fresh = Ringbuf::new(4096, false).unwrap();
    assert_eq!((fresh.produce_offset(), fresh.consume_offset()), (0, 0));
}

#[test]
fn answered_probe_resets_the_count() {
    let mut s = Session::new();
    s.step(SessionEvent::Start);
    s.step(SessionEvent::SocketsOpen);
    s.step(SessionEvent::HandshakeAcked);
    s.step(SessionEvent::ProbeMissed);
    s.step(SessionEvent::ProbeMissed);
    s.step(SessionEvent::ProbeAnswered);
    assert_eq!(s.missed, 0);
    s.step(SessionEvent::ProbeMissed);
    s.step(SessionEvent::ProbeMissed);
    assert_eq!(s.state, SessionState::Running);
}

#[test]
fn shutdown_closes_from_any_state() {
    let mut s = Session::new();
    assert_eq!(s.step(SessionEvent::Shutdown), SessionAction::DrainClosed);
    assert_eq!(s.state, SessionState::Closed);
    assert_eq!(s.step(SessionEvent::Start), SessionAction::Nothing);
    assert_eq!(s.state, SessionState::Closed);
    let mut t = Session::new();
    t.step(SessionEvent::Start);
    assert_eq!(t.step(SessionEvent::SocketError), SessionAction::ScheduleReconnect);
    assert_eq!(t.state, SessionState::Reconnecting);
}
