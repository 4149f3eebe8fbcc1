//! Decisions of the session lifecycle. The caller performs the action each
//! step returns (opening sockets, sending the descriptor, completing waiters,
//! arming the reconnect timer) and reports what happened as the next event.
use vstd::prelude::*;

verus! {

/// Consecutive missed heartbeat probes after which the connection is lost.
pub const MAX_MISSED_PROBES: u32 = 3;

#[derive(Debug, Clone, Copy, PartialEq, Eq, Structural)]
pub enum SessionState {
    Init,
    Connecting,
    Handshaking,
    Running,
    Reconnecting,
    Closed,
}

#[derive(Debug, Clone, Copy, PartialEq, Eq, Structural)]
pub enum SessionEvent {
    /// The first send, or an explicit start.
    Start,
    /// Both sockets are open.
    SocketsOpen,
    /// The peer acknowledged the descriptor handoff; the ring is ready.
    HandshakeAcked,
    /// The peer echoed a heartbeat probe.
    ProbeAnswered,
    /// A heartbeat probe went unanswered for a whole interval.
    ProbeMissed,
    /// A socket failed.
    SocketError,
    /// The reconnect interval elapsed.
    ReconnectTimer,
    /// Explicit shutdown.
    Shutdown,
}

#[derive(Debug, Clone, Copy, PartialEq, Eq, Structural)]
pub enum SessionAction {
    Nothing,
    /// Open the control and descriptor-passing sockets.
    OpenSockets,
    /// Create a fresh region and send its descriptor and geometry.
    SendHandshake,
    /// Complete all waiters with *Disconnected* and arm the reconnect timer.
    DrainDisconnected,
    /// Arm the reconnect timer.
    ScheduleReconnect,
    /// Complete all waiters with *Closed* and unmap the region.
    DrainClosed,
}

/// The lifecycle's transition: from a state, a count of consecutive missed
/// probes and an event, to the next state, count and action.
pub open spec fn transition(s: SessionState, missed: u32, ev: SessionEvent) -> (
    SessionState,
    u32,
    SessionAction,
) {
    match (s, ev) {
        (SessionState::Closed, _) => (SessionState::Closed, missed, SessionAction::Nothing),
        (_, SessionEvent::Shutdown) => (SessionState::Closed, 0, SessionAction::DrainClosed),
        (SessionState::Init, SessionEvent::Start) => (
            SessionState::Connecting,
            0,
            SessionAction::OpenSockets,
        ),
        (SessionState::Connecting, SessionEvent::SocketsOpen) => (
            SessionState::Handshaking,
            0,
            SessionAction::SendHandshake,
        ),
        (SessionState::Handshaking, SessionEvent::HandshakeAcked) => (
            SessionState::Running,
            0,
            SessionAction::Nothing,
        ),
        (SessionState::Running, SessionEvent::ProbeAnswered) => (
            SessionState::Running,
            0,
            SessionAction::Nothing,
        ),
        (SessionState::Running, SessionEvent::ProbeMissed) => if missed + 1 >= MAX_MISSED_PROBES {
            (SessionState::Reconnecting, 0, SessionAction::DrainDisconnected)
        } else {
            (SessionState::Running, (missed + 1) as u32, SessionAction::Nothing)
        },
        (SessionState::Running, SessionEvent::SocketError) => (
            SessionState::Reconnecting,
            0,
            SessionAction::DrainDisconnected,
        ),
        (SessionState::Connecting, SessionEvent::SocketError) => (
            SessionState::Reconnecting,
            0,
            SessionAction::ScheduleReconnect,
        ),
        (SessionState::Handshaking, SessionEvent::SocketError) => (
            SessionState::Reconnecting,
            0,
            SessionAction::ScheduleReconnect,
        ),
        (SessionState::Reconnecting, SessionEvent::ReconnectTimer) => (
            SessionState::Handshaking,
            0,
            SessionAction::SendHandshake,
        ),
        _ => (s, missed, SessionAction::Nothing),
    }
}

pub struct Session {
    pub state: SessionState,
    /// Consecutive heartbeat probes missed while running.
    pub missed: u32,
}

impl Session {
    pub open spec fn wf(&self) -> bool {
        self.missed < MAX_MISSED_PROBES
    }

    pub fn new() -> (r: Session)
        ensures
            r.state == SessionState::Init,
            r.missed == 0,
            r.wf(),
    {
        Session { state: SessionState::Init, missed: 0 }
    }

    /// Takes one event; returns what the caller is to do.
    pub fn step(&mut self, ev: SessionEvent) -> (r: SessionAction)
        requires
            old(self).wf(),
        ensures
            final(self).wf(),
            (final(self).state, final(self).missed, r) == transition(
                old(self).state,
                old(self).missed,
                ev,
            ),
    {
        let s = self.state;
        let m = self.missed;
        let (ns, nm, a) = match (s, ev) {
            (SessionState::Closed, _) => (SessionState::Closed, m, SessionAction::Nothing),
            (_, SessionEvent::Shutdown) => (SessionState::Closed, 0, SessionAction::DrainClosed),
            (SessionState::Init, SessionEvent::Start) => (
                SessionState::Connecting,
                0,
                SessionAction::OpenSockets,
            ),
            (SessionState::Connecting, SessionEvent::SocketsOpen) => (
                SessionState::Handshaking,
                0,
                SessionAction::SendHandshake,
            ),
            (SessionState::Handshaking, SessionEvent::HandshakeAcked) => (
                SessionState::Running,
                0,
                SessionAction::Nothing,
            ),
            (SessionState::Running, SessionEvent::ProbeAnswered) => (
                SessionState::Running,
                0,
                SessionAction::Nothing,
            ),
            (SessionState::Running, SessionEvent::ProbeMissed) => if m + 1 >= MAX_MISSED_PROBES {
                (SessionState::Reconnecting, 0, SessionAction::DrainDisconnected)
            } else {
                (SessionState::Running, m + 1, SessionAction::Nothing)
            },
            (SessionState::Running, SessionEvent::SocketError) => (
                SessionState::Reconnecting,
                0,
                SessionAction::DrainDisconnected,
            ),
            (SessionState::Connecting, SessionEvent::SocketError) => (
                SessionState::Reconnecting,
                0,
                SessionAction::ScheduleReconnect,
            ),
            (SessionState::Handshaking, SessionEvent::SocketError) => (
                SessionState::Reconnecting,
                0,
                SessionAction::ScheduleReconnect,
            ),
            (SessionState::Reconnecting, SessionEvent::ReconnectTimer) => (
                SessionState::Handshaking,
                0,
                SessionAction::SendHandshake,
            ),
            _ => (s, m, SessionAction::Nothing),
        };
        self.state = ns;
        self.missed = nm;
        a
    }
}

/// From a running session with no missed probe, two missed probes keep it
/// running and the third loses the connection: the session reconnects and
/// every waiter is completed with *Disconnected*.
pub proof fn law_third_missed_probe_disconnects()
    ensures
        ({
            let t1 = transition(SessionState::Running, 0, SessionEvent::ProbeMissed);
            let t2 = transition(t1.0, t1.1, SessionEvent::ProbeMissed);
            let t3 = transition(t2.0, t2.1, SessionEvent::ProbeMissed);
            &&& t1.0 == SessionState::Running && t1.2 == SessionAction::Nothing
            &&& t2.0 == SessionState::Running && t2.2 == SessionAction::Nothing
            &&& t3.0 == SessionState::Reconnecting && t3.2 == SessionAction::DrainDisconnected
        }),
{
}

/// A session leaves the running state only by draining its waiters, and
/// every shutdown drains them with *Closed*.
pub proof fn law_waiters_drained_on_teardown(s: SessionState, missed: u32, ev: SessionEvent)
    ensures
        ({
            let t = transition(s, missed, ev);
            &&& s == SessionState::Running && t.0 != SessionState::Running ==> (t.2
                == SessionAction::DrainDisconnected || t.2 == SessionAction::DrainClosed)
            &&& s != SessionState::Closed && ev == SessionEvent::Shutdown ==> t.0
                == SessionState::Closed && t.2 == SessionAction::DrainClosed
        }),
{
}

} // verus!
