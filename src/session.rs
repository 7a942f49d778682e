//! The per-connection session: message targeting, inbound classification,
//! heartbeat supervision and the lifecycle `Joining -> Active -> Closing ->
//! Closed`. The caller owns the socket, the hub subscription and the timers; it
//! feeds each event to the session and carries out the actions it returns.

use vstd::prelude::*;
use crate::room::{AdmissionError, RegisterError};
use crate::types::{
    is_directed, is_error_frame, is_join_of, is_leave_of, is_server_ping, is_welcome_for,
    target_of, SignalMessage, SignalPayload,
};

verus! {

/// Period of the server's `ping` frames, in milliseconds.
pub const HEARTBEAT_INTERVAL_MS: u64 = 15000;

/// Silence after the last `pong` beyond which a peer counts as dead, in
/// milliseconds.
pub const HEARTBEAT_TIMEOUT_MS: u64 = 30000;

/// Pause after a `leave` is published before the room is checked for
/// emptiness, in milliseconds.
pub const LEAVE_SETTLE_MS: u64 = 50;

/// The targeting policy: whether a hub message is delivered to the session of
/// `peer`. Never an echo of its own messages, never a heartbeat frame, and a
/// directed payload only to its addressee.
pub open spec fn forwards(m: SignalMessage, peer: Seq<char>) -> bool {
    &&& m.from@ != peer
    &&& !(m.payload is Ping || m.payload is Pong)
    &&& (is_directed(m.payload) ==> target_of(m.payload) == peer)
}

/// More than the timeout has passed since the last `pong`.
pub open spec fn timed_out(last_pong_ms: u64, now_ms: u64) -> bool {
    now_ms > last_pong_ms && now_ms - last_pong_ms > HEARTBEAT_TIMEOUT_MS
}

/// Applies the targeting policy to a hub message for the session of `peer_id`.
pub fn should_forward(msg: &SignalMessage, peer_id: &String) -> (r: bool)
    ensures
        r == forwards(*msg, peer_id@),
{
    if msg.from == *peer_id {
        return false;
    }
    match &msg.payload {
        SignalPayload::Offer { to, .. } => *to == *peer_id,
        SignalPayload::Answer { to, .. } => *to == *peer_id,
        SignalPayload::Ice { to, .. } => *to == *peer_id,
        SignalPayload::Ping => false,
        SignalPayload::Pong => false,
        _ => true,
    }
}

/// Whether the heartbeat of a peer whose last `pong` came at `last_pong_ms`
/// has expired at `now_ms`.
pub fn heartbeat_expired(last_pong_ms: u64, now_ms: u64) -> (r: bool)
    ensures
        r == timed_out(last_pong_ms, now_ms),
{
    now_ms > last_pong_ms && now_ms - last_pong_ms > HEARTBEAT_TIMEOUT_MS
}

/// The machine-readable code sent in the `error` frame for a refused
/// connection.
pub open spec fn rejection_code(e: AdmissionError) -> Seq<char> {
    match e {
        AdmissionError::PasswordRequired => "password_required"@,
        AdmissionError::PasswordInvalid => "invalid_password"@,
        AdmissionError::RoomFull => "room_full"@,
        AdmissionError::NotFound => "not_found"@,
    }
}

/// The human-readable text sent with each rejection code.
pub open spec fn rejection_message(e: AdmissionError) -> Seq<char> {
    match e {
        AdmissionError::PasswordRequired => "This room requires a password"@,
        AdmissionError::PasswordInvalid => "Incorrect password"@,
        AdmissionError::RoomFull => "Room is at maximum capacity"@,
        AdmissionError::NotFound => "Room not found"@,
    }
}

/// The `error` frame sent over the socket before it is closed, for a
/// connection refused by the admission check.
pub fn rejection_frame(e: AdmissionError) -> (r: SignalMessage)
    ensures
        is_error_frame(r, rejection_code(e)),
        r.payload matches SignalPayload::Error { message, .. } && message@ == rejection_message(e),
{
    proof {
        reveal_strlit("password_required");
        reveal_strlit("invalid_password");
        reveal_strlit("room_full");
        reveal_strlit("not_found");
        reveal_strlit("This room requires a password");
        reveal_strlit("Incorrect password");
        reveal_strlit("Room is at maximum capacity");
        reveal_strlit("Room not found");
    }
    match e {
        AdmissionError::PasswordRequired => SignalMessage::error(
            "password_required",
            "This room requires a password",
        ),
        AdmissionError::PasswordInvalid => SignalMessage::error(
            "invalid_password",
            "Incorrect password",
        ),
        AdmissionError::RoomFull => SignalMessage::error(
            "room_full",
            "Room is at maximum capacity",
        ),
        AdmissionError::NotFound => SignalMessage::error("not_found", "Room not found"),
    }
}

/// Lifecycle of a session.
#[derive(Clone, Copy, Debug, PartialEq, Eq, Structural)]
pub enum Phase {
    Joining,
    Active,
    Closing,
    Closed,
}

/// What the caller does next on behalf of a session.
#[derive(Clone, Debug, PartialEq, Eq)]
pub enum Action {
    /// Write the frame to this session's socket.
    Send(SignalMessage),
    /// Publish the frame to the room's hub.
    Publish(SignalMessage),
    /// Stop the inbound duty and close the socket.
    Close,
}

/// State of one connection session.
#[derive(Clone, Debug)]
pub struct Session {
    pub peer_id: String,
    pub phase: Phase,
    pub last_pong_ms: u64,
}

impl Session {
    /// A session for `peer_id`, started at `now_ms`, waiting for its
    /// registration.
    pub fn new(peer_id: String, now_ms: u64) -> (r: Session)
        ensures
            r.peer_id == peer_id,
            r.phase == Phase::Joining,
            r.last_pong_ms == now_ms,
    {
        Session { peer_id, phase: Phase::Joining, last_pong_ms: now_ms }
    }

    /// The outcome of the registration. On success the session becomes active,
    /// greets its peer with a `welcome` and announces it with a `join`;
    /// otherwise it closes without a `welcome`.
    pub fn on_registered(&mut self, result: Result<(), RegisterError>) -> (r: Vec<Action>)
        requires
            old(self).phase == Phase::Joining,
        ensures
            final(self).peer_id == old(self).peer_id,
            final(self).last_pong_ms == old(self).last_pong_ms,
            result is Ok ==> {
                &&& final(self).phase == Phase::Active
                &&& r@.len() == 2
                &&& r@[0] matches Action::Send(m) && is_welcome_for(m, old(self).peer_id@)
                &&& r@[1] matches Action::Publish(m) && is_join_of(m, old(self).peer_id@)
            },
            result is Err ==> final(self).phase == Phase::Closed && r@.len() == 0,
    {
        let mut out: Vec<Action> = Vec::new();
        match result {
            Ok(()) => {
                self.phase = Phase::Active;
                out.push(Action::Send(SignalMessage::welcome(&self.peer_id)));
                out.push(Action::Publish(SignalMessage::join(&self.peer_id)));
            },
            Err(_) => {
                self.phase = Phase::Closed;
            },
        }
        out
    }

    /// A heartbeat tick at `now_ms`: an active session sends a `ping`, then,
    /// if its peer has been silent past the timeout, asks for the connection
    /// to be closed and moves to `Closing`.
    pub fn on_tick(&mut self, now_ms: u64) -> (r: Vec<Action>)
        ensures
            final(self).peer_id == old(self).peer_id,
            final(self).last_pong_ms == old(self).last_pong_ms,
            old(self).phase != Phase::Active ==> *final(self) == *old(self) && r@.len() == 0,
            old(self).phase == Phase::Active ==> {
                &&& r@.len() >= 1
                &&& r@[0] matches Action::Send(m) && is_server_ping(m)
                &&& timed_out(old(self).last_pong_ms, now_ms) ==> {
                    &&& r@.len() == 2
                    &&& r@[1] is Close
                    &&& final(self).phase == Phase::Closing
                }
                &&& !timed_out(old(self).last_pong_ms, now_ms) ==> {
                    &&& r@.len() == 1
                    &&& final(self).phase == Phase::Active
                }
            },
    {
        let mut out: Vec<Action> = Vec::new();
        match self.phase {
            Phase::Active => {
                out.push(Action::Send(SignalMessage::ping()));
                if heartbeat_expired(self.last_pong_ms, now_ms) {
                    out.push(Action::Close);
                    self.phase = Phase::Closing;
                }
            },
            _ => {},
        }
        out
    }

    /// A message received from the room's hub: the copy to write to this
    /// session's socket, if the targeting policy lets it through.
    pub fn on_hub_message(&self, msg: &SignalMessage) -> (r: Option<SignalMessage>)
        ensures
            r is Some <==> (self.phase == Phase::Active && forwards(*msg, self.peer_id@)),
            r is Some ==> r->0 == *msg,
    {
        if self.phase == Phase::Active && should_forward(msg, &self.peer_id) {
            Some(msg.duplicate())
        } else {
            None
        }
    }

    /// A decoded frame from this session's peer, received at `now_ms`. A
    /// `pong` refreshes the liveness timestamp, a `hello` is only noted, and
    /// anything else is stamped with this peer's id and returned for
    /// publication to the hub.
    pub fn on_frame(&mut self, msg: SignalMessage, now_ms: u64) -> (r: Option<SignalMessage>)
        ensures
            final(self).peer_id == old(self).peer_id,
            final(self).phase == old(self).phase,
            old(self).phase != Phase::Active ==> *final(self) == *old(self) && r is None,
            old(self).phase == Phase::Active ==> {
                &&& msg.payload is Pong ==> final(self).last_pong_ms == now_ms && r is None
                &&& msg.payload is Hello ==> *final(self) == *old(self) && r is None
                &&& !(msg.payload is Pong) && !(msg.payload is Hello) ==> {
                    &&& *final(self) == *old(self)
                    &&& r == Some(SignalMessage { from: old(self).peer_id, payload: msg.payload })
                }
            },
    {
        if self.phase != Phase::Active {
            return None;
        }
        match msg.payload {
            SignalPayload::Pong => {
                self.last_pong_ms = now_ms;
                None
            },
            SignalPayload::Hello { .. } => None,
            payload => Some(SignalMessage { from: self.peer_id.clone(), payload }),
        }
    }

    /// The outbound duty failed: a write to the socket failed, or the hub
    /// reported that this subscriber fell behind and lost messages. Either is
    /// terminal: an active session moves to `Closing` and asks for the
    /// connection to be closed, so that the inbound duty stops too.
    pub fn on_outbound_failed(&mut self) -> (r: Vec<Action>)
        ensures
            final(self).peer_id == old(self).peer_id,
            final(self).last_pong_ms == old(self).last_pong_ms,
            old(self).phase == Phase::Active ==> final(self).phase == Phase::Closing && r@.len()
                == 1 && r@[0] is Close,
            old(self).phase != Phase::Active ==> *final(self) == *old(self) && r@.len() == 0,
    {
        let mut out: Vec<Action> = Vec::new();
        if self.phase == Phase::Active {
            self.phase = Phase::Closing;
            out.push(Action::Close);
        }
        out
    }

    /// The inbound duty ended, for whatever cause. A session that was active
    /// or closing becomes closed and returns the `leave` frame to publish once
    /// its peer is deregistered.
    pub fn close(&mut self) -> (r: Option<SignalMessage>)
        ensures
            final(self).peer_id == old(self).peer_id,
            final(self).last_pong_ms == old(self).last_pong_ms,
            final(self).phase == Phase::Closed,
            (old(self).phase == Phase::Active || old(self).phase == Phase::Closing) <==> r is Some,
            r is Some ==> is_leave_of(r->0, old(self).peer_id@),
    {
        let was_live = self.phase == Phase::Active || self.phase == Phase::Closing;
        self.phase = Phase::Closed;
        if was_live {
            Some(SignalMessage::leave(&self.peer_id))
        } else {
            None
        }
    }
}

/// A `join` is delivered to the session of every peer except the one who
/// joined, which never sees its own announcement.
pub proof fn lemma_join_reaches_every_other_peer(m: SignalMessage, joiner: Seq<char>, peer: Seq<char>)
    requires
        is_join_of(m, joiner),
    ensures
        forwards(m, peer) <==> peer != joiner,
{
}

/// A directed payload (`offer`, `answer`, `ice`) is delivered only to the
/// session of its addressee, and to it whenever it did not send it.
pub proof fn lemma_directed_reaches_only_target(m: SignalMessage, peer: Seq<char>)
    requires
        is_directed(m.payload),
    ensures
        forwards(m, peer) ==> peer == target_of(m.payload),
        peer == target_of(m.payload) && m.from@ != peer ==> forwards(m, peer),
{
}

/// Once a peer's silence has passed the timeout, it stays past it: every
/// later tick finds the heartbeat expired.
pub proof fn lemma_silence_stays_expired(last_pong_ms: u64, crossed_ms: u64, tick_ms: u64)
    requires
        timed_out(last_pong_ms, crossed_ms),
        crossed_ms <= tick_ms,
    ensures
        timed_out(last_pong_ms, tick_ms),
{
}

/// With ticks at `start + k * HEARTBEAT_INTERVAL_MS`, some tick falls within
/// one interval after any instant from `start` on.
pub proof fn lemma_tick_within_one_interval(start: int, crossed: int)
    requires
        start <= crossed,
    ensures
        exists|k: nat|
            crossed <= #[trigger] (start + k * HEARTBEAT_INTERVAL_MS) < crossed
                + HEARTBEAT_INTERVAL_MS,
{
    let i = HEARTBEAT_INTERVAL_MS as int;
    let d = crossed - start;
    let k = (d + i - 1) / i;
    assert(k * i <= d + i - 1 && d + i - 1 < k * i + i) by (nonlinear_arith)
        requires
            i > 0,
            d >= 0,
            k == (d + i - 1) / i,
    ;
    assert(k >= 0) by (nonlinear_arith)
        requires
            i > 0,
            d >= 0,
            k == (d + i - 1) / i,
    ;
    let kn = k as nat;
    assert(crossed <= start + kn * HEARTBEAT_INTERVAL_MS < crossed + HEARTBEAT_INTERVAL_MS);
}

/// A peer whose silence crosses the timeout at `crossed_ms` is found expired
/// by a heartbeat tick (ticks fall at `start_ms + k * HEARTBEAT_INTERVAL_MS`)
/// less than one interval later; that tick closes its session.
pub proof fn lemma_timeout_detected_within_one_interval(
    last_pong_ms: u64,
    start_ms: u64,
    crossed_ms: u64,
)
    requires
        timed_out(last_pong_ms, crossed_ms),
        start_ms <= crossed_ms,
        crossed_ms + HEARTBEAT_INTERVAL_MS <= u64::MAX,
    ensures
        exists|k: nat|
            {
                let tick = #[trigger] (start_ms + k * HEARTBEAT_INTERVAL_MS);
                &&& crossed_ms <= tick < crossed_ms + HEARTBEAT_INTERVAL_MS
                &&& timed_out(last_pong_ms, tick as u64)
            },
{
    lemma_tick_within_one_interval(start_ms as int, crossed_ms as int);
    let k = choose|k: nat|
        crossed_ms <= #[trigger] (start_ms + k * HEARTBEAT_INTERVAL_MS) < crossed_ms
            + HEARTBEAT_INTERVAL_MS;
    let tick = start_ms + k * HEARTBEAT_INTERVAL_MS;
    lemma_silence_stays_expired(last_pong_ms, crossed_ms, tick as u64);
}

} // verus!
