//! Wire-level message model and the response records of the room API.

use vstd::prelude::*;

verus! {

/// The body of a signaling frame, tagged by its `type`.
#[derive(Clone, Debug, PartialEq, Eq)]
pub enum SignalPayload {
    /// Sent by a client on connect, with its version information.
    Hello { version: String, client: String },
    /// Sent by the server once the peer is registered, with the assigned id.
    Welcome { version: String, peer_id: String },
    Join { peer_id: String },
    Leave { peer_id: String },
    Offer { to: String, sdp: String },
    Answer { to: String, sdp: String },
    Ice { to: String, candidate: String },
    Ping,
    Pong,
    Error { code: String, message: String },
}

/// One signaling frame: the sender's id and the payload.
#[derive(Clone, Debug, PartialEq, Eq)]
pub struct SignalMessage {
    pub from: String,
    pub payload: SignalPayload,
}

/// Result of a successful room creation.
#[derive(Clone, Debug, PartialEq, Eq)]
pub struct CreateRoomResponse {
    pub room: String,
    pub password: Option<String>,
}

/// One line of the administrative room listing.
#[derive(Clone, Debug, PartialEq, Eq)]
pub struct RoomInfo {
    pub id: String,
    pub app_id: String,
    pub peers: usize,
    pub capacity: usize,
}

/// The administrative room listing.
#[derive(Clone, Debug, PartialEq, Eq)]
pub struct AdminRoomsResponse {
    pub rooms: Vec<RoomInfo>,
    pub total_rooms: usize,
    pub max_rooms: usize,
}

/// Aggregate counters of the server.
#[derive(Clone, Debug, PartialEq, Eq)]
pub struct MetricsResponse {
    pub active_rooms: usize,
    pub active_connections: usize,
    pub rooms_created_today: u64,
    pub connections_today: u64,
    pub uptime_seconds: u64,
}

/// Sender id stamped on frames that the server itself originates.
pub const SERVER_SENDER: &'static str = "server";

/// Protocol version announced in `welcome` frames.
pub const PROTOCOL_VERSION: &'static str = "0.3.0";

/// True when the payload is addressed to a single peer.
pub open spec fn is_directed(p: SignalPayload) -> bool {
    p is Offer || p is Answer || p is Ice
}

/// The addressee of a directed payload.
pub open spec fn target_of(p: SignalPayload) -> Seq<char> {
    match p {
        SignalPayload::Offer { to, .. } => to@,
        SignalPayload::Answer { to, .. } => to@,
        SignalPayload::Ice { to, .. } => to@,
        _ => Seq::empty(),
    }
}

impl SignalPayload {
    /// A copy of the payload.
    pub fn duplicate(&self) -> (r: SignalPayload)
        ensures
            r == *self,
    {
        match self {
            SignalPayload::Hello { version, client } => SignalPayload::Hello {
                version: version.clone(),
                client: client.clone(),
            },
            SignalPayload::Welcome { version, peer_id } => SignalPayload::Welcome {
                version: version.clone(),
                peer_id: peer_id.clone(),
            },
            SignalPayload::Join { peer_id } => SignalPayload::Join { peer_id: peer_id.clone() },
            SignalPayload::Leave { peer_id } => SignalPayload::Leave { peer_id: peer_id.clone() },
            SignalPayload::Offer { to, sdp } => SignalPayload::Offer {
                to: to.clone(),
                sdp: sdp.clone(),
            },
            SignalPayload::Answer { to, sdp } => SignalPayload::Answer {
                to: to.clone(),
                sdp: sdp.clone(),
            },
            SignalPayload::Ice { to, candidate } => SignalPayload::Ice {
                to: to.clone(),
                candidate: candidate.clone(),
            },
            SignalPayload::Ping => SignalPayload::Ping,
            SignalPayload::Pong => SignalPayload::Pong,
            SignalPayload::Error { code, message } => SignalPayload::Error {
                code: code.clone(),
                message: message.clone(),
            },
        }
    }
}

/// A `welcome` frame from the server that assigns `peer`.
pub open spec fn is_welcome_for(m: SignalMessage, peer: Seq<char>) -> bool {
    &&& m.from@ == SERVER_SENDER@
    &&& m.payload matches SignalPayload::Welcome { version, peer_id }
    &&& version@ == PROTOCOL_VERSION@
    &&& peer_id@ == peer
}

/// A `join` frame announcing `peer`, sent in its name.
pub open spec fn is_join_of(m: SignalMessage, peer: Seq<char>) -> bool {
    &&& m.from@ == peer
    &&& m.payload matches SignalPayload::Join { peer_id }
    &&& peer_id@ == peer
}

/// A `leave` frame announcing that `peer` left, sent in its name.
pub open spec fn is_leave_of(m: SignalMessage, peer: Seq<char>) -> bool {
    &&& m.from@ == peer
    &&& m.payload matches SignalPayload::Leave { peer_id }
    &&& peer_id@ == peer
}

/// A `ping` frame from the server.
pub open spec fn is_server_ping(m: SignalMessage) -> bool {
    m.from@ == SERVER_SENDER@ && m.payload is Ping
}

/// An `error` frame from the server with the given code.
pub open spec fn is_error_frame(m: SignalMessage, code: Seq<char>) -> bool {
    &&& m.from@ == SERVER_SENDER@
    &&& m.payload matches SignalPayload::Error { code: c, .. }
    &&& c@ == code
}

impl SignalMessage {
    /// A copy of the message.
    pub fn duplicate(&self) -> (r: SignalMessage)
        ensures
            r == *self,
    {
        SignalMessage { from: self.from.clone(), payload: self.payload.duplicate() }
    }

    /// A `join` frame announcing `peer_id`.
    pub fn join(peer_id: &String) -> (r: SignalMessage)
        ensures
            is_join_of(r, peer_id@),
    {
        SignalMessage { from: peer_id.clone(), payload: SignalPayload::Join { peer_id: peer_id.clone() } }
    }

    /// A `leave` frame announcing that `peer_id` left.
    pub fn leave(peer_id: &String) -> (r: SignalMessage)
        ensures
            is_leave_of(r, peer_id@),
    {
        SignalMessage {
            from: peer_id.clone(),
            payload: SignalPayload::Leave { peer_id: peer_id.clone() },
        }
    }

    /// A `ping` frame from the server.
    pub fn ping() -> (r: SignalMessage)
        ensures
            is_server_ping(r),
    {
        SignalMessage { from: SERVER_SENDER.to_owned(), payload: SignalPayload::Ping }
    }

    /// An `error` frame from the server.
    pub fn error(code: &str, message: &str) -> (r: SignalMessage)
        ensures
            is_error_frame(r, code@),
            r.payload matches SignalPayload::Error { message: m, .. } && m@ == message@,
    {
        SignalMessage {
            from: SERVER_SENDER.to_owned(),
            payload: SignalPayload::Error { code: code.to_owned(), message: message.to_owned() },
        }
    }

    /// The `welcome` frame that tells a peer its assigned id.
    pub fn welcome(peer_id: &String) -> (r: SignalMessage)
        ensures
            is_welcome_for(r, peer_id@),
    {
        SignalMessage {
            from: SERVER_SENDER.to_owned(),
            payload: SignalPayload::Welcome {
                version: PROTOCOL_VERSION.to_owned(),
                peer_id: peer_id.clone(),
            },
        }
    }
}

} // verus!
