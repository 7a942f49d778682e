//! Core of a WebRTC signaling relay: rooms, admission, identifiers, the
//! message-targeting policy and the per-connection session state machine.
//! Sockets, timers and the broadcast hub are driven by the caller.

pub mod handlers;
pub mod ident;
pub mod registry;
pub mod room;
pub mod session;
pub mod types;

pub use handlers::{
    admin_metrics, admin_rooms, admit_connection, check_room, create_room, get_app_id,
    validate_api_key, validate_room_id,
};
pub use ident::generate_peer_id;
pub use registry::{generate_unique_slug, Registry};
pub use room::{RoomKey, RoomState};
pub use types::{
    AdminRoomsResponse, CreateRoomResponse, MetricsResponse, RoomInfo, SignalMessage,
    SignalPayload,
};
