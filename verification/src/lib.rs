//! Host side of a view-only LAN desktop streaming service: the framed wire
//! protocol, the encrypted screenshot archive and the decisions that the
//! service and the capture agent take around them.

pub mod capture;
pub mod config;
pub mod paths;
pub mod protocol;
pub mod session;
pub mod snapshots;
pub mod text;

pub use config::Config;
pub use paths::{config_path, password_hash_path};
pub use protocol::{
    frame_payload, read_message, write_message, AGENT_SNAPSHOT, AGENT_START, AGENT_STOP, AUTH,
    AUTH_FAILURE, AUTH_SUCCESS, BUSY, DISCONNECT, FRAME, MAX_PAYLOAD, PING, PONG, SCREEN_INFO,
    SNAPSHOT_ERROR, SNAPSHOT_FRAME, SNAPSHOT_GET, SNAPSHOT_LIST, SNAPSHOT_LIST_REPLY, VERSION,
};
