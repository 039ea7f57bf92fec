//! Core logic of a remote command queue: a snapshot of known clients and
//! queued commands, presence tracking, command-queue reconciliation, and the
//! token-checked ping/pong polling protocol that ties them together.
//!
//! Everything here is pure in-memory logic over the snapshot; persistence and
//! transport live outside the library and hand plain values in and out.

mod clock;
pub mod laws;
pub mod model;
pub mod presence;
pub mod protocol;
pub mod queue;

pub use model::Client;
pub use model::ClientView;
pub use model::Command;
pub use model::CommandView;
pub use model::Config;
pub use model::Ping;
pub use model::Pong;
pub use presence::add_or_update_client;
pub use protocol::AuthError;
pub use protocol::is_token_valid;
pub use protocol::ping;
pub use protocol::ping_now;
pub use protocol::pong;
pub use protocol::pong_now;
pub use presence::get_recent_clients;
pub use presence::RECENT_WINDOW_SECS;
pub use queue::DONE_WINDOW_SECS;
pub use queue::add_command_for_ip;
pub use queue::get_commands_queue_for_ip;
pub use queue::get_commands_done_for_ip;
pub use queue::update_commands_for_ip;
