//! The handlers of the engine, each for one concern.

pub mod following_handler;
pub mod leader_handler;
pub mod log_handler;
pub mod server_state_handler;
pub mod snapshot_handler;
