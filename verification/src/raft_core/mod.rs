//! The parts of the runtime that decide without doing I/O: the server
//! states, the state of a snapshot that is streaming in, and the running of
//! the commands of the engine on the store.

pub mod raft_core;
pub mod server_state;
pub mod streaming_state;

pub use server_state::ServerState;
pub use streaming_state::StreamingState;
