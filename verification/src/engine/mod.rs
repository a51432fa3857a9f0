//! The engine: the deterministic part of a raft node.
//!
//! The engine changes the raft state and emits commands for a runtime to
//! run, in the order of emission. It does no I/O itself.

pub mod command;
pub mod engine_config;
pub mod engine_impl;
pub mod engine_output;
pub mod handler;
pub mod model;
pub mod progress;
pub mod timer;

pub use command::Command;
pub use engine_config::EngineConfig;
pub use engine_impl::Engine;
pub use engine_output::EngineOutput;
pub use engine_output::MetricsChangeFlags;
pub use model::EngineModel;
