//! Core of a real-time multiplayer session server.
//!
//! The library holds the verified heart of the server: the wire codec for
//! the binary message protocol, the session registry that owns broadcast
//! and whisper delivery, the world state that owns position truth, and the
//! per-connection protocol state machine.  Socket handling, the async
//! runtime and configuration loading live outside the library and talk to
//! it through plain values.

pub mod codec;
pub mod config;
pub mod connection;
pub mod protocol;
pub mod session;
pub mod session_manager;
pub mod wire;
pub mod world;

pub use protocol::PlayerId;
