//! A minimal real-time chat server core: a session registry of connected
//! users, bounded per-user outbound queues, and a broadcast router that fans
//! events out to every registered user without letting one slow recipient
//! affect the others.
//!
//! The registry, the queues, the broadcast fan-out and the per-connection
//! event dispatch are all verified here on plain values. Socket I/O, the wire
//! codec and the task scheduling live outside the library and drive it
//! through these functions.

pub mod event;
pub mod session;
pub mod actor;
pub mod laws;

pub use event::Event;
pub use actor::HandleOutcome;
pub use session::Session;
pub use session::DeliverOutcome;
pub use session::User;
