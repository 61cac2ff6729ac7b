//! A user-space service supervisor library.
//!
//! The library holds the supervisor's logic: the unit model, the per-service
//! state machine, the service registry, the dependency resolver, and the
//! request/response model with its wire codec.  Process spawning, signalling,
//! sockets and timers are performed by an unverified shell that calls into
//! these functions and feeds their decisions back as plain values.

pub mod client;
pub mod codec;
pub mod daemon;
pub mod dispatch;
pub mod error;
pub mod ipc;
pub mod registry;
pub mod resolver;
pub mod service;
pub mod text;
pub mod unit;
