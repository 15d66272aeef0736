//! Wire-format codec and protocol plugin management for a game server.
//!
//! The crate has two halves: the codec — variable-length integer encoding
//! and a cursor-tracked, bounds-checked packet buffer with length-prefixed
//! UTF-8 string fields — and the protocol plugin manager, which orders
//! loaded plugins by priority and chains packet dispatch across the default
//! handler and every plugin.

pub mod buffer;
pub mod codec;
pub mod errors;
pub mod manager;
pub mod plugin;
