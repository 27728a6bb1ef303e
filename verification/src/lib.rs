//! A server-side implementation of a game's network wire protocol: a
//! byte-exact codec for variable-length integers and length-prefixed
//! strings, connection classification into two protocol generations, and
//! the per-connection handshake/status/login state machine.

pub mod classic;
pub mod codec;
pub mod config;
pub mod reader;
pub mod session;
pub mod status;
pub mod types;
pub mod util;
