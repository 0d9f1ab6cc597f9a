//! Core of a terminal chat client.
//!
//! - `wire`: decoding protocol lines into messages, and encoding the lines
//!   the client sends.
//! - `conn`: one connection's identity, handshake phase and byte buffers.
//! - `session`: the set of connections, and the table that turns decoded
//!   messages and typed input into effects, in order, for the caller to
//!   carry out.
//! - `target`, `notifier`, `msg_area`, `exit_dialogue`, `utils`: where
//!   effects go, desktop notifications, scrollback layout, the quit prompt,
//!   and text helpers.
pub mod utils;
pub mod msg_area;
pub mod target;
pub mod notifier;
pub mod exit_dialogue;
pub mod wire;
pub mod conn;
pub mod session;
