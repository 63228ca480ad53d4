//! Client library for a chat-hub service: the wire protocol of its duplex
//! stream, and the correlation of commands with their replies.
pub mod id;
pub mod text;
pub mod error;
pub mod wire;
pub mod frame;
pub mod dispatch;
pub mod api;
