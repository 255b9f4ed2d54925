//! A WebSocket client library whose protocol logic is verified with Verus.
//!
//! The crate holds everything about the protocol that can be decided on plain values: the frame
//! format, the splitting of messages into frames and their reassembly, the opening and the closing
//! handshake, the state of the two halves of a connection, and the buffer in front of a frame
//! sink. Sockets, TLS sessions and tasks are driven from outside: each poll of a socket yields an
//! event which is handed to the state machines here, and the action that comes back is performed.

pub mod batched;
pub mod boundary;
pub mod error;
pub mod secure;
pub mod websocket;

pub use crate::error::WebSocketError;
pub use crate::websocket::builder::WebSocketBuilder;
pub use crate::websocket::frame::Frame;
pub use crate::websocket::message::Message;
pub use crate::websocket::ops;
pub use crate::websocket::split::read::WebSocketReadHalf;
pub use crate::websocket::split::write::WebSocketWriteHalf;
pub use crate::websocket::WebSocket;
