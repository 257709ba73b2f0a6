//! STOMP 1.2 frames and messages: the frame grammar, its serialization, the
//! conversions between frames and typed messages, and the codecs and handshake
//! decisions of both ends of a connection.

pub mod buffer;
pub mod catalogue;
pub mod client;
pub mod delivery;
pub mod envelope;
pub mod error;
pub mod escape;
pub mod fields;
pub mod frame;
pub mod from_server;
pub mod grammar;
pub mod heartbeat;
pub mod laws;
pub mod message;
pub mod notation;
pub mod reread;
pub mod roundtrip;
pub mod scan;
pub mod server;
pub mod streaming;
pub mod text;
pub mod to_server;
pub mod wire;

pub use error::{IntegerError, StompError};
pub use message::{AckMode, FromServer, Message, ToServer};
