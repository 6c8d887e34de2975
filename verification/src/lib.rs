//! A chat protocol and the decisions of a chat server and client, verified.
//!
//! - `json`: the JSON text of a message, as the encoder writes it and as the
//!   decoder reads it, with the facts that tie the two together.
//! - `reader`: the decoder's reader of that text.
//! - `text`: whitespace and trimming.
//! - `message`: the messages that clients and the server exchange, and their
//!   encoding and decoding.
//! - `registry`: the table of connected users.
//! - `session`: what the server decides on each step of a connection.
//! - `client`: what the client does with a line it reads or receives.

pub mod json;
pub mod reader;
pub mod text;
pub mod message;
pub mod registry;
pub mod session;
pub mod client;

pub use message::{decode, encode, ClientMessage, ServerMessage};
