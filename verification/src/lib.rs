//! A client core for the Redis serialization protocol that does no input or
//! output of its own.
//!
//! The library knows the wire format in both directions: it writes requests
//! into a buffer and reads replies out of the bytes that it is handed. A
//! transport, which is not part of this library, moves the bytes between
//! those buffers and a socket.
//!
//! * [`value`] is the model of a reply and the coercions on it.
//! * [`command`] builds requests and serializes them.
//! * [`frame`] decodes replies, and [`wire`] states the format as an encoder
//!   and proves that the two agree.
//! * [`connection`] is the state of one connection: single commands, batches
//!   with their stream of replies, subscriptions and cursor streams.

pub mod command;
pub mod connection;
pub mod data_type;
pub mod decimal;
pub mod error;
pub mod frame;
pub mod value;
pub mod wire;

pub use command::{Command, CommandList};
pub use connection::builder::MSetBuilder;
pub use connection::scan::{HScanBuilder, HScanStream, Scan, ScanBuilder, ScanStream};
pub use connection::stream::{Message, MessageStream, PMessage, PMessageStream, Pull, ResponseStream};
pub use connection::Connection;
pub use data_type::DataType;
pub use error::Error;
pub use value::Value;
