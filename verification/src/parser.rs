//! Incremental decoding of length-prefixed messages from a byte stream.

pub mod chunking;
pub mod framing;
pub mod message;
pub mod message_parser;

pub use message::Message;
pub use message_parser::MessageParser;
