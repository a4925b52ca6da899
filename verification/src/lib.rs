//! A minimal codec for HTTP/1.1-shaped messages.
//!
//! The library turns a raw byte sequence into a structured [`Message`] —
//! a request line or status line, a case-insensitive header mapping and an
//! optional `Content-Length`-framed body — and turns a [`Message`] back into
//! wire bytes.  Parsing either produces a complete message or reports one of
//! a closed set of structural errors; serialization is total.  Both are
//! specified against a mathematical model of the wire format in [`model`],
//! and the round trip between them is proved in [`laws`].

pub mod code;
pub mod encoding;
pub mod error;
pub mod headers;
pub mod laws;
pub mod message;
pub mod method;
pub mod model;
pub mod parse;
pub mod text;
pub mod text_exec;

pub use code::ResponseCode;
pub use error::ParsingError;
pub use headers::Headers;
pub use message::{Message, MessageKind};
pub use method::Method;
