//! A small SMTP submission client whose reply parser and command sequencer are
//! verified with Verus.
//!
//! The session works over any byte stream that implements [`ReadWrite`]. A
//! reply is parsed in place: the read buffer itself becomes the parsed
//! representation, and a [`smtp::Reply`] walks it without copying.
mod error;
pub use error::Error;
pub use error::MalformedError;
pub use error::ProtocolError;

mod buffer;
pub use buffer::Buffer;

mod stream;
pub use stream::ReadWrite;

pub mod script;
pub use script::Script;

pub mod text;

pub mod decimal;

pub mod smtp;
pub use smtp::Smtp;

pub mod message;
pub use message::Message;
