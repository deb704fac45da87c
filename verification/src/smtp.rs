//! The SMTP session: replies, commands and the extensions a server offers.
pub mod wire;

pub mod reply;
pub use reply::Reply;
pub use reply::ReplyLine;

pub mod extension;
pub use extension::EhloResponse;
pub use extension::Extensions;
pub use extension::Ready;

pub mod sasl;

pub mod stuffing;

pub mod session;
pub use session::Smtp;

pub mod command;

pub mod mail;
