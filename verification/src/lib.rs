//! A point-to-point message bus over a named pipe: envelopes carrying an
//! integrity digest, newline framing, and the decisions of the publishing
//! and subscribing roles.

pub mod channel;
pub mod digest;
pub mod frame;
pub mod message;
pub mod publisher;
pub mod subscriber;
