//! The RPC layer: requests and responses in envelopes, and the responder
//! that carries a request out on the core.
//!
//! The layer makes no assumption about how envelopes travel: a web
//! socket, an HTTP body or a local socket hands them in and sends the
//! answers back.

pub mod contacts;
pub mod envelope;
pub mod messages;
pub mod responder;

pub mod users;
