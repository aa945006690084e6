//! The message-routing core of a chat relay: the gates an inbound message
//! passes (login, rate limit, content, ban), broadcast to every session, and
//! private delivery to the first session of an identity that takes it.

pub mod error;
pub mod laws;
pub mod moderation;
pub mod ratelimit;
pub mod registry;
pub mod server;
pub mod session;
pub mod validator;
