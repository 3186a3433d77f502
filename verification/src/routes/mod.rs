//! What the request handlers decide, apart from the transport.

pub mod admin;
pub mod login;
pub mod newsletter;
