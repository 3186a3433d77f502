//! The administrator's pages.

pub mod newsletter;
pub mod password;
