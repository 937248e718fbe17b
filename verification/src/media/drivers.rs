//! The transports that can serve a medium.

pub mod accounts;
pub mod http;
pub mod laws;
pub mod provide;
