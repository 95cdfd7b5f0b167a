//! What the request handlers decide, apart from the transport.

pub mod files;
pub mod health;
pub mod search;
pub mod workspace;
