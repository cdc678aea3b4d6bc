//! Serving tiles: which sources answer a request, how their tiles merge, and in which
//! encoding the answer goes out.

pub mod accept;
pub mod cache;
pub mod codec;
pub mod server;
pub mod source;
pub mod tiles;
