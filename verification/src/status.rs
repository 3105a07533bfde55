//! The decisions of the node's status service: which handler a request
//! goes to, what a handler asks of the rest of the node, and what the answer
//! to the client is. Sockets, TLS and the work itself are the caller's.

pub mod cached_regions;
pub mod cert;
pub mod config;
pub mod fail_points;
pub mod handlers;
pub mod metrics;
pub mod number;
pub mod profile;
pub mod query;
pub mod region;
pub mod response;
pub mod route;
pub mod server;
pub mod symbol;
pub mod text;
