//! A small HTTP server core: request-line parsing, routing with a path
//! traversal guard, a sliding-window rate limiter, a visitor counter and
//! response framing, all on plain bytes.
pub mod bytes;
pub mod decimal;
pub mod rate_limit;
pub mod request;
pub mod response;
pub mod server;
pub mod visitors;

pub use decimal::format_timestamp;
