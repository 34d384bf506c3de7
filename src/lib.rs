//! A distributed rate limiter whose quota lives in a shared key-value cache.
//!
//! The admission algorithm is a state machine: it is told what the cache
//! answered and says which cache operation to perform next, so that the
//! decisions are verified apart from the network.

pub mod keys;
pub mod decode;
pub mod window;
pub mod endpoint;
pub mod limiter;
pub mod laws;
