//! Proof-of-work nonce search: a worker-partitioned scan of the 64-bit nonce
//! space for a nonce whose score meets a target.
pub mod nonce;
pub mod partition;
pub mod score;
pub mod search;
