//! A proof-of-authority blockchain core: blocks and their binary header
//! encoding, Merkle roots, chain validity, round-robin proposer selection,
//! a transaction pool and the decision logic of a node.

pub mod text;
pub mod crypto;
pub mod errors;
pub mod transaction;
pub mod block;
pub mod signing;
pub mod clock;
pub mod poa;
pub mod seen;
pub mod mempool;
pub mod message;
pub mod orphans;
pub mod node;
pub mod cli;
pub mod admin;
pub mod transport;
pub mod commands;
pub mod laws;
