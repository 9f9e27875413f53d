//! The core of an eventually-consistent membership and state-dissemination
//! layer: versioned per-node key/value state, a peer table with round-robin
//! and randomised target selection, and the three-phase gossip exchange
//! (digest, requests and diffs) that reconciles them.
pub mod address;
pub mod detector;
pub mod gossip;
pub mod node;
pub mod peers;
pub mod utils;
pub mod value;
