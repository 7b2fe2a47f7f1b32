//! A didactic proof-of-work blockchain: hashing, mining, a chain store with
//! strict linkage rules, chain validation, and the decisions of a gossiping
//! node, each stated as a contract and proved.

pub mod block;
pub mod blockchain;
pub mod digest;
pub mod error;
pub mod mining;
pub mod node;
pub mod p2p;
pub mod store;
pub mod text;
pub mod types;
pub mod validation;
