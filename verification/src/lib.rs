//! Coliseum: a small proof-of-work blockchain, the ledgers and messages of a network
//! of nodes, and storage nodes that share items, with the rules of each stated and
//! proved with Verus.

pub mod chain;
pub mod client;
pub mod items;
pub mod net;
pub mod outside;
pub mod registry;
pub mod store;
pub mod text;
