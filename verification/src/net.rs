//! The ledger network: accounts and transactions kept by each node, the
//! messages the nodes exchange, and the item-sharing peers.

pub mod ledger;
pub mod protocol;
pub mod view;
pub mod peer;
