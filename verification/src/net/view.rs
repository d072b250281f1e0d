//! The endpoints that a ledger node serves and the requests addressed to them.

use vstd::prelude::*;

pub use crate::net::protocol::{CreateAccountData, CreateTransactionData, GetAccountData};

verus! {

/// An endpoint of a ledger node.
#[derive(Clone, Copy, Debug, PartialEq, Eq, Structural)]
pub enum Endpoint {
    /// Reads an account.
    GetAccount,
    /// Opens a new account.
    CreateAccount,
    /// Draws up a transaction and checks it.
    CreateTransaction,
}

/// Which payload a request carries (`NoData`: none).
#[derive(Clone, Copy, Debug, PartialEq, Eq, Structural)]
pub enum RequestData {
    NoData,
    CreateAccountData,
    GetAccountData,
    CreateTransactionData,
}

/// A request to an endpoint, with the addresses of its sender and receiver.
pub struct Request {
    pub endpoint: Endpoint,
    pub orgin_addr: String,
    pub target_addr: String,
    pub data: RequestData,
}

} // verus!
