//! The messages between ledger clients and nodes, and how a node answers them.

use vstd::prelude::*;

use crate::net::view::Endpoint;
use crate::text::same_text;

verus! {

/// A node's answer: the two addresses, the payload and an HTTP-like status.
pub struct Response {
    pub origin_addr: String,
    pub target_addr: String,
    pub data: String,
    pub status: u16,
}

/// A request: the endpoint's name, the two addresses and a JSON payload.
pub struct Request {
    pub endpoint: String,
    pub origin_addr: String,
    pub target_addr: String,
    pub data: String,
}

/// The payload that opens an account.
pub struct CreateAccountData {
    pub username: String,
}

/// The payload that reads an account.
pub struct GetAccountData {
    pub account_id: String,
}

/// The payload that asks for a transaction; the amount is decimal text.
pub struct CreateTransactionData {
    pub from_id: String,
    pub to_id: String,
    pub amount: String,
}

/// The endpoint that a request's name selects.
pub open spec fn endpoint_named(name: Seq<char>) -> Option<Endpoint> {
    if name == "GetAccount"@ {
        Some(Endpoint::GetAccount)
    } else if name == "CreateAccount"@ {
        Some(Endpoint::CreateAccount)
    } else if name == "CreateTransaction"@ {
        Some(Endpoint::CreateTransaction)
    } else {
        None
    }
}

/// The endpoint that a request's name selects, if any.
pub fn endpoint_of(name: &str) -> (endpoint: Option<Endpoint>)
    ensures
        endpoint == endpoint_named(name@),
{
    if same_text(name, "GetAccount") {
        Some(Endpoint::GetAccount)
    } else if same_text(name, "CreateAccount") {
        Some(Endpoint::CreateAccount)
    } else if same_text(name, "CreateTransaction") {
        Some(Endpoint::CreateTransaction)
    } else {
        None
    }
}

/// How the handling of a request came out.
pub enum Outcome {
    /// The request itself could not be read.
    MalformedRequest,
    /// The request's payload could not be read.
    MalformedData,
    /// No endpoint has the request's name.
    UnknownEndpoint(String),
    /// No account has the identifier asked for.
    AccountNotFound(String),
    /// The request was served; the payload of the answer.
    Served(String),
    /// The node failed; the error message.
    Failed(String),
}

/// The status code of an outcome.
pub open spec fn status_of(outcome: Outcome) -> u16 {
    match outcome {
        Outcome::MalformedRequest => 405,
        Outcome::MalformedData => 401,
        Outcome::UnknownEndpoint(_) => 400,
        Outcome::AccountNotFound(_) => 402,
        Outcome::Served(_) => 200,
        Outcome::Failed(_) => 500,
    }
}

/// The payload of the answer to an outcome.
pub open spec fn message_of(outcome: Outcome) -> Seq<char> {
    match outcome {
        Outcome::MalformedRequest => "Request is not valid"@,
        Outcome::MalformedData => "Request Data is not valid"@,
        Outcome::UnknownEndpoint(endpoint) => endpoint@ + " endpoint not found"@,
        Outcome::AccountNotFound(account_id) => "Account with ID: "@ + account_id@ + " not found"@,
        Outcome::Served(data) => data@,
        Outcome::Failed(error) => error@,
    }
}

/// The answer of the node at `origin_addr` to the peer at `target_addr` for an outcome.
pub fn respond(origin_addr: String, target_addr: String, outcome: Outcome) -> (response: Response)
    ensures
        response.origin_addr == origin_addr,
        response.target_addr == target_addr,
        response.status == status_of(outcome),
        response.data@ == message_of(outcome),
{
    let (data, status): (String, u16) = match outcome {
        Outcome::MalformedRequest => ("Request is not valid".to_owned(), 405),
        Outcome::MalformedData => ("Request Data is not valid".to_owned(), 401),
        Outcome::UnknownEndpoint(endpoint) => {
            let mut text = endpoint;
            text.append(" endpoint not found");
            (text, 400)
        },
        Outcome::AccountNotFound(account_id) => {
            let mut text = "Account with ID: ".to_owned();
            text.append(account_id.as_str());
            text.append(" not found");
            (text, 402)
        },
        Outcome::Served(data) => (data, 200),
        Outcome::Failed(error) => (error, 500),
    };
    Response { origin_addr, target_addr, data, status }
}

} // verus!
