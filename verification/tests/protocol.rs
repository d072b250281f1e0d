use coliseum::net::protocol::{endpoint_of, respond, Outcome};
use coliseum::net::view::Endpoint;

#[test]
fn endpoints_are_selected_by_exact_name() {
    assert_eq!(endpoint_of("GetAccount"), Some(Endpoint::GetAccount));
    assert_eq!(endpoint_of("CreateAccount"), Some(Endpoint::CreateAccount));
    assert_eq!(endpoint_of("CreateTransaction"), Some(Endpoint::CreateTransaction));
    assert_eq!(endpoint_of("getaccount"), None);
    assert_eq!(endpoint_of(""), None);
}

fn answer(outcome: Outcome) -> (u16, String) {
    let r = respond("me".to_string(), "you".to_string(), outcome);
    assert_eq!(r.origin_addr, "me");
    assert_eq!(r.target_addr, "you");
    (r.status, r.data)
}

#[test]
fn each_outcome_has_its_status_and_message() {
    assert_eq!(answer(Outcome::MalformedRequest), (405, "Request is not valid".to_string()));
    assert_eq!(answer(Outcome::MalformedData), (401, "Request Data is not valid".to_string()));
    assert_eq!(
        answer(Outcome::UnknownEndpoint("Foo".to_string())),
        (400, "Foo endpoint not found".to_string())
    );
    assert_eq!(
        answer(Outcome::AccountNotFound("42".to_string())),
        (402, "Account with ID: 42 not found".to_string())
    );
    assert_eq!(answer(Outcome::Served("{}".to_string())), (200, "{}".to_string()));
    assert_eq!(answer(Outcome::Failed("Internal Server Error".to_string())), (500, "Internal Server Error".to_string()));
}
