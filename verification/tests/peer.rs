use coliseum::client::{client_request, Action, Client, Entity};
use coliseum::net::peer::{Node, RegisterNodeResponse};
use coliseum::registry::AddressSet;

fn peer() -> Node {
    Node {
        addr: "127.0.0.1:5001".to_string(),
        register_addr: "http://127.0.0.1:5000".to_string(),
        nodes: AddressSet::new(),
        storage: Vec::new(),
    }
}

fn known(n: &AddressSet) -> Vec<String> {
    (0..n.len()).map(|i| n.get(i).clone()).collect()
}

#[test]
fn register_endpoint_appends_the_path() {
    assert_eq!(peer().register_node_endpoint(), "http://127.0.0.1:5000/register/node");
}

#[test]
fn registration_adds_the_endpoint_then_the_listed_peers() {
    let mut p = peer();
    let endpoint = p.register_node_endpoint();
    let answer = RegisterNodeResponse {
        message: "ok".to_string(),
        nodes: vec!["a".to_string(), endpoint.clone(), "b".to_string()],
    };
    assert!(p.complete_registration(endpoint.clone(), Some(answer)));
    assert_eq!(known(&p.nodes), vec![endpoint, "a".to_string(), "b".to_string()]);
}

#[test]
fn failed_registration_changes_nothing() {
    let mut p = peer();
    assert!(!p.complete_registration("x".to_string(), None));
    assert_eq!(p.nodes.len(), 0);
}

#[test]
fn unreachable_peers_are_forgotten() {
    let mut p = peer();
    p.nodes.insert_all(vec!["a".to_string(), "b".to_string(), "c".to_string()]);
    p.forget_unreachable(&vec!["b".to_string(), "z".to_string()]);
    assert_eq!(known(&p.nodes), vec!["a", "c"]);
}

#[test]
fn items_from_peers_are_stored() {
    let mut p = peer();
    p.handle_item_from_node("x".to_string(), 5, [7; 16]);
    let item = p.create_item("y".to_string(), 6, [8; 16]);
    assert_eq!(p.storage.len(), 2);
    assert_eq!(p.storage[0].content, "x");
    assert_eq!(p.storage[0].timestamp, 5);
    assert_eq!(item.timestamp, 6);
    assert_eq!(p.storage[1].id, item.id);
}

#[test]
fn handle_new_node_adds_an_unknown_peer_once() {
    let mut p = peer();
    assert!(!p.handle_new_node("a".to_string()));
    assert_eq!(known(&p.nodes), vec!["a"]);
    assert!(p.handle_new_node("a".to_string()));
    assert!(!p.handle_new_node("b".to_string()));
    assert_eq!(known(&p.nodes), vec!["a", "b"]);
}

#[test]
fn client_messages_and_registration() {
    let mut c = Client {
        addr: "127.0.0.1:5002".to_string(),
        register_addr: "127.0.0.1:5000".to_string(),
        clients: AddressSet::new(),
        storage: Vec::new(),
    };
    let r = c.registration_request();
    assert_eq!((r.entity, r.action, r.data.as_str()), (Entity::CLIENT, Action::REGISTER, "127.0.0.1:5002"));
    let m = client_request(Action::RETRIEVE, "id".to_string());
    assert_eq!((m.entity, m.action, m.data.as_str()), (Entity::CLIENT, Action::RETRIEVE, "id"));
    c.add_clients(vec!["x".to_string(), "y".to_string(), "x".to_string()]);
    assert_eq!(known(&c.clients), vec!["x", "y"]);
}
