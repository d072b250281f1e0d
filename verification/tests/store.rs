use coliseum::items::{found_to_json, fresh_id, item_to_json, Item};
use coliseum::registry::AddressSet;
use coliseum::store::{Action, Answer, Entity, Heard, Node, Request, Step};

fn node() -> Node {
    Node {
        addr: "127.0.0.1:5000".to_string(),
        register_addr: "127.0.0.1:5000".to_string(),
        nodes: AddressSet::new(),
        storage: Vec::new(),
    }
}

fn request(entity: Entity, action: Action, data: &str) -> Request {
    Request { entity, action, data: data.to_string() }
}

fn item(id: &str, timestamp: u64, content: &str) -> Item {
    Item { id: id.to_string(), timestamp, content: content.to_string() }
}

fn is_plain_uuid(id: &str) -> bool {
    id.len() == 32
        && id.chars().all(|c| c.is_ascii_digit() || ('a'..='f').contains(&c))
        && id.as_bytes()[12] == b'4'
        && b"89ab".contains(&id.as_bytes()[16])
}

fn known(n: &AddressSet) -> Vec<String> {
    (0..n.len()).map(|i| n.get(i).clone()).collect()
}

fn answer(node: &str, heard: Heard) -> Answer {
    Answer { node: node.to_string(), heard }
}

#[test]
fn create_item_stores_content_under_a_fresh_id() {
    let mut n = node();
    let a = n.create_item("hello".to_string(), 10, [1; 16]);
    let b = n.create_item("world".to_string(), 20, [2; 16]);
    assert_eq!(a.content, "hello");
    assert_eq!(a.timestamp, 10);
    assert_eq!(a.id, "01010101010141018101010101010101");
    assert!(is_plain_uuid(&a.id));
    assert!(is_plain_uuid(&b.id));
    assert_ne!(a.id, b.id);
    assert_eq!(n.storage.len(), 2);
    assert_eq!(n.storage[1].content, "world");
}

#[test]
fn retrieve_item_finds_what_create_item_stored() {
    let mut n = node();
    let a = n.create_item("hello".to_string(), 10, [1; 16]);
    let found = n.retrieve_item(a.id.clone()).expect("stored item");
    assert_eq!(found.id, a.id);
    assert_eq!(found.content, "hello");
    assert!(n.retrieve_item("missing".to_string()).is_none());
}

#[test]
fn retrieve_item_gives_the_first_of_equal_ids() {
    let mut n = node();
    n.storage.push(item("x", 1, "first"));
    n.storage.push(item("x", 2, "second"));
    assert_eq!(n.retrieve_item("x".to_string()).unwrap().content, "first");
}

#[test]
fn client_create_replies_with_the_item_and_shares_it() {
    let mut n = node();
    n.nodes.insert("peer:1".to_string());
    n.nodes.insert("peer:2".to_string());
    match n.handle_client_connection(request(Entity::CLIENT, Action::CREATE, "payload"), 1500, [3; 16]) {
        Step::Share { reply, item, nodes } => {
            assert_eq!(reply.entity, Entity::NODE);
            assert_eq!(reply.action, Action::SUCCESS);
            assert_eq!(item.content, "payload");
            assert_eq!(item.timestamp, 1500);
            assert_eq!(item.id, "03030303030343038303030303030303");
            assert_eq!(n.storage[0].id, item.id);
            assert_eq!(reply.data, item_to_json(&item));
            assert!(reply.data.ends_with(",\"content\":\"payload\"}"));
            assert_eq!(nodes, vec!["peer:1", "peer:2"]);
        }
        _ => panic!("a CREATE is answered and shared"),
    }
}

#[test]
fn client_retrieve_asks_the_known_nodes_first() {
    let mut n = node();
    n.nodes.insert("peer:1".to_string());
    n.storage.push(item("abc", 1500, "c"));
    match n.handle_client_connection(request(Entity::CLIENT, Action::RETRIEVE, "abc"), 0, [0; 16]) {
        Step::Gather { id, nodes } => {
            assert_eq!(id, "abc");
            assert_eq!(nodes, vec!["peer:1"]);
        }
        _ => panic!("a RETRIEVE gathers answers"),
    }
    assert_eq!(n.storage.len(), 1);
}

#[test]
fn retrieval_without_peers_answers_the_local_item_or_null() {
    let mut n = node();
    n.storage.push(item("abc", 1500, "c"));
    let reply = n.finish_retrieval("abc".to_string(), Vec::new());
    assert_eq!(reply.data, "{\"id\":\"abc\",\"timestamp\":1.5,\"content\":\"c\"}");
    let missing = n.finish_retrieval("zzz".to_string(), Vec::new());
    assert_eq!(missing.data, "null");
    assert_eq!(found_to_json(&None), "null");
}

#[test]
fn retrieval_does_not_count_the_nodes_own_copy() {
    let mut n = node();
    n.storage.push(item("abc", 1000, "mine"));
    let answers = vec![answer("p1", Heard::Found(item("abc", 2000, "theirs")))];
    let reply = n.finish_retrieval("abc".to_string(), answers);
    assert_eq!(reply.data, "{\"id\":\"abc\",\"timestamp\":2.0,\"content\":\"theirs\"}");
}

#[test]
fn retrieval_answers_the_most_frequent_item() {
    let mut n = node();
    n.nodes.insert_all(vec!["p1".to_string(), "p2".to_string(), "p3".to_string()]);
    n.storage.push(item("abc", 1000, "mine"));
    let answers = vec![
        answer("p1", Heard::Found(item("abc", 2000, "theirs"))),
        answer("p2", Heard::Found(item("abc", 2000, "theirs"))),
        answer("p3", Heard::NotFound),
    ];
    let reply = n.finish_retrieval("abc".to_string(), answers);
    assert_eq!(reply.data, "{\"id\":\"abc\",\"timestamp\":2.0,\"content\":\"theirs\"}");
    assert_eq!(known(&n.nodes), vec!["p1", "p2", "p3"]);
    assert_eq!(n.storage.len(), 1);
}

#[test]
fn retrieval_ties_go_to_the_first_item() {
    let mut n = node();
    let answers = vec![
        answer("p1", Heard::Found(item("abc", 1000, "first"))),
        answer("p2", Heard::Found(item("abc", 2000, "second"))),
    ];
    let reply = n.finish_retrieval("abc".to_string(), answers);
    assert_eq!(reply.data, "{\"id\":\"abc\",\"timestamp\":1.0,\"content\":\"first\"}");
}

#[test]
fn retrieval_forgets_bad_nodes_and_needs_a_quorum() {
    let mut n = node();
    n.nodes.insert_all(vec!["p1".to_string(), "p2".to_string(), "p3".to_string(), "p4".to_string()]);
    n.storage.push(item("abc", 1000, "mine"));
    let answers = vec![
        answer("p1", Heard::Unreachable),
        answer("p2", Heard::Found(item("other", 1, "x"))),
        answer("p3", Heard::NotFound),
        answer("p4", Heard::Unreachable),
    ];
    let reply = n.finish_retrieval("abc".to_string(), answers);
    assert_eq!(reply.data, "null");
    assert_eq!(known(&n.nodes), vec!["p3"]);
}

#[test]
fn retrieval_with_exactly_enough_answers() {
    let mut n = node();
    let answers = vec![answer("p1", Heard::Found(item("abc", 1000, "x"))), answer("p2", Heard::Unreachable)];
    // one valid answer out of two is under 51%
    assert_eq!(n.finish_retrieval("abc".to_string(), answers).data, "null");
    let answers = vec![
        answer("p1", Heard::Found(item("abc", 1000, "x"))),
        answer("p2", Heard::NotFound),
    ];
    assert_eq!(
        n.finish_retrieval("abc".to_string(), answers).data,
        "{\"id\":\"abc\",\"timestamp\":1.0,\"content\":\"x\"}"
    );
}

#[test]
fn client_register_and_success_get_no_reply() {
    let mut n = node();
    assert!(matches!(n.handle_client_connection(request(Entity::CLIENT, Action::REGISTER, "x"), 0, [0; 16]), Step::Idle));
    assert!(matches!(n.handle_client_connection(request(Entity::CLIENT, Action::SUCCESS, "x"), 0, [0; 16]), Step::Idle));
    assert!(n.storage.is_empty());
    assert_eq!(n.nodes.len(), 0);
}

#[test]
fn node_register_adds_the_address_once_and_lists_all() {
    let mut n = node();
    let first = n.handle_server_connection(request(Entity::NODE, Action::REGISTER, "a:1"), None).unwrap();
    assert_eq!(first.data, "[\"a:1\"]");
    let second = n.handle_server_connection(request(Entity::NODE, Action::REGISTER, "b:2"), None).unwrap();
    assert_eq!(second.data, "[\"a:1\",\"b:2\"]");
    let again = n.handle_server_connection(request(Entity::NODE, Action::REGISTER, "a:1"), None).unwrap();
    assert_eq!(again.data, "[\"a:1\",\"b:2\"]");
    assert_eq!(again.action, Action::SUCCESS);
    assert_eq!(n.nodes.len(), 2);
}

#[test]
fn node_retrieve_answers_from_local_storage() {
    let mut n = node();
    n.storage.push(item("abc", 1500, "c"));
    let reply = n.handle_server_connection(request(Entity::NODE, Action::RETRIEVE, "abc"), None).unwrap();
    assert_eq!(reply.data, "{\"id\":\"abc\",\"timestamp\":1.5,\"content\":\"c\"}");
    let missing = n.handle_server_connection(request(Entity::NODE, Action::RETRIEVE, "zzz"), None).unwrap();
    assert_eq!(missing.data, "null");
}

#[test]
fn shared_items_are_stored_as_they_are() {
    let mut n = node();
    assert!(n.handle_server_connection(request(Entity::NODE, Action::CREATE, "{}"), Some(item("abc", 7, "c"))).is_none());
    assert!(n.handle_server_connection(request(Entity::NODE, Action::CREATE, "junk"), None).is_none());
    assert_eq!(n.storage.len(), 1);
    assert_eq!(n.retrieve_item("abc".to_string()).unwrap().timestamp, 7);
    n.nodes.insert_all(vec!["a".to_string(), "b".to_string()]);
    n.forget_unreachable(&vec!["a".to_string()]);
    assert_eq!(known(&n.nodes), vec!["b"]);
}

#[test]
fn node_other_actions_get_no_reply() {
    let mut n = node();
    assert!(n.handle_server_connection(request(Entity::NODE, Action::CREATE, "a"), None).is_none());
    assert!(n.handle_server_connection(request(Entity::NODE, Action::SUCCESS, "a"), None).is_none());
    assert_eq!(n.nodes.len(), 0);
}

#[test]
fn fresh_id_is_not_among_the_stored_ids() {
    let stored = vec![item("a", 1, "x"), item("b", 2, "y")];
    let id = fresh_id(&stored, [0xab; 16]);
    assert_eq!(id, "abababababab4babababababababab".to_string() + "ab");
    assert!(is_plain_uuid(&id));
    assert!(stored.iter().all(|it| it.id != id));
}

#[test]
fn fresh_id_falls_back_when_the_drawn_id_is_taken() {
    let drawn = fresh_id(&Vec::new(), [0xab; 16]);
    let stored = vec![item(&drawn, 1, "x")];
    assert_eq!(fresh_id(&stored, [0xab; 16]), "abababababab4baba000000000000000");
    let stored = vec![item(&drawn, 1, "x"), item("abababababab4baba000000000000000", 2, "y")];
    assert_eq!(fresh_id(&stored, [0xab; 16]), "abababababab4baba000000000000001");
}
