use coliseum::net::ledger::{App, Server, Transaction};

fn is_plain_uuid(id: &str) -> bool {
    id.len() == 32
        && id.chars().all(|c| c.is_ascii_digit() || ('a'..='f').contains(&c))
        && id.as_bytes()[12] == b'4'
        && b"89ab".contains(&id.as_bytes()[16])
}

fn transaction(id: &str, from: &str, to: &str, amount: f64) -> Transaction<f64> {
    Transaction {
        id: id.to_string(),
        from_id: from.to_string(),
        to_id: to.to_string(),
        amount,
        timestamp: 0,
        node: "n".to_string(),
    }
}

#[test]
fn app_create_account_opens_and_records_it() {
    let mut app: App<f64> = App::new("127.0.0.1:5000".to_string());
    let account = app.create_account("alice".to_string(), 10.0, 123, [1; 16]);
    assert_eq!(account.username, "alice");
    assert_eq!(account.balance, 10.0);
    assert_eq!(account.created_time, 123);
    assert_eq!(account.last_login, 123);
    assert_eq!(account.id, "01010101010141018101010101010101");
    assert!(is_plain_uuid(&account.id));
    assert_eq!(app.accounts.len(), 1);
    assert_eq!(app.accounts[0].id, account.id);
}

#[test]
fn app_get_account_reads_and_writes_the_account() {
    let mut app: App<f64> = App::new("n".to_string());
    let a = app.create_account("alice".to_string(), 10.0, 123, [1; 16]);
    let b = app.create_account("bob".to_string(), 10.0, 124, [2; 16]);
    app.get_account(&b.id).unwrap().balance = 3.5;
    assert_eq!(app.accounts[1].balance, 3.5);
    assert_eq!(app.accounts[0].balance, 10.0);
    assert_eq!(app.get_account(&a.id).unwrap().username, "alice");
}

#[test]
fn app_get_account_reports_a_missing_account() {
    let mut app: App<f64> = App::new("n".to_string());
    match app.get_account("nobody") {
        Err(message) => assert_eq!(message, "Account with ID nobody not found"),
        Ok(_) => panic!("no account was opened"),
    }
}

#[test]
fn app_transactions_by_id_and_by_account() {
    let mut app: App<f64> = App::new("n".to_string());
    app.transactions.push(transaction("t1", "a", "b", 1.0));
    app.transactions.push(transaction("t2", "b", "a", 2.0));
    app.transactions.push(transaction("t3", "a", "c", 3.0));
    let copy = App { addr: app.addr.clone(), accounts: Vec::new(), transactions: app.transactions.clone() };
    assert_eq!(copy.get_transaction("t2".to_string()).unwrap().amount, 2.0);
    let copy = App { addr: app.addr.clone(), accounts: Vec::new(), transactions: app.transactions.clone() };
    assert!(copy.get_transaction("t9".to_string()).is_err());
    let copy = App { addr: app.addr.clone(), accounts: Vec::new(), transactions: app.transactions.clone() };
    let sent: Vec<String> = copy.get_transaction_by_account("a".to_string()).into_iter().map(|t| t.id).collect();
    assert_eq!(sent, vec!["t1", "t3"]);
    assert_eq!(app.get_all_transactions().len(), 3);
}

#[test]
fn server_create_transaction_draws_up_without_recording() {
    let mut server: Server<f64> = Server::new("127.0.0.1:5000".to_string());
    let a = server.create_account("user_1".to_string(), 0.0, 1, [3; 16]);
    let b = server.create_account("user_2".to_string(), 0.0, 2, [4; 16]);
    let t = server.create_transaction(a.id.clone(), b.id.clone(), 100.0, 55, [5; 16]);
    assert_eq!(t.from_id, a.id);
    assert_eq!(t.to_id, b.id);
    assert_eq!(t.amount, 100.0);
    assert_eq!(t.node, "127.0.0.1:5000");
    assert_eq!(t.timestamp, 55);
    assert!(is_plain_uuid(&t.id));
    assert!(server.transactions.is_empty());
    assert_eq!(server.get_transactions().len(), 0);
}

#[test]
fn server_get_account_and_queries() {
    let mut server: Server<f64> = Server::new("n".to_string());
    let a = server.create_account("user_1".to_string(), 0.0, 1, [3; 16]);
    server.get_account(&a.id).unwrap().balance = 1000.0;
    assert_eq!(server.accounts[0].balance, 1000.0);
    assert!(server.get_account("missing").is_err());
    server.transactions.push(transaction("t1", "x", "y", 1.0));
    server.transactions.push(transaction("t2", "y", "x", 1.0));
    let copy = Server { addr: "n".to_string(), accounts: Vec::new(), transactions: server.transactions.clone() };
    assert_eq!(copy.get_transaction("t2".to_string()).unwrap().from_id, "y");
    let copy = Server { addr: "n".to_string(), accounts: Vec::new(), transactions: server.transactions.clone() };
    assert_eq!(copy.get_transaction_by_account("x".to_string()).len(), 1);
    assert_eq!(server.get_all_transactions().len(), 2);
}

#[test]
fn ids_are_the_uuid_digits_of_the_random_bytes() {
    let bytes: [u8; 16] = [0, 1, 2, 3, 4, 5, 6, 7, 8, 9, 10, 11, 12, 13, 14, 15];
    assert_eq!(App::<f64>::create_uuid(bytes), "000102030405460788090a0b0c0d0e0f");
    assert_eq!(Server::<f64>::create_uuid(bytes), "000102030405460788090a0b0c0d0e0f");
    assert!(is_plain_uuid(&App::<f64>::create_uuid([0xff; 16])));
    assert_eq!(App::<f64>::create_uuid([0xff; 16]), "ffffffffffff4fffbfffffffffffffff");
}
