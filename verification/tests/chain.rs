use coliseum::chain::{
    block_to_json, rocket, search_proof, transaction_to_json, Block, Blockchain, Transaction,
};

fn genesis_at(ms: u64) -> Block {
    Block {
        index: 1,
        timestamp: ms,
        transactions: Vec::new(),
        proof: 1,
        previous_hash: "1".to_string(),
    }
}

fn tx(sender: &str, receiver: &str, amount: i32) -> Transaction {
    Transaction { sender: sender.to_string(), receiver: receiver.to_string(), amount }
}

#[test]
fn new_chain_holds_only_the_genesis_block() {
    let chain = Blockchain::new(1_000);
    assert_eq!(chain.blocks.len(), 1);
    let genesis = &chain.blocks[0];
    assert_eq!(genesis.index, 1);
    assert_eq!(genesis.proof, 1);
    assert_eq!(genesis.previous_hash, "1");
    assert!(genesis.transactions.is_empty());
    assert_eq!(genesis.timestamp, 1_000);
    assert!(chain.transactions.is_empty());
}

#[test]
fn rocket_listens_on_port_5000_with_a_fresh_chain() {
    let service = rocket(77);
    assert_eq!(service.port, 5000);
    assert_eq!(service.blockchain.blocks.len(), 1);
    assert_eq!(service.blockchain.blocks[0].timestamp, 77);
    assert!(service.blockchain.transactions.is_empty());
}

#[test]
fn block_json_matches_the_wire_format() {
    let block = genesis_at(1_700_000_000_250);
    assert_eq!(
        block_to_json(&block),
        "{\"index\":1,\"timestamp\":1700000000.25,\"transactions\":[],\"proof\":1,\"previous_hash\":\"1\"}"
    );
}

#[test]
fn block_json_escapes_strings_and_writes_negative_amounts() {
    let block = Block {
        index: 2,
        timestamp: 1000,
        transactions: vec![tx("a\"b", "0", -5)],
        proof: 82,
        previous_hash: "x".to_string(),
    };
    assert_eq!(
        block_to_json(&block),
        "{\"index\":2,\"timestamp\":1.0,\"transactions\":[{\"sender\":\"a\\\"b\",\"receiver\":\"0\",\"amount\":-5}],\"proof\":82,\"previous_hash\":\"x\"}"
    );
}

#[test]
fn timestamps_are_written_as_shortest_seconds() {
    let mut block = genesis_at(1_234);
    assert!(block_to_json(&block).contains("\"timestamp\":1.234,"));
    block.timestamp = 1_230;
    assert!(block_to_json(&block).contains("\"timestamp\":1.23,"));
    block.timestamp = 1_200;
    assert!(block_to_json(&block).contains("\"timestamp\":1.2,"));
    block.timestamp = 5;
    assert!(block_to_json(&block).contains("\"timestamp\":0.005,"));
    block.timestamp = 0;
    assert!(block_to_json(&block).contains("\"timestamp\":0.0,"));
}

#[test]
fn control_characters_are_escaped() {
    let t = tx("\n\t\u{1}\\", "\u{7f}é", 0);
    assert_eq!(
        transaction_to_json(&t),
        "{\"sender\":\"\\n\\t\\u0001\\\\\",\"receiver\":\"\u{7f}é\",\"amount\":0}"
    );
}

#[test]
fn block_hash_is_sha256_of_the_json() {
    let block = genesis_at(1_700_000_000_250);
    assert_eq!(
        Blockchain::get_block_hash(&block),
        "20a941606be222c4c13c0b63526621dfde2e0e1bd30ca9e5566badab22304346"
    );
    let other = Block {
        index: 2,
        timestamp: 1000,
        transactions: vec![tx("a\"b", "0", -5)],
        proof: 82,
        previous_hash: "x".to_string(),
    };
    assert_eq!(
        Blockchain::get_block_hash(&other),
        "b6f2963592616500f636e4e00bfc385211ce4a9e0f4e484705908c25c4a72952"
    );
}

#[test]
fn check_proof_accepts_six_leading_zeros() {
    assert!(Blockchain::check_proof(&1, &8719932));
    assert!(!Blockchain::check_proof(&1, &8719931));
    assert!(Blockchain::check_proof(&6657, &82));
    assert!(!Blockchain::check_proof(&6657, &81));
}

#[test]
fn search_proof_finds_the_first_valid_proof() {
    assert_eq!(search_proof(6657, 1, 1000), Some(82));
    assert_eq!(search_proof(6657, 1, 82), None);
    assert_eq!(search_proof(6657, 83, 200), None);
}

#[test]
fn add_transaction_queues_it() {
    let mut chain = Blockchain::new(1_000);
    let added = chain.add_transaction(tx("alice", "bob", 3));
    assert_eq!(added.sender, "alice");
    assert_eq!(chain.transactions.len(), 1);
    assert_eq!(chain.transactions[0].amount, 3);
    assert_eq!(chain.blocks.len(), 1);
}

#[test]
fn create_block_seals_the_pending_transactions() {
    let mut chain = Blockchain::new(1_000);
    chain.add_transaction(tx("alice", "bob", 3));
    chain.add_transaction(tx("bob", "carol", 2));
    let block = chain.create_block("abc", 7, 42);
    assert_eq!(block.index, 2);
    assert_eq!(block.timestamp, 42);
    assert_eq!(block.proof, 7);
    assert_eq!(block.previous_hash, "abc");
    assert_eq!(block.transactions.len(), 2);
    assert_eq!(block.transactions[1].receiver, "carol");
    assert!(chain.transactions.is_empty());
    assert_eq!(chain.blocks.len(), 2);
    assert_eq!(chain.get_last_block().index, 2);
}

#[test]
fn mine_links_the_new_block_and_rewards_the_miner() {
    let mut chain = Blockchain { blocks: vec![genesis_at(0)], transactions: Vec::new() };
    chain.blocks[0].proof = 6657;
    chain.add_transaction(tx("alice", "bob", 3));
    let previous_hash = Blockchain::get_block_hash(&chain.blocks[0]);
    let block = chain.mine_within(1000, 5_000).expect("a proof below 1000 exists");
    assert_eq!(block.index, 2);
    assert_eq!(block.proof, 82);
    assert_eq!(block.timestamp, 5_000);
    assert_eq!(block.previous_hash, previous_hash);
    assert_eq!(block.transactions.len(), 2);
    let reward = &block.transactions[1];
    assert_eq!((reward.sender.as_str(), reward.receiver.as_str(), reward.amount), ("0", "0", 1));
    assert!(chain.transactions.is_empty());
    assert_eq!(chain.blocks.len(), 2);
}

#[test]
fn mine_within_changes_nothing_when_no_proof_is_found() {
    let mut chain = Blockchain::new(1_000);
    chain.add_transaction(tx("alice", "bob", 3));
    assert!(chain.mine_within(100, 5_000).is_none());
    assert_eq!(chain.blocks.len(), 1);
    assert_eq!(chain.transactions.len(), 1);
}

#[test]
fn mine_uses_the_smallest_proof() {
    let mut chain = Blockchain { blocks: vec![genesis_at(0)], transactions: Vec::new() };
    chain.blocks[0].proof = 6657;
    let block = chain.mine(9);
    assert_eq!(block.proof, 82);
    assert!(Blockchain::check_proof(&6657, &block.proof));
}

#[test]
fn chain_json_lists_every_block() {
    let chain = Blockchain { blocks: vec![genesis_at(1_000), genesis_at(2_000)], transactions: Vec::new() };
    let one = "{\"index\":1,\"timestamp\":1.0,\"transactions\":[],\"proof\":1,\"previous_hash\":\"1\"}";
    let two = "{\"index\":1,\"timestamp\":2.0,\"transactions\":[],\"proof\":1,\"previous_hash\":\"1\"}";
    assert_eq!(chain.blocks_to_json(), format!("[{},{}]", one, two));
    let empty = Blockchain { blocks: Vec::new(), transactions: Vec::new() };
    assert_eq!(empty.blocks_to_json(), "[]");
}
