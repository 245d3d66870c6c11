use blckchain::{Block, Blockchain, Transaction};

#[test]
fn test_blockchain_creation() {
    let blockchain = Blockchain::new();
    assert_eq!(blockchain.chain.len(), 1);
    assert!(blockchain.is_chain_valid());
}

#[test]
fn test_mining_and_balance() {
    let mut blockchain = Blockchain::new();

    blockchain.create_transaction(Transaction::new(
        "Alice".to_string(),
        "Bob".to_string(),
        50,
    ));

    blockchain.mine_pending_transactions("Miner".to_string());

    assert_eq!(blockchain.get_balance("Bob"), 50);
    assert_eq!(blockchain.get_balance("Miner"), 100);
}

#[test]
fn test_multiple_transactions() {
    let mut blockchain = Blockchain::new();

    blockchain.create_transaction(Transaction::new(
        "Alice".to_string(),
        "Bob".to_string(),
        100,
    ));

    blockchain.create_transaction(Transaction::new(
        "Bob".to_string(),
        "Charlie".to_string(),
        50,
    ));

    blockchain.mine_pending_transactions("Miner".to_string());

    assert_eq!(blockchain.get_balance("Alice"), -100);
    assert_eq!(blockchain.get_balance("Bob"), 50);
    assert_eq!(blockchain.get_balance("Charlie"), 50);
    assert_eq!(blockchain.get_balance("Miner"), 100);
}

#[test]
fn test_chain_validation() {
    let mut blockchain = Blockchain::new();

    blockchain.create_transaction(Transaction::new(
        "Alice".to_string(),
        "Bob".to_string(),
        25,
    ));

    blockchain.mine_pending_transactions("Miner".to_string());

    assert!(blockchain.is_chain_valid());

    blockchain.chain[1].transactions[0].amount = 1000;
    assert!(!blockchain.is_chain_valid());
}

#[test]
fn test_genesis_block() {
    let blockchain = Blockchain::new();
    let genesis = &blockchain.chain[0];

    assert_eq!(genesis.index, 0);
    assert_eq!(genesis.previous_hash, "0");
    assert_eq!(genesis.transactions.len(), 0);
}

#[test]
fn test_digest_reproduces_stored_hash() {
    let mut blockchain = Blockchain::new();
    blockchain.create_transaction(Transaction::new(
        "Alice".to_string(),
        "Bob".to_string(),
        7,
    ));
    let mined = blockchain.mine_pending_transactions("Miner".to_string());
    assert!(mined);

    let block = &blockchain.chain[1];
    assert_eq!(block.calculate_hash(), block.hash);
    assert_eq!(block.calculate_hash(), block.hash);
}

#[test]
fn test_difficulty_prefix() {
    let mut blockchain = Blockchain::new();
    blockchain.mine_pending_transactions("Miner".to_string());
    blockchain.mine_pending_transactions("Miner".to_string());

    for block in blockchain.chain.iter().skip(1) {
        assert_eq!(block.hash.len(), 64);
        assert!(block.hash.starts_with("0000"));
    }
}

#[test]
fn test_linkage() {
    let mut blockchain = Blockchain::new();
    blockchain.create_transaction(Transaction::new(
        "Alice".to_string(),
        "Bob".to_string(),
        1,
    ));
    blockchain.mine_pending_transactions("Miner".to_string());
    blockchain.mine_pending_transactions("Miner".to_string());

    assert_eq!(blockchain.chain.len(), 3);
    for i in 1..blockchain.chain.len() {
        assert_eq!(blockchain.chain[i].previous_hash, blockchain.chain[i - 1].hash);
        assert_eq!(blockchain.chain[i].index, i as u64);
    }
}

#[test]
fn test_balance_conservation_two_rounds() {
    let mut blockchain = Blockchain::new();

    blockchain.create_transaction(Transaction::new(
        "Alice".to_string(),
        "Bob".to_string(),
        100,
    ));
    blockchain.mine_pending_transactions("Miner".to_string());

    assert_eq!(blockchain.get_balance("Alice"), -100);
    assert_eq!(blockchain.get_balance("Bob"), 100);
    assert_eq!(blockchain.get_balance("Miner"), 100);

    blockchain.create_transaction(Transaction::new(
        "Bob".to_string(),
        "Charlie".to_string(),
        50,
    ));
    blockchain.mine_pending_transactions("Miner".to_string());

    assert_eq!(blockchain.get_balance("Bob"), 50);
    assert_eq!(blockchain.get_balance("Charlie"), 50);
    assert_eq!(blockchain.get_balance("Miner"), 200);
}

#[test]
fn test_validation_idempotent() {
    let mut blockchain = Blockchain::new();
    blockchain.create_transaction(Transaction::new(
        "Alice".to_string(),
        "Bob".to_string(),
        3,
    ));
    blockchain.mine_pending_transactions("Miner".to_string());

    assert!(blockchain.is_chain_valid());
    assert!(blockchain.is_chain_valid());
    assert!(blockchain.is_chain_valid());
}

#[test]
fn test_mine_empty_pending() {
    let mut blockchain = Blockchain::new();
    let mined = blockchain.mine_pending_transactions("Miner".to_string());
    assert!(mined);

    assert_eq!(blockchain.chain.len(), 2);
    assert_eq!(blockchain.chain[1].transactions.len(), 1);
    let reward = &blockchain.chain[1].transactions[0];
    assert_eq!(reward.from, "System");
    assert_eq!(reward.to, "Miner");
    assert_eq!(reward.amount, 100);
    assert_eq!(blockchain.pending_transactions.len(), 0);
    assert!(blockchain.is_chain_valid());
}

#[test]
fn test_first_qualifying_nonce_stored() {
    let mut blockchain = Blockchain::new();
    blockchain.mine_pending_transactions("Miner".to_string());
    let block = &blockchain.chain[1];

    let mut probe = Block {
        index: block.index,
        timestamp: block.timestamp,
        transactions: block.transactions.clone(),
        previous_hash: block.previous_hash.clone(),
        nonce: 0,
        hash: String::new(),
    };
    for n in 0..block.nonce {
        probe.nonce = n;
        assert!(!probe.calculate_hash().starts_with("0000"));
    }
    probe.nonce = block.nonce;
    assert_eq!(probe.calculate_hash(), block.hash);
}

#[test]
fn test_check_well_formed() {
    let mut blockchain = Blockchain::new();
    assert!(blockchain.check_well_formed());
    blockchain.create_transaction(Transaction::new(
        "Alice".to_string(),
        "Bob".to_string(),
        9,
    ));
    assert!(blockchain.check_well_formed());
    blockchain.mine_pending_transactions("Miner".to_string());
    assert!(blockchain.check_well_formed());

    blockchain.chain[1].transactions[0].amount = 10;
    assert!(!blockchain.check_well_formed());

    let mut fresh = Blockchain::new();
    fresh.chain[0].nonce = 1;
    assert!(!fresh.check_well_formed());
}

#[test]
fn test_tamper_previous_hash_detected() {
    let mut blockchain = Blockchain::new();
    blockchain.mine_pending_transactions("Miner".to_string());
    blockchain.mine_pending_transactions("Miner".to_string());
    assert!(blockchain.is_chain_valid());

    blockchain.chain[2].previous_hash = "0".to_string();
    assert!(!blockchain.is_chain_valid());
}
