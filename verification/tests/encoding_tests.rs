use blckchain::digest::{bytes_to_hex, meets_difficulty};
use blckchain::text::{i64_to_dec, u64_to_dec};
use blckchain::{Block, Transaction};
use sha2::{Digest, Sha256};

#[test]
fn test_decimal_rendering() {
    assert_eq!(u64_to_dec(0), "0");
    assert_eq!(u64_to_dec(7), "7");
    assert_eq!(u64_to_dec(1234567890), "1234567890");
    assert_eq!(u64_to_dec(u64::MAX), "18446744073709551615");
    assert_eq!(i64_to_dec(0), "0");
    assert_eq!(i64_to_dec(42), "42");
    assert_eq!(i64_to_dec(-5), "-5");
    assert_eq!(i64_to_dec(i64::MIN), "-9223372036854775808");
    assert_eq!(i64_to_dec(i64::MAX), "9223372036854775807");
}

#[test]
fn test_hex_rendering() {
    assert_eq!(bytes_to_hex(&vec![]), "");
    assert_eq!(bytes_to_hex(&vec![0x00]), "00");
    assert_eq!(bytes_to_hex(&vec![0x0f, 0xa0, 0xff, 0x12]), "0fa0ff12");
}

#[test]
fn test_meets_difficulty() {
    assert!(meets_difficulty("0000ab", 4));
    assert!(meets_difficulty("0000", 4));
    assert!(!meets_difficulty("000a", 4));
    assert!(!meets_difficulty("000", 4));
    assert!(meets_difficulty("abc", 0));
    assert!(!meets_difficulty("", 1));
}

#[test]
fn test_digest_matches_sha256() {
    let block = Block {
        index: 5,
        timestamp: 42,
        transactions: vec![],
        previous_hash: "ab".to_string(),
        nonce: 7,
        hash: String::new(),
    };
    let expected = format!("{:x}", Sha256::digest("5|42||ab|7".as_bytes()));
    assert_eq!(block.calculate_hash(), expected);
}

#[test]
fn test_amount_changes_digest() {
    let block = |amount: i64| Block {
        index: 1,
        timestamp: 2,
        transactions: vec![Transaction {
            from: "a".to_string(),
            to: "b".to_string(),
            amount,
            timestamp: 9,
        }],
        previous_hash: "0".to_string(),
        nonce: 3,
        hash: String::new(),
    };
    assert_ne!(block(5).calculate_hash(), block(6).calculate_hash());
    assert_ne!(block(5).calculate_hash(), block(-5).calculate_hash());
    assert_eq!(block(5).calculate_hash(), block(5).calculate_hash());
}

#[test]
fn test_digest_covers_transactions() {
    let tx = Transaction { from: "a".to_string(), to: "b".to_string(), amount: -5, timestamp: 9 };
    let block = Block {
        index: 1,
        timestamp: 2,
        transactions: vec![tx],
        previous_hash: "0".to_string(),
        nonce: 3,
        hash: String::new(),
    };
    let expected = format!("{:x}", Sha256::digest("1|2|a->b:-5@9;|0|3".as_bytes()));
    assert_eq!(block.calculate_hash(), expected);
}
