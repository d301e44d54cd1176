use btc_relay::hashing::sha256d;
use btc_relay::pow::decode_compact;
use btc_relay::relay::Event;
use btc_relay::{BtcRelay, Error, ExtBuilder, U256};

/// Compact bits for a very easy target: mantissa 0x7fffff at the top
/// of the 256-bit range, so roughly half of all hashes qualify.
const EASY_BITS: u32 = 0x207fffff;

fn build_raw_header(prev_hash: &[u8], merkle_root: &[u8], timestamp: u32, bits: u32, nonce: u32) -> Vec<u8> {
    let mut raw = Vec::new();
    raw.extend_from_slice(&1u32.to_le_bytes());
    raw.extend_from_slice(prev_hash);
    raw.extend_from_slice(merkle_root);
    raw.extend_from_slice(&timestamp.to_le_bytes());
    raw.extend_from_slice(&bits.to_le_bytes());
    raw.extend_from_slice(&nonce.to_le_bytes());
    assert_eq!(raw.len(), 80);
    raw
}

/// Increments the nonce until the double-SHA-256 of the header meets
/// the target its bits encode.
fn mine(prev_hash: &[u8], merkle_root: &[u8], timestamp: u32, bits: u32) -> Vec<u8> {
    let target = decode_compact(bits).expect("valid bits");
    let mut nonce: u32 = 0;
    loop {
        let raw = build_raw_header(prev_hash, merkle_root, timestamp, bits, nonce);
        let hash = sha256d(&raw);
        let hv = U256::from_le_bytes(&hash);
        if hv.le(&target) {
            return raw;
        }
        nonce += 1;
    }
}

fn genesis_relay() -> (BtcRelay, Vec<u8>) {
    let mut relay = ExtBuilder::build();
    let genesis = mine(&[0u8; 32], &[0u8; 32], 1000, EASY_BITS);
    relay.initialize(&genesis, 0).expect("initialize");
    let hash = sha256d(&genesis);
    (relay, hash)
}

#[test]
fn initialize_once_suceeds() {
    let mut relay = ExtBuilder::build();
    let block_height: u64 = 0;
    let block_header = vec![0u8; 80];
    let block_header_hash = sha256d(&block_header);
    assert!(relay.initialize(&block_header, block_height).is_ok());
    let seen = relay.events.iter().any(|e| match e {
        Event::Initialized { height, hash } => *height == block_height && *hash == block_header_hash,
        _ => false,
    });
    assert!(seen);
}

#[test]
fn initialize_twice_fails() {
    let mut relay = ExtBuilder::build();
    let block_height: u64 = 0;
    let block_header = vec![0u8; 80];
    assert!(relay.initialize(&block_header, block_height).is_ok());
    let block_height_2: u64 = 0;
    let block_header_2 = vec![1u8; 80];
    assert!(matches!(
        relay.initialize(&block_header_2, block_height_2),
        Err(Error::AlreadyInitialized)
    ));
}

#[test]
fn initialize_rejects_wrong_size() {
    let mut relay = ExtBuilder::build();
    let short = vec![0u8; 79];
    assert!(matches!(relay.initialize(&short, 0), Err(Error::InvalidHeaderSize)));
}

#[test]
fn submit_before_initialize_fails_prev_block() {
    let mut relay = ExtBuilder::build();
    let raw = vec![0u8; 80];
    assert!(matches!(relay.submit_header(&raw), Err(Error::PrevBlock)));
}

#[test]
fn shutdown_blocks_mutations() {
    let (mut relay, genesis_hash) = genesis_relay();
    relay.set_shutdown(true);
    let raw = mine(&genesis_hash, &[0u8; 32], 1010, EASY_BITS);
    assert!(matches!(relay.submit_header(&raw), Err(Error::Shutdown)));
    relay.set_shutdown(false);
    assert!(relay.submit_header(&raw).is_ok());
}

#[test]
fn duplicate_submission_is_rejected_and_mutates_nothing() {
    let (mut relay, genesis_hash) = genesis_relay();
    let raw = mine(&genesis_hash, &[0u8; 32], 1010, EASY_BITS);
    relay.submit_header(&raw).expect("first accepted");
    let headers_before = relay.headers.len();
    let events_before = relay.events.len();
    let chains_before = relay.chains.len();
    let best_before = relay.best_block_height;
    assert!(matches!(relay.submit_header(&raw), Err(Error::DuplicateBlock)));
    assert_eq!(relay.headers.len(), headers_before);
    assert_eq!(relay.events.len(), events_before);
    assert_eq!(relay.chains.len(), chains_before);
    assert_eq!(relay.best_block_height, best_before);
}

#[test]
fn low_difficulty_hash_is_rejected() {
    let (mut relay, genesis_hash) = genesis_relay();
    // Target 1: exponent 3, mantissa 1. No realistic hash is <= 1.
    let raw = build_raw_header(&genesis_hash, &[0u8; 32], 1010, 0x03000001, 7);
    assert!(matches!(relay.submit_header(&raw), Err(Error::LowDiff)));
}

#[test]
fn wrong_target_is_rejected() {
    let (mut relay, genesis_hash) = genesis_relay();
    // Meets its own (harder) target but not the expected schedule.
    let raw = mine(&genesis_hash, &[0u8; 32], 1010, 0x2000ffff);
    assert!(matches!(relay.submit_header(&raw), Err(Error::DiffTargetHeader)));
}

#[test]
fn malformed_bits_are_rejected() {
    let (mut relay, genesis_hash) = genesis_relay();
    // Sign bit set with a nonzero mantissa.
    let raw = build_raw_header(&genesis_hash, &[0u8; 32], 1010, 0x20800001, 0);
    assert!(matches!(relay.submit_header(&raw), Err(Error::InvalidHeaderSize)));
}

#[test]
fn unknown_parent_starts_no_data_chain() {
    let (mut relay, _genesis_hash) = genesis_relay();
    let raw = mine(&[9u8; 32], &[0u8; 32], 1010, EASY_BITS);
    assert!(relay.submit_header(&raw).is_ok());
    assert_eq!(relay.chains.len(), 2);
    assert!(relay.chains[1].no_data);
    assert_eq!(relay.main_index, 0);
}

#[test]
fn chain_of_three_and_confirmations() {
    let (mut relay, genesis_hash) = genesis_relay();
    let h1 = mine(&genesis_hash, &[0u8; 32], 1010, EASY_BITS);
    relay.submit_header(&h1).expect("height 1");
    let h1_hash = sha256d(&h1);
    let h2 = mine(&h1_hash, &[0u8; 32], 1020, EASY_BITS);
    relay.submit_header(&h2).expect("height 2");
    let h2_hash = sha256d(&h2);
    let h3 = mine(&h2_hash, &[0u8; 32], 1030, EASY_BITS);
    relay.submit_header(&h3).expect("height 3");
    let h3_hash = sha256d(&h3);
    assert_eq!(relay.best_block_height, 3);
    assert!(relay.check_confirmations(&h3_hash, 1).is_ok());
    assert!(relay.check_confirmations(&h1_hash, 3).is_ok());
    assert!(matches!(relay.check_confirmations(&h1_hash, 4), Err(Error::Confirmations)));
    let extended = relay.events.iter().filter(|e| matches!(e, Event::ExtendedMainChain { .. })).count();
    assert_eq!(extended, 3);
}

#[test]
fn confirmations_unknown_block_fails() {
    let (relay, _genesis_hash) = genesis_relay();
    let missing = vec![5u8; 32];
    assert!(matches!(relay.check_confirmations(&missing, 1), Err(Error::HeaderNotFound)));
}

#[test]
fn equal_height_fork_keeps_main_then_reorg() {
    let (mut relay, genesis_hash) = genesis_relay();
    let h1 = mine(&genesis_hash, &[0u8; 32], 1010, EASY_BITS);
    relay.submit_header(&h1).expect("height 1");
    let h1_hash = sha256d(&h1);
    let h2a = mine(&h1_hash, &[1u8; 32], 1020, EASY_BITS);
    relay.submit_header(&h2a).expect("height 2 main");
    // Competing header at height 2: its parent sits below main's tip.
    let h2b = mine(&h1_hash, &[2u8; 32], 1021, EASY_BITS);
    relay.submit_header(&h2b).expect("height 2 fork");
    assert_eq!(relay.main_index, 0, "no reorg on an equal-height tie");
    assert_eq!(relay.chains.len(), 2);
    assert!(!relay.events.iter().any(|e| matches!(e, Event::ChainReorg { .. })));
    // Extend the fork past main: the fork becomes main.
    let h2b_hash = sha256d(&h2b);
    let h3b = mine(&h2b_hash, &[3u8; 32], 1030, EASY_BITS);
    relay.submit_header(&h3b).expect("height 3 fork");
    assert_eq!(relay.main_index, 1);
    assert_eq!(relay.best_block_height, 3);
    let reorgs: Vec<(u64, u64, u64)> = relay
        .events
        .iter()
        .filter_map(|e| match e {
            Event::ChainReorg { old_main_id, new_main_id, fork_height } => {
                Some((*old_main_id, *new_main_id, *fork_height))
            },
            _ => None,
        })
        .collect();
    assert_eq!(reorgs, vec![(0, 1, 2)]);
    // The old main-chain block at height 2 now sits on a fork.
    let h2a_hash = sha256d(&h2a);
    assert!(matches!(relay.check_confirmations(&h2a_hash, 1), Err(Error::Confirmations)));
    assert!(relay.check_confirmations(&h2b_hash, 2).is_ok());
}

#[test]
fn fork_invalidated_by_bad_tip_extension() {
    let (mut relay, genesis_hash) = genesis_relay();
    let h1 = mine(&genesis_hash, &[0u8; 32], 1010, EASY_BITS);
    relay.submit_header(&h1).expect("height 1");
    let h1b = mine(&genesis_hash, &[7u8; 32], 1011, EASY_BITS);
    relay.submit_header(&h1b).expect("fork at height 1");
    assert_eq!(relay.chains.len(), 2);
    assert!(!relay.chains[1].invalid);
    // A wrong-target header on the fork's tip marks the fork invalid.
    let h1b_hash = sha256d(&h1b);
    let bad = mine(&h1b_hash, &[8u8; 32], 1012, 0x2000ffff);
    assert!(matches!(relay.submit_header(&bad), Err(Error::DiffTargetHeader)));
    assert!(relay.chains[1].invalid);
    assert_eq!(relay.main_index, 0);
}
