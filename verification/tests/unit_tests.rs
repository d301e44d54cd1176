use btc_relay::hashing::sha256d;
use btc_relay::header::BlockHeader;
use btc_relay::merkle::{merkle_parent, verify_merkle_proof};
use btc_relay::pow::{check_proof_of_work, decode_compact};
use btc_relay::retarget::{next_target, unrounded_max_target};
use btc_relay::{Error, ExtBuilder, U256};

#[test]
fn error_messages_are_verbatim() {
    assert_eq!(Error::AlreadyInitialized.message(), "Already initialized");
    assert_eq!(Error::InvalidHeaderSize.message(), "Invalid block header size");
    assert_eq!(Error::DuplicateBlock.message(), "Block already stored");
    assert_eq!(Error::PrevBlock.message(), "Previous block hash not found");
    assert_eq!(Error::LowDiff.message(), "PoW hash does not meet difficulty target of header");
    assert_eq!(
        Error::DiffTargetHeader.message(),
        "Incorrect difficulty target specified in block header"
    );
    assert_eq!(Error::MalformedTxid.message(), "Malformed transaction identifier");
    assert_eq!(
        Error::Confirmations.message(),
        "Transaction has less confirmations than requested"
    );
    assert_eq!(Error::InvalidMerkleProof.message(), "Invalid Merkle Proof");
    assert_eq!(Error::HeaderNotFound.message(), "Block header not found for given hash");
}

#[test]
fn header_codec_round_trip() {
    let mut raw = Vec::new();
    raw.extend_from_slice(&0x2000_0001u32.to_le_bytes());
    raw.extend_from_slice(&[0xabu8; 32]);
    raw.extend_from_slice(&[0xcdu8; 32]);
    raw.extend_from_slice(&0x5f5e_0f00u32.to_le_bytes());
    raw.extend_from_slice(&0x207f_ffffu32.to_le_bytes());
    raw.extend_from_slice(&42u32.to_le_bytes());
    let header = BlockHeader::decode(&raw).expect("decode");
    assert_eq!(header.version, 0x2000_0001);
    assert_eq!(header.prev_hash, vec![0xabu8; 32]);
    assert_eq!(header.merkle_root, vec![0xcdu8; 32]);
    assert_eq!(header.timestamp, 0x5f5e_0f00);
    assert_eq!(header.bits, 0x207f_ffff);
    assert_eq!(header.nonce, 42);
    let encoded = header.encode();
    assert_eq!(encoded, raw);
    assert_eq!(header.block_hash(), sha256d(&raw));
}

#[test]
fn header_decode_rejects_other_sizes() {
    assert!(matches!(BlockHeader::decode(&vec![0u8; 79]), Err(Error::InvalidHeaderSize)));
    assert!(matches!(BlockHeader::decode(&vec![0u8; 81]), Err(Error::InvalidHeaderSize)));
}

#[test]
fn compact_decoding_places_mantissa() {
    // Exponent 4: mantissa shifted one byte up.
    let t = decode_compact(0x0412_3456).expect("valid");
    assert_eq!((t.w0, t.w1, t.w2, t.w3), (0x1234_5600, 0, 0, 0));
    // Exponent 2: mantissa shifted one byte down.
    let t = decode_compact(0x0212_3456).expect("valid");
    assert_eq!((t.w0, t.w1, t.w2, t.w3), (0x1234, 0, 0, 0));
    // Exponent 32: mantissa just below the top of the range.
    let t = decode_compact(0x207f_ffff).expect("valid");
    assert_eq!((t.w0, t.w1, t.w2, t.w3), (0, 0, 0, 0x7fff_ff00_0000_0000));
    // Zero mantissa is a zero target.
    let t = decode_compact(0x2000_0000).expect("valid");
    assert_eq!((t.w0, t.w1, t.w2, t.w3), (0, 0, 0, 0));
}

#[test]
fn compact_decoding_rejects_malformed() {
    // Sign bit with nonzero mantissa.
    assert!(matches!(decode_compact(0x0480_0001), Err(Error::InvalidHeaderSize)));
    // Does not fit in 256 bits.
    assert!(matches!(decode_compact(0xff12_3456), Err(Error::InvalidHeaderSize)));
    assert!(matches!(decode_compact(0x2201_0000), Err(Error::InvalidHeaderSize)));
}

#[test]
fn proof_of_work_comparison() {
    let target = decode_compact(0x0300_ffff).expect("valid");
    let mut low = vec![0u8; 32];
    low[0] = 0xff;
    low[1] = 0xff;
    assert!(check_proof_of_work(&low, &target).is_ok());
    let mut high = vec![0u8; 32];
    high[2] = 0x01;
    assert!(matches!(check_proof_of_work(&high, &target), Err(Error::LowDiff)));
}

#[test]
fn retarget_scales_by_actual_timespan() {
    let current = U256 { w0: 1_209_600, w1: 0, w2: 0, w3: 0 };
    // Twice the goal: the target doubles.
    let doubled = next_target(&current, 0, 2_419_200);
    assert_eq!((doubled.w0, doubled.w1, doubled.w2, doubled.w3), (2_419_200, 0, 0, 0));
    // Exactly the goal: unchanged.
    let same = next_target(&current, 1000, 1000 + 1_209_600);
    assert_eq!(same.w0, 1_209_600);
}

#[test]
fn retarget_clamps_timespan() {
    let current = U256 { w0: 1_209_600, w1: 0, w2: 0, w3: 0 };
    // Instant interval: clamped to a quarter of the goal.
    let fast = next_target(&current, 5000, 5000);
    assert_eq!(fast.w0, 302_400);
    // Backwards timestamps clamp the same way.
    let backwards = next_target(&current, 5000, 4000);
    assert_eq!(backwards.w0, 302_400);
    // A very slow interval: clamped to four times the goal.
    let slow = next_target(&current, 0, 100_000_000);
    assert_eq!(slow.w0, 4_838_400);
}

#[test]
fn retarget_caps_at_max_target() {
    let maxt = unrounded_max_target();
    let capped = next_target(&maxt, 0, 100_000_000);
    assert_eq!(
        (capped.w0, capped.w1, capped.w2, capped.w3),
        (maxt.w0, maxt.w1, maxt.w2, maxt.w3)
    );
}

#[test]
fn u256_order_and_bytes() {
    let mut bytes = vec![0u8; 32];
    bytes[0] = 2;
    bytes[8] = 1;
    let v = U256::from_le_bytes(&bytes);
    assert_eq!((v.w0, v.w1, v.w2, v.w3), (2, 1, 0, 0));
    let smaller = U256 { w0: u64::MAX, w1: 0, w2: 0, w3: 0 };
    assert!(smaller.le(&v));
    assert!(!v.le(&smaller));
    assert!(v.le(&v));
}

fn tree_of_four() -> (Vec<Vec<u8>>, Vec<u8>, Vec<u8>, Vec<u8>) {
    let leaves: Vec<Vec<u8>> = (0u8..4).map(|i| vec![i; 32]).collect();
    let n01 = merkle_parent(&leaves[0], &leaves[1]);
    let n23 = merkle_parent(&leaves[2], &leaves[3]);
    let root = merkle_parent(&n01, &n23);
    (leaves, n01, n23, root)
}

#[test]
fn merkle_round_trip_all_leaves() {
    let (leaves, n01, n23, root) = tree_of_four();
    let paths = [
        vec![leaves[1].clone(), n23.clone()],
        vec![leaves[0].clone(), n23.clone()],
        vec![leaves[3].clone(), n01.clone()],
        vec![leaves[2].clone(), n01.clone()],
    ];
    for (i, path) in paths.iter().enumerate() {
        assert!(
            verify_merkle_proof(&leaves[i], &root, path, i as u64, 2).is_ok(),
            "leaf {} should verify",
            i
        );
        // Corrupting any single sibling hash breaks the proof.
        for level in 0..path.len() {
            let mut bad = path.clone();
            bad[level][0] ^= 1;
            assert!(matches!(
                verify_merkle_proof(&leaves[i], &root, &bad, i as u64, 2),
                Err(Error::InvalidMerkleProof)
            ));
        }
    }
}

#[test]
fn merkle_rejects_malformed_txid_and_height() {
    let (leaves, _n01, n23, root) = tree_of_four();
    let path = vec![leaves[1].clone(), n23];
    let short_txid = vec![0u8; 31];
    assert!(matches!(
        verify_merkle_proof(&short_txid, &root, &path, 0, 2),
        Err(Error::MalformedTxid)
    ));
    assert!(matches!(
        verify_merkle_proof(&leaves[0], &root, &path, 0, 3),
        Err(Error::InvalidMerkleProof)
    ));
}

#[test]
fn transaction_inclusion_through_relay() {
    let (leaves, _n01, n23, root) = tree_of_four();
    let mut raw = Vec::new();
    raw.extend_from_slice(&1u32.to_le_bytes());
    raw.extend_from_slice(&[0u8; 32]);
    raw.extend_from_slice(&root);
    raw.extend_from_slice(&1000u32.to_le_bytes());
    raw.extend_from_slice(&0x207f_ffffu32.to_le_bytes());
    raw.extend_from_slice(&0u32.to_le_bytes());
    let mut relay = ExtBuilder::build();
    relay.initialize(&raw, 0).expect("initialize");
    let block_hash = sha256d(&raw);
    let path = vec![leaves[1].clone(), n23];
    assert!(relay.verify_transaction_inclusion(&leaves[0], &block_hash, &path, 0).is_ok());
    assert!(matches!(
        relay.verify_transaction_inclusion(&leaves[2], &block_hash, &path, 0),
        Err(Error::InvalidMerkleProof)
    ));
    let unknown = vec![9u8; 32];
    assert!(matches!(
        relay.verify_transaction_inclusion(&leaves[0], &unknown, &path, 0),
        Err(Error::HeaderNotFound)
    ));
}
