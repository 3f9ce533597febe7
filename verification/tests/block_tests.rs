use sedly::block::{bits_to_target, target_to_bits, Block, BlockHeader};
use sedly::hashing::sha256_digest;
use sedly::transaction::Transaction;

#[test]
fn test_block_header_hash() {
    let header = BlockHeader::new(1, [0; 32], [0; 32], 0x1d00ffff, 0);

    let hash = header.hash();
    assert_eq!(hash.len(), 32);
    assert_ne!(hash, [0; 32]);
}

#[test]
fn test_genesis_block() {
    let genesis = Block::genesis();
    assert_eq!(genesis.header.height, 0);
    assert_eq!(genesis.header.previous_hash, [0; 32]);
    assert_eq!(genesis.transactions.len(), 1);
}

#[test]
fn test_bits_conversion() {
    let bits = 0x1d00ffff;
    let target = bits_to_target(bits);
    let converted_back = target_to_bits(&target);
    assert_eq!(bits, converted_back);
}

#[test]
fn test_bits_conversion_more_values() {
    for bits in [0x1d00ffffu32, 0x1c0000ff, 0x1b000001, 0x200000ab, 0x04000011] {
        let target = bits_to_target(bits);
        assert_eq!(target_to_bits(&target), bits);
    }
    assert_eq!(target_to_bits(&bits_to_target(0)), 0);
}

#[test]
fn test_merkle_root_of_single_transaction_is_its_id() {
    let tx = Transaction::genesis();
    let txs = vec![tx.clone()];
    assert_eq!(Block::calculate_merkle_root(&txs), tx.hash());
}

#[test]
fn test_merkle_root_of_no_transactions_is_zero() {
    let txs: Vec<Transaction> = Vec::new();
    assert_eq!(Block::calculate_merkle_root(&txs), [0u8; 32]);
}

#[test]
fn test_merkle_root_odd_count_duplicates_last() {
    let t0 = Transaction::coinbase(b"a", 0, 10);
    let t1 = Transaction::coinbase(b"b", 1, 20);
    let t2 = Transaction::coinbase(b"c", 2, 30);
    let txs = vec![t0.clone(), t1.clone(), t2.clone()];

    let pair = |a: &[u8; 32], b: &[u8; 32]| {
        let mut combined = Vec::new();
        combined.extend_from_slice(a);
        combined.extend_from_slice(b);
        sha256_digest(&combined)
    };
    let l0 = pair(&t0.hash(), &t1.hash());
    let l1 = pair(&t2.hash(), &t2.hash());
    let expected = pair(&l0, &l1);

    assert_eq!(Block::calculate_merkle_root(&txs), expected);
}

#[test]
fn test_block_encoding_round_trip() {
    let genesis = Block::genesis();
    let bytes = sedly::block::encode_block(&genesis);
    let back = sedly::block::decode_block(&bytes).expect("canonical bytes parse");
    assert_eq!(back, genesis);
    assert_eq!(back.hash(), genesis.hash());
}

#[test]
fn test_block_new_recomputes_merkle_root() {
    let txs = vec![Transaction::genesis()];
    let expected = Block::calculate_merkle_root(&txs);
    let block = Block::new([7; 32], txs, 0x1d00ffff, 3);
    assert_eq!(block.header.merkle_root, expected);
    assert_eq!(block.header.previous_hash, [7; 32]);
    assert_eq!(block.header.bits, 0x1d00ffff);
    assert_eq!(block.header.height, 3);
    assert_eq!(block.header.nonce, 0);
}

#[test]
fn test_sha256_digest_known_vector() {
    let digest = sha256_digest(b"abc");
    let expected: [u8; 32] = [
        0xba, 0x78, 0x16, 0xbf, 0x8f, 0x01, 0xcf, 0xea, 0x41, 0x41, 0x40, 0xde, 0x5d, 0xae,
        0x22, 0x23, 0xb0, 0x03, 0x61, 0xa3, 0x96, 0x17, 0x7a, 0x9c, 0xb4, 0x10, 0xff, 0x61,
        0xf2, 0x00, 0x15, 0xad,
    ];
    assert_eq!(digest, expected);
}

#[test]
fn test_hex_encode_is_not_identity() {
    let hexed = sedly::hashing::hex_encode(&[0xbe, 0xef, 0x01]);
    assert_eq!(hexed, "beef01");
}

fn mine_easy(block: &mut Block) {
    let mut nonce = 0u64;
    while !block.header.meets_difficulty() && nonce < 100_000 {
        nonce += 1;
        block.header.nonce = nonce;
    }
    assert!(block.header.meets_difficulty());
}

#[test]
fn test_block_validity_includes_transaction_validity() {
    // Under the easiest representable target, with a matching Merkle root
    // and satisfied proof of work, validity still turns on the
    // transactions: a zero-value output sinks the block.
    let mut bad_tx = Transaction::coinbase(b"payee", 1, 50);
    bad_tx.outputs[0].value = 0;
    let mut bad = Block::new([0; 32], vec![bad_tx], 0x20ffffff, 1);
    mine_easy(&mut bad);
    assert!(!bad.is_valid());

    let mut good = Block::new([0; 32], vec![Transaction::coinbase(b"payee", 1, 50)], 0x20ffffff, 1);
    mine_easy(&mut good);
    assert!(good.is_valid());
}
