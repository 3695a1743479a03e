use poa_chain::block::{Block, BlockChain, BlockHeader, HEADER_WO_SIGN_CAPACITY_BYTES, VERSION};
use poa_chain::cli::bytes_to_hex;
use poa_chain::crypto::{calc_hash, calc_merkle_root, hash_pair, Hash32Type};
use poa_chain::errors::BlockError;
use poa_chain::signing::{pubkey_from_seed, sign_with_seed, Ed25519Signer, Ed25519Verifier, Signer, Verifier};
use poa_chain::transaction::Transaction;

fn tx(id: u64, text: &str) -> Transaction {
    Transaction::new(id, 7, 9, text.to_string())
}

fn next_block(prev: &Block, txs: Vec<Transaction>, seed: [u8; 32]) -> Block {
    let mut b = Block::build_unsigned(prev.header.index + 1, prev.hash(), txs, 0, 0, 1_700_000_000);
    b.sign(&Ed25519Signer::new_from_seed(seed)).unwrap();
    b
}

#[test]
fn sha256_of_known_inputs() {
    assert_eq!(
        bytes_to_hex(&calc_hash(b"")),
        "e3b0c44298fc1c149afbf4c8996fb92427ae41e4649b934ca495991b7852b855"
    );
    assert_eq!(
        bytes_to_hex(&calc_hash(b"abc")),
        "ba7816bf8f01cfea414140de5dae2223b00361a396177a9cb410ff61f20015ad"
    );
}

#[test]
fn hash_pair_hashes_the_concatenation() {
    let a = calc_hash(b"left");
    let b = calc_hash(b"right");
    let mut buf = Vec::new();
    buf.extend_from_slice(&a);
    buf.extend_from_slice(&b);
    assert_eq!(hash_pair(a, b), calc_hash(&buf));
    assert_ne!(hash_pair(a, b), hash_pair(b, a));
}

#[test]
fn transaction_hash_is_sha256_of_its_postcard_encoding() {
    let t = Transaction::new(1, 2, 3, "hi".to_string());
    // postcard: varint id, from, to, then the text's length and its bytes
    assert_eq!(t.hash(), calc_hash(&[1, 2, 3, 2, b'h', b'i']));
    let big = Transaction::new(300, 0, 0, String::new());
    assert_eq!(big.hash(), calc_hash(&[0xac, 0x02, 0, 0, 0]));
}

#[test]
fn transaction_hash_depends_on_every_field() {
    let base = Transaction::new(1, 2, 3, "x".to_string());
    assert_ne!(base.hash(), Transaction::new(2, 2, 3, "x".to_string()).hash());
    assert_ne!(base.hash(), Transaction::new(1, 3, 3, "x".to_string()).hash());
    assert_ne!(base.hash(), Transaction::new(1, 2, 4, "x".to_string()).hash());
    assert_ne!(base.hash(), Transaction::new(1, 2, 3, "y".to_string()).hash());
    assert_eq!(base.hash(), base.clone().hash());
}

#[test]
fn merkle_root_of_no_transactions_is_hash_of_nothing() {
    assert_eq!(calc_merkle_root(&[]), calc_hash(&[]));
}

#[test]
fn merkle_root_of_one_transaction_is_its_hash() {
    let t = tx(1, "a");
    assert_eq!(calc_merkle_root(&[t.clone()]), t.hash());
}

#[test]
fn merkle_root_pairs_and_duplicates_the_odd_one() {
    let (a, b, c) = (tx(1, "a"), tx(2, "b"), tx(3, "c"));
    let (ha, hb, hc) = (a.hash(), b.hash(), c.hash());
    assert_eq!(calc_merkle_root(&[a.clone(), b.clone()]), hash_pair(ha, hb));
    let expected = hash_pair(hash_pair(ha, hb), hash_pair(hc, hc));
    assert_eq!(calc_merkle_root(&[a, b, c]), expected);
}

#[test]
fn genesis_header_fields() {
    let h = BlockHeader::new_genesis();
    assert_eq!(h.version, VERSION);
    assert_eq!(h.index, 0);
    assert_eq!(h.previous_hash, [0u8; 32]);
    assert_eq!(h.merkle_root, calc_hash(&[]));
    assert_eq!(h.timestamp, 0);
    assert_eq!(h.round, 0);
    assert_eq!(h.proposer_id, 0);
    assert_eq!(h.signature, [0u8; 64]);
    let g = Block::new_genesis(h);
    assert!(g.transactions().is_empty());
}

#[test]
fn header_bytes_are_big_endian_fields_in_order() {
    let prev: Hash32Type = [0x11; 32];
    let b = Block::build_unsigned(0x0102030405060708, prev, vec![], 0x0a0b, 0x0c0d0e0f, 0x1234);
    let bytes = b.header_wo_signature_to_bytes();
    assert_eq!(bytes.len(), HEADER_WO_SIGN_CAPACITY_BYTES);
    assert_eq!(&bytes[0..4], &[0, 0, 0, 0]);
    assert_eq!(&bytes[4..12], &[1, 2, 3, 4, 5, 6, 7, 8]);
    assert_eq!(&bytes[12..44], &prev);
    assert_eq!(&bytes[44..76], &calc_hash(&[]));
    assert_eq!(&bytes[76..84], &[0, 0, 0, 0, 0, 0, 0x12, 0x34]);
    assert_eq!(&bytes[84..92], &[0, 0, 0, 0, 0, 0, 0x0a, 0x0b]);
    assert_eq!(&bytes[92..96], &[0x0c, 0x0d, 0x0e, 0x0f]);
}

#[test]
fn block_hash_covers_the_signature() {
    let seed = [5u8; 32];
    let genesis = BlockChain::new(1).last().clone();
    let b = next_block(&genesis, vec![tx(1, "a")], seed);
    let mut full = b.header_wo_signature_to_bytes();
    full.extend_from_slice(&b.header.signature);
    assert_eq!(b.hash(), calc_hash(&full));
    let mut other = b.clone();
    other.header.signature[0] ^= 1;
    assert_ne!(b.hash(), other.hash());
}

#[test]
fn signing_a_block_stores_the_seed_signature() {
    let seed = [9u8; 32];
    let genesis = BlockChain::new(1).last().clone();
    let mut b = Block::build_unsigned(1, genesis.hash(), vec![tx(1, "a")], 0, 0, 5);
    let unsigned = b.header_wo_signature_to_bytes();
    b.sign(&Ed25519Signer::new_from_seed(seed)).unwrap();
    assert_eq!(b.header.signature, sign_with_seed(&seed, &unsigned));
    assert!(Ed25519Verifier.verify(&pubkey_from_seed(seed), &unsigned, &b.header.signature));
    assert_eq!(b.header_wo_signature_to_bytes(), unsigned);
}

#[test]
fn ed25519_rfc8032_first_vector() {
    let seed: [u8; 32] = poa_chain::cli::hex_to_32(
        "9d61b19deffd5a60ba844af492ec2cc44449c5697b326919703bac031cae7f60",
    )
    .unwrap();
    assert_eq!(
        bytes_to_hex(&pubkey_from_seed(seed)),
        "d75a980182b10ab7d54bfed3c964073a0ee172f3daa62325af021a68f707511a"
    );
    let sig = Ed25519Signer::new_from_seed(seed).sign(b"").unwrap();
    assert_eq!(
        bytes_to_hex(&sig),
        "e5564300c360ac729086e2cc806e828a84877f1eb8e5d974d873e065224901555fb8821590a33bacc61e39701cf9b46bd25bf5f0595bbe24655141438e7a100b"
    );
    assert_eq!(Ed25519Signer::new_from_seed(seed).pubkey(), pubkey_from_seed(seed));
}

#[test]
fn verifier_rejects_tampering() {
    let seed = [3u8; 32];
    let pk = pubkey_from_seed(seed);
    let sig = sign_with_seed(&seed, b"data");
    assert!(Ed25519Verifier.verify(&pk, b"data", &sig));
    assert!(!Ed25519Verifier.verify(&pk, b"date", &sig));
    let mut bad = sig;
    bad[10] ^= 0x40;
    assert!(!Ed25519Verifier.verify(&pk, b"data", &bad));
    assert!(!Ed25519Verifier.verify(&pubkey_from_seed([4u8; 32]), b"data", &sig));
}

#[test]
fn validate_accepts_a_proper_successor() {
    let genesis = BlockChain::new(1).last().clone();
    let b = next_block(&genesis, vec![tx(1, "a")], [1u8; 32]);
    assert_eq!(b.validate(&genesis), Ok(()));
}

#[test]
fn validate_refuses_genesis_index() {
    let genesis = BlockChain::new(1).last().clone();
    let b = Block::build_unsigned(0, genesis.hash(), vec![], 0, 0, 0);
    assert_eq!(b.validate(&genesis), Err(BlockError::GenesisNotAllowedHere));
}

#[test]
fn validate_refuses_wrong_index() {
    let genesis = BlockChain::new(1).last().clone();
    let b = Block::build_unsigned(2, genesis.hash(), vec![], 0, 0, 0);
    assert_eq!(b.validate(&genesis), Err(BlockError::InvalidIndex { expected: 1, got: 2 }));
}

#[test]
fn validate_refuses_wrong_previous_hash() {
    let genesis = BlockChain::new(1).last().clone();
    let b = Block::build_unsigned(1, [0u8; 32], vec![], 0, 0, 0);
    assert_eq!(b.validate(&genesis), Err(BlockError::InvalidPrevHash));
}

#[test]
fn validate_refuses_wrong_merkle_root() {
    let genesis = BlockChain::new(1).last().clone();
    let mut b = Block::build_unsigned(1, genesis.hash(), vec![tx(1, "a")], 0, 0, 0);
    b.header.merkle_root = calc_hash(b"not it");
    assert_eq!(b.validate(&genesis), Err(BlockError::InvalidMerkleRoot));
}

#[test]
fn new_chain_holds_genesis_only() {
    let chain = BlockChain::new(1);
    assert_eq!(chain.block_count(), 1);
    assert_eq!(chain.get_height(), 0);
    assert_eq!(chain.get_round(), 0);
    assert!(chain.is_valid());
    assert_eq!(chain.last().header.index, 0);
    assert!(chain.get_block(0).is_some());
    assert!(chain.get_block(1).is_none());
}

#[test]
fn appending_validated_blocks_keeps_chain_valid() {
    let mut chain = BlockChain::new(1);
    for i in 0..3u64 {
        let b = next_block(chain.last(), vec![tx(i, "t")], [1u8; 32]);
        assert_eq!(b.validate(chain.last()), Ok(()));
        chain.add_block(b);
        assert!(chain.is_valid());
    }
    assert_eq!(chain.get_height(), 3);
    assert_eq!(chain.get_block(2).unwrap().header.index, 2);
}

#[test]
fn chain_with_broken_link_is_invalid() {
    let mut chain = BlockChain::new(1);
    let b1 = next_block(chain.last(), vec![tx(1, "a")], [1u8; 32]);
    chain.add_block(b1);
    let stray = Block::build_unsigned(2, [7u8; 32], vec![], 0, 0, 0);
    chain.add_block(stray);
    assert!(!chain.is_valid());
}

#[test]
fn chain_with_bad_merkle_root_is_invalid() {
    let mut chain = BlockChain::new(1);
    let mut b1 = next_block(chain.last(), vec![tx(1, "a")], [1u8; 32]);
    b1.transactions.push(tx(2, "b"));
    chain.add_block(b1);
    assert!(!chain.is_valid());
}
