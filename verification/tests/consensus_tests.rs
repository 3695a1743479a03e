use std::time::{Duration, Instant};

use poa_chain::block::{Block, BlockChain};
use poa_chain::errors::BlockError;
use poa_chain::poa::{ConsensusError, PoAConsensus, PoAConsensusConfig, PoAConsensusState, Validator};
use poa_chain::signing::{pubkey_from_seed, Ed25519Signer, Ed25519Verifier};
use poa_chain::transaction::Transaction;

fn seeds() -> Vec<[u8; 32]> {
    vec![[1u8; 32], [2u8; 32], [3u8; 32]]
}

fn config(ks: &[[u8; 32]]) -> PoAConsensusConfig {
    let validators = ks.iter().map(|s| Validator::new(pubkey_from_seed(*s))).collect();
    PoAConsensusConfig::new(validators, 3_000, 10_000, 100)
}

fn consensus() -> PoAConsensus<Ed25519Verifier> {
    PoAConsensus::new(config(&seeds()), PoAConsensusState::new(0, 0, Instant::now()), Ed25519Verifier).unwrap()
}

fn proposal(prev: &Block, round: u64, proposer_id: u32, seed: [u8; 32]) -> Block {
    let txs = vec![Transaction::new(1, 0, 0, "t".to_string())];
    let mut b = Block::build_unsigned(prev.header.index + 1, prev.hash(), txs, round, proposer_id, 10);
    b.sign(&Ed25519Signer::new_from_seed(seed)).unwrap();
    b
}

#[test]
fn config_with_distinct_keys_is_valid() {
    assert!(config(&seeds()).validate_config());
    assert_eq!(config(&seeds()).slot_duration_ms(), 3_000);
}

#[test]
fn config_without_validators_is_invalid() {
    assert!(!config(&[]).validate_config());
}

#[test]
fn config_with_repeated_key_is_invalid() {
    assert!(!config(&[[1u8; 32], [2u8; 32], [1u8; 32]]).validate_config());
}

#[test]
fn consensus_refuses_invalid_config() {
    let r = PoAConsensus::new(config(&[]), PoAConsensusState::new(0, 0, Instant::now()), Ed25519Verifier);
    assert_eq!(r.err(), Some(ConsensusError::InvalidConfig));
}

#[test]
fn consensus_keeps_config_and_state() {
    let c = PoAConsensus::new(config(&seeds()), PoAConsensusState::new(4, 2, Instant::now()), Ed25519Verifier).unwrap();
    assert_eq!(c.get_current_round(), 2);
    assert_eq!(c.state.current_height, 4);
    assert_eq!(c.config.validators.len(), 3);
}

#[test]
fn update_state_moves_height_and_round() {
    let mut c = consensus();
    let t1 = Instant::now();
    c.update_state(Some(5), 1, t1);
    assert_eq!((c.state.current_height, c.state.current_round), (5, 1));
    assert_eq!(c.state.round_started_at, t1);
    let t2 = t1 + Duration::from_secs(7);
    c.update_state(None, 3, t2);
    assert_eq!((c.state.current_height, c.state.current_round), (5, 3));
    assert_eq!(c.state.round_started_at, t2);
}

#[test]
fn new_state_starts_its_round_at_the_reading_given() {
    let t = Instant::now();
    let st = PoAConsensusState::new(2, 1, t);
    assert_eq!((st.current_height, st.current_round, st.round_started_at), (2, 1, t));
}

#[test]
fn proposers_take_turns() {
    let c = consensus();
    let ids: Vec<u32> = (1..=6).map(|h| c.expected_proposer(h, 0).0).collect();
    assert_eq!(ids, vec![0, 1, 2, 0, 1, 2]);
    // each round moves one further
    assert_eq!(c.expected_proposer(1, 1).0, 1);
    assert_eq!(c.expected_proposer(1, 2).0, 2);
    assert_eq!(c.expected_proposer(3, 1).0, 0);
    let (id, v) = c.expected_proposer(2, 0);
    assert_eq!(id, 1);
    assert_eq!(v.pubkey, pubkey_from_seed([2u8; 32]));
}

#[test]
fn proposer_of_large_height_and_round_does_not_overflow() {
    let c = consensus();
    let id = c.expected_proposer(u64::MAX, u64::MAX).0;
    let expected = ((u64::MAX as u128 - 1 + u64::MAX as u128) % 3) as u32;
    assert_eq!(id, expected);
}

#[test]
fn validate_block_accepts_expected_proposer() {
    let c = consensus();
    let genesis = BlockChain::new(1).last().clone();
    let b = proposal(&genesis, 0, 0, [1u8; 32]);
    assert_eq!(c.validate_block(&genesis, &b), Ok(()));
    let b2 = proposal(&b, 0, 1, [2u8; 32]);
    assert_eq!(c.validate_block(&b, &b2), Ok(()));
    let late = proposal(&genesis, 1, 1, [2u8; 32]);
    assert_eq!(c.validate_block(&genesis, &late), Ok(()));
}

#[test]
fn validate_block_refuses_wrong_proposer() {
    let c = consensus();
    let genesis = BlockChain::new(1).last().clone();
    let b = proposal(&genesis, 0, 1, [2u8; 32]);
    assert_eq!(c.validate_block(&genesis, &b), Err(BlockError::InvalidProposer { expected: 0, got: 1 }));
}

#[test]
fn validate_block_refuses_foreign_signature() {
    let c = consensus();
    let genesis = BlockChain::new(1).last().clone();
    let b = proposal(&genesis, 0, 0, [2u8; 32]);
    assert_eq!(c.validate_block(&genesis, &b), Err(BlockError::InvalidSignature));
}

#[test]
fn validate_block_checks_links_first() {
    let c = consensus();
    let genesis = BlockChain::new(1).last().clone();
    let b = proposal(&genesis, 0, 2, [9u8; 32]);
    let mut skipped = b.clone();
    skipped.header.index = 5;
    assert_eq!(c.validate_block(&genesis, &skipped), Err(BlockError::InvalidIndex { expected: 1, got: 5 }));
    let genesis_again = Block::new_genesis(genesis.header);
    assert_eq!(c.validate_block(&genesis, &genesis_again), Err(BlockError::GenesisNotAllowedHere));
}
