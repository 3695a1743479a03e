use std::sync::mpsc::{channel, Receiver};
use std::time::Instant;

use poa_chain::block::{Block, BlockChain};
use poa_chain::cli::CliArgs;
use poa_chain::commands::{alive_transaction, setup_node, ALIVE_TRX_BASE};
use poa_chain::message::ProtocolMessage;
use poa_chain::node::{Node, NodeMessage, SYNC_LIMIT};
use poa_chain::poa::{ConsensusError, PoAConsensus, PoAConsensusConfig, PoAConsensusState, Validator};
use poa_chain::signing::{pubkey_from_seed, Ed25519Signer, Ed25519Verifier};
use poa_chain::transaction::Transaction;

const SEED_A: [u8; 32] = [1u8; 32];
const SEED_B: [u8; 32] = [2u8; 32];
const SEED_F: [u8; 32] = [3u8; 32];

fn cli_args(seed: [u8; 32], validators: &[[u8; 32]]) -> CliArgs {
    CliArgs {
        node_id: u32::from_be_bytes([seed[0], seed[1], seed[2], seed[3]]),
        listen: "127.0.0.1:0".to_string(),
        admin_listen: "127.0.0.1:0".to_string(),
        seed,
        validator_pubkeys: validators.iter().map(|s| pubkey_from_seed(*s)).collect(),
        peers: vec![],
    }
}

fn node(seed: [u8; 32], validators: &[[u8; 32]]) -> Node<Ed25519Verifier> {
    match setup_node(&cli_args(seed, validators)) {
        Ok(n) => n,
        Err(e) => panic!("setup failed: {e:?}"),
    }
}

/// Adds a peer and drains the status exchange that greets it.
fn connect(n: &mut Node<Ed25519Verifier>, peer_id: u32) -> Receiver<ProtocolMessage> {
    let (tx, rx) = channel();
    n.on_message(NodeMessage::AddPeer { peer_id, sender: tx });
    assert!(matches!(rx.try_recv(), Ok(ProtocolMessage::GetStatus)));
    assert!(matches!(rx.try_recv(), Ok(ProtocolMessage::Status { .. })));
    rx
}

fn tx(id: u64) -> Transaction {
    Transaction::new(id, 5, 6, format!("t{id}"))
}

fn signed(prev: &Block, txs: Vec<Transaction>, round: u64, proposer_id: u32, seed: [u8; 32]) -> Block {
    let mut b = Block::build_unsigned(prev.header.index + 1, prev.hash(), txs, round, proposer_id, 42);
    b.sign(&Ed25519Signer::new_from_seed(seed)).unwrap();
    b
}

fn genesis() -> Block {
    BlockChain::new(1).last().clone()
}

fn net(peer_id: u32, msg: ProtocolMessage) -> NodeMessage {
    NodeMessage::Net { peer_id, msg }
}

fn fetch_all(n: &mut Node<Ed25519Verifier>, peer_id: u32, rx: &Receiver<ProtocolMessage>) -> Vec<Block> {
    n.on_message(net(peer_id, ProtocolMessage::GetBlocks { start: 0, limit: 100 }));
    match rx.try_recv() {
        Ok(ProtocolMessage::Blocks { blocks }) => blocks,
        other => panic!("expected blocks, got {other:?}"),
    }
}

#[test]
fn setup_refuses_unusable_validator_sets() {
    assert!(matches!(setup_node(&cli_args(SEED_A, &[])).err(), Some(ConsensusError::InvalidConfig)));
    assert!(matches!(
        setup_node(&cli_args(SEED_A, &[SEED_A, SEED_B, SEED_A])).err(),
        Some(ConsensusError::InvalidConfig)
    ));
}

#[test]
fn new_peer_gets_status_exchange() {
    let mut n = node(SEED_A, &[SEED_A]);
    let (tx, rx) = channel();
    n.add_peer(4, tx);
    assert!(matches!(rx.try_recv(), Ok(ProtocolMessage::GetStatus)));
    match rx.try_recv() {
        Ok(ProtocolMessage::Status { height, last_block_hash }) => {
            assert_eq!(height, 0);
            assert_eq!(last_block_hash, genesis().hash());
        }
        other => panic!("expected status, got {other:?}"),
    }
}

#[test]
fn local_transaction_is_pooled_and_gossiped_once() {
    let mut n = node(SEED_A, &[SEED_A]);
    let rx = connect(&mut n, 9);
    n.on_message(NodeMessage::LocalTrx(tx(1)));
    assert!(matches!(rx.try_recv(), Ok(ProtocolMessage::Trx(t)) if t.id == 1));
    n.on_message(NodeMessage::LocalTrx(tx(1)));
    assert!(rx.try_recv().is_err());
    n.on_message(net(9, ProtocolMessage::Trx(tx(2))));
    assert!(matches!(rx.try_recv(), Ok(ProtocolMessage::Trx(t)) if t.id == 2));
}

#[test]
fn validator_proposes_once_its_slot_has_passed() {
    let mut n = node(SEED_A, &[SEED_A]);
    let rx = connect(&mut n, 9);
    n.on_message(NodeMessage::LocalTrx(tx(1)));
    n.on_message(NodeMessage::LocalTrx(tx(2)));
    let _ = rx.try_recv();
    let _ = rx.try_recv();
    n.on_tick_at(2_999, 0, Some(1_000), Instant::now());
    assert!(rx.try_recv().is_err());
    n.on_tick_at(3_000, 0, Some(1_000), Instant::now());
    let b = match rx.try_recv() {
        Ok(ProtocolMessage::Block(b)) => b,
        other => panic!("expected a block, got {other:?}"),
    };
    assert_eq!(b.header.index, 1);
    assert_eq!(b.header.round, 0);
    assert_eq!(b.header.proposer_id, 0);
    assert_eq!(b.header.timestamp, 1_000);
    assert_eq!(b.header.previous_hash, genesis().hash());
    let ids: Vec<u64> = b.transactions().iter().map(|t| t.id).collect();
    assert_eq!(ids, vec![1, 2]);
    let config = PoAConsensusConfig::new(vec![Validator::new(pubkey_from_seed(SEED_A))], 3_000, 10_000, 100);
    let c = PoAConsensus::new(config, PoAConsensusState::new(0, 0, Instant::now()), Ed25519Verifier).unwrap();
    assert_eq!(c.validate_block(&genesis(), &b), Ok(()));
    assert!(n.debug_report().contains("is_valid=true"));
    // the pool is empty now: no further block
    n.on_tick_at(3_000, 0, Some(1_001), Instant::now());
    assert!(rx.try_recv().is_err());
    assert_eq!(fetch_all(&mut n, 9, &rx).len(), 2);
}

#[test]
fn proposal_takes_at_most_a_block_of_transactions() {
    let mut n = node(SEED_A, &[SEED_A]);
    let rx = connect(&mut n, 9);
    for i in 0..105 {
        n.on_message(NodeMessage::LocalTrx(tx(i)));
        let _ = rx.try_recv();
    }
    n.on_tick_at(3_000, 0, Some(7), Instant::now());
    match rx.try_recv() {
        Ok(ProtocolMessage::Block(b)) => assert_eq!(b.transactions().len(), 100),
        other => panic!("expected a block, got {other:?}"),
    }
    n.on_tick_at(3_000, 0, Some(8), Instant::now());
    match rx.try_recv() {
        Ok(ProtocolMessage::Block(b)) => {
            assert_eq!(b.header.index, 2);
            assert_eq!(b.transactions().len(), 5);
            assert_eq!(b.transactions()[0].id, 100);
        }
        other => panic!("expected a block, got {other:?}"),
    }
}

#[test]
fn other_validator_waits_for_its_turn_or_a_timeout() {
    let mut n = node(SEED_B, &[SEED_A, SEED_B]);
    let rx = connect(&mut n, 9);
    n.on_message(NodeMessage::LocalTrx(tx(1)));
    let _ = rx.try_recv();
    n.on_tick_at(5_000, 5_000, Some(1), Instant::now());
    assert!(rx.try_recv().is_err());
    n.on_tick_at(10_000, 10_000, Some(2), Instant::now());
    match rx.try_recv() {
        Ok(ProtocolMessage::Block(b)) => {
            assert_eq!(b.header.index, 1);
            assert_eq!(b.header.round, 1);
            assert_eq!(b.header.proposer_id, 1);
        }
        other => panic!("expected a block, got {other:?}"),
    }
}

#[test]
fn non_validator_never_proposes() {
    let mut n = node(SEED_F, &[SEED_A]);
    let rx = connect(&mut n, 9);
    n.on_message(NodeMessage::LocalTrx(tx(1)));
    let _ = rx.try_recv();
    n.on_tick_at(50_000, 50_000, Some(1), Instant::now());
    assert!(rx.try_recv().is_err());
}

#[test]
fn follower_accepts_next_block_and_passes_it_on() {
    let mut n = node(SEED_F, &[SEED_A]);
    let rx = connect(&mut n, 1);
    n.on_message(NodeMessage::LocalTrx(tx(1)));
    let _ = rx.try_recv();
    let b1 = signed(&genesis(), vec![tx(1)], 0, 0, SEED_A);
    n.on_message(net(1, ProtocolMessage::Block(b1.clone())));
    assert!(matches!(rx.try_recv(), Ok(ProtocolMessage::Block(b)) if b.hash() == b1.hash()));
    // seen once: not passed on again
    n.on_message(net(1, ProtocolMessage::Block(b1.clone())));
    assert!(rx.try_recv().is_err());
    let report = n.debug_report();
    assert!(report.contains("is_valid=true"));
    assert!(report.contains("queue: []"));
    let blocks = fetch_all(&mut n, 1, &rx);
    assert_eq!(blocks.len(), 2);
    assert_eq!(blocks[1].hash(), b1.hash());
}

#[test]
fn follower_refuses_block_with_foreign_signature() {
    let mut n = node(SEED_F, &[SEED_A]);
    let rx = connect(&mut n, 1);
    let forged = signed(&genesis(), vec![tx(1)], 0, 0, SEED_B);
    n.on_message(net(1, ProtocolMessage::Block(forged)));
    assert!(rx.try_recv().is_err());
    assert_eq!(fetch_all(&mut n, 1, &rx).len(), 1);
}

#[test]
fn get_status_is_answered() {
    let mut n = node(SEED_F, &[SEED_A]);
    let rx = connect(&mut n, 1);
    n.on_message(net(1, ProtocolMessage::GetStatus));
    assert!(matches!(rx.try_recv(), Ok(ProtocolMessage::Status { height: 0, .. })));
}

#[test]
fn get_blocks_pages_from_start() {
    let mut n = node(SEED_F, &[SEED_A]);
    let rx = connect(&mut n, 1);
    let b1 = signed(&genesis(), vec![tx(1)], 0, 0, SEED_A);
    let b2 = signed(&b1, vec![tx(2)], 0, 0, SEED_A);
    n.on_message(net(1, ProtocolMessage::Block(b1)));
    n.on_message(net(1, ProtocolMessage::Block(b2.clone())));
    let _ = rx.try_recv();
    let _ = rx.try_recv();
    n.on_message(net(1, ProtocolMessage::GetBlocks { start: 2, limit: 5 }));
    match rx.try_recv() {
        Ok(ProtocolMessage::Blocks { blocks }) => {
            assert_eq!(blocks.len(), 1);
            assert_eq!(blocks[0].hash(), b2.hash());
        }
        other => panic!("expected blocks, got {other:?}"),
    }
    n.on_message(net(1, ProtocolMessage::GetBlocks { start: 0, limit: 2 }));
    assert!(matches!(rx.try_recv(), Ok(ProtocolMessage::Blocks { blocks }) if blocks.len() == 2));
    n.on_message(net(1, ProtocolMessage::GetBlocks { start: 7, limit: 2 }));
    assert!(matches!(rx.try_recv(), Ok(ProtocolMessage::Blocks { blocks }) if blocks.is_empty()));
}

#[test]
fn higher_status_starts_sync() {
    let mut n = node(SEED_F, &[SEED_A]);
    let rx = connect(&mut n, 1);
    n.on_message(net(1, ProtocolMessage::Status { height: 0, last_block_hash: [0u8; 32] }));
    assert!(rx.try_recv().is_err());
    n.on_message(net(1, ProtocolMessage::Status { height: 3, last_block_hash: [0u8; 32] }));
    assert!(matches!(
        rx.try_recv(),
        Ok(ProtocolMessage::GetBlocks { start: 1, limit }) if limit == SYNC_LIMIT
    ));
    // already syncing: no second request
    n.on_message(net(1, ProtocolMessage::Status { height: 4, last_block_hash: [0u8; 32] }));
    assert!(rx.try_recv().is_err());
}

#[test]
fn short_batch_ends_sync() {
    let mut n = node(SEED_F, &[SEED_A]);
    let rx = connect(&mut n, 1);
    n.on_message(net(1, ProtocolMessage::Status { height: 2, last_block_hash: [0u8; 32] }));
    let _ = rx.try_recv();
    let b1 = signed(&genesis(), vec![tx(1)], 0, 0, SEED_A);
    let b2 = signed(&b1, vec![tx(2)], 0, 0, SEED_A);
    n.on_message(net(1, ProtocolMessage::Blocks { blocks: vec![b1, b2] }));
    assert!(matches!(rx.try_recv(), Ok(ProtocolMessage::Block(b)) if b.header.index == 1));
    assert!(matches!(rx.try_recv(), Ok(ProtocolMessage::Block(b)) if b.header.index == 2));
    assert!(rx.try_recv().is_err());
    // sync is over, so a newer status starts a new one from the new height
    n.on_message(net(1, ProtocolMessage::Status { height: 9, last_block_hash: [0u8; 32] }));
    assert!(matches!(rx.try_recv(), Ok(ProtocolMessage::GetBlocks { start: 3, .. })));
}

#[test]
fn early_block_waits_for_its_predecessor() {
    let mut n = node(SEED_F, &[SEED_A]);
    let rx = connect(&mut n, 1);
    let b1 = signed(&genesis(), vec![tx(1)], 0, 0, SEED_A);
    let b2 = signed(&b1, vec![tx(2)], 0, 0, SEED_A);
    n.on_message(net(1, ProtocolMessage::Block(b2.clone())));
    assert!(matches!(rx.try_recv(), Ok(ProtocolMessage::GetBlocks { start: 1, .. })));
    assert!(rx.try_recv().is_err());
    n.on_message(net(1, ProtocolMessage::Block(b1.clone())));
    assert!(matches!(rx.try_recv(), Ok(ProtocolMessage::Block(b)) if b.hash() == b1.hash()));
    assert!(matches!(rx.try_recv(), Ok(ProtocolMessage::Block(b)) if b.hash() == b2.hash()));
    assert_eq!(fetch_all(&mut n, 1, &rx).len(), 3);
}

#[test]
fn removed_peer_hears_nothing_more() {
    let mut n = node(SEED_A, &[SEED_A]);
    let rx = connect(&mut n, 9);
    n.on_message(NodeMessage::RemovePeer { peer_id: 9 });
    n.on_message(NodeMessage::LocalTrx(tx(1)));
    assert!(rx.try_recv().is_err());
    n.remove_peer(9);
}

#[test]
fn debug_print_and_stop_change_nothing() {
    let mut n = node(SEED_A, &[SEED_A]);
    let before = n.debug_report();
    n.on_message(NodeMessage::DebugPrint);
    n.on_message(NodeMessage::Stop);
    assert_eq!(n.debug_report(), before);
    assert!(before.contains("is_valid=true"));
}

#[test]
fn alive_transaction_names_the_node() {
    let t = alive_transaction(7);
    assert_eq!(t.id, ALIVE_TRX_BASE + 7);
    assert_eq!((t.from, t.to), (0, 0));
    assert_eq!(t.text, "i'm alive!");
}

#[test]
fn tick_without_wall_clock_keeps_the_pool() {
    let mut n = node(SEED_A, &[SEED_A]);
    let rx = connect(&mut n, 9);
    n.on_message(NodeMessage::LocalTrx(tx(1)));
    let _ = rx.try_recv();
    n.on_tick_at(3_000, 0, None, Instant::now());
    assert!(rx.try_recv().is_err());
    n.on_tick_at(3_000, 0, Some(11), Instant::now());
    match rx.try_recv() {
        Ok(ProtocolMessage::Block(b)) => {
            assert_eq!(b.header.timestamp, 11);
            assert_eq!(b.transactions()[0].id, 1);
        }
        other => panic!("expected a block, got {other:?}"),
    }
}

#[test]
fn debug_report_has_chain_validity_and_pool_lines() {
    let n = node(SEED_A, &[SEED_A]);
    let report = n.debug_report();
    let lines: Vec<&str> = report.lines().collect();
    assert!(lines[0].starts_with("BlockChain"));
    assert!(lines.contains(&"is_valid=true"));
    assert!(lines.last().unwrap().starts_with("mempool=MemPool"));
}

#[test]
fn empty_block_request_gets_an_empty_reply_to_that_peer_only() {
    let mut n = node(SEED_F, &[SEED_A]);
    let rx1 = connect(&mut n, 1);
    let rx2 = connect(&mut n, 2);
    n.on_message(net(1, ProtocolMessage::GetBlocks { start: 0, limit: 0 }));
    assert!(matches!(rx1.try_recv(), Ok(ProtocolMessage::Blocks { blocks }) if blocks.is_empty()));
    assert!(rx1.try_recv().is_err());
    assert!(rx2.try_recv().is_err());
    // a request from an unknown peer is answered to nobody
    n.on_message(net(3, ProtocolMessage::GetStatus));
    assert!(rx1.try_recv().is_err());
    assert!(rx2.try_recv().is_err());
}

#[test]
fn gossip_reaches_every_peer_once() {
    let mut n = node(SEED_A, &[SEED_A]);
    let rxs: Vec<_> = (10..13).map(|p| connect(&mut n, p)).collect();
    n.on_message(NodeMessage::LocalTrx(tx(1)));
    for rx in &rxs {
        assert!(matches!(rx.try_recv(), Ok(ProtocolMessage::Trx(t)) if t.id == 1));
        assert!(rx.try_recv().is_err());
    }
    n.on_tick_at(3_000, 0, Some(5), Instant::now());
    for rx in &rxs {
        assert!(matches!(rx.try_recv(), Ok(ProtocolMessage::Block(b)) if b.header.index == 1));
        assert!(rx.try_recv().is_err());
    }
}
