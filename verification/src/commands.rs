use vstd::prelude::*;
use crate::block::{is_genesis_block, Block, BlockChain};
use crate::cli::CliArgs;
use crate::node::{validator_position, Node, SYNC_LIMIT};
use crate::poa::{validators_ok, ConsensusError, PoAConsensus, PoAConsensusConfig, PoAConsensusState, Validator};
use crate::signing::{ed25519_public_key, Ed25519Verifier};
use crate::transaction::Transaction;

verus! {

broadcast use vstd::string::group_string_axioms;

/// Time a proposer waits into its slot, in milliseconds.
pub const SLOT_DURATION_MS: u64 = 3_000;

/// Time after which a round times out, in milliseconds.
pub const TIMEOUT_MS: u64 = 10_000;

/// Most transactions in a block.
pub const MAX_TRX_PER_BLOCK: usize = 100;

/// Identifier of the chain a node runs.
pub const CHAIN_ID: u64 = 1;

/// Id of the transaction a node submits at start: a million plus its node id.
pub const ALIVE_TRX_BASE: u64 = 1_000_000;

/// At least one public key, and no key twice.
pub open spec fn pubkeys_usable(ks: Seq<[u8; 32]>) -> bool {
    &&& ks.len() > 0
    &&& forall|i: int, j: int| 0 <= i < j < ks.len() ==> ks[i]@ != ks[j]@
}

/// The consensus parameters of a node: the validators with these public
/// keys, in order, and the fixed slot, timeout and block size.
pub fn consensus_config_for(pubkeys: &Vec<[u8; 32]>) -> (res: PoAConsensusConfig)
    ensures
        res.validators@.len() == pubkeys@.len(),
        forall|i: int| 0 <= i < pubkeys@.len() ==> #[trigger] res.validators@[i].pubkey == pubkeys@[i],
        res.slot_duration_ms == SLOT_DURATION_MS,
        res.timeout_ms == TIMEOUT_MS,
        res.max_trx_per_block == MAX_TRX_PER_BLOCK,
{
    let mut validators: Vec<Validator> = Vec::new();
    let mut i: usize = 0;
    while i < pubkeys.len()
        invariant
            0 <= i <= pubkeys@.len(),
            validators@.len() == i,
            forall|j: int| 0 <= j < i ==> #[trigger] validators@[j].pubkey == pubkeys@[j],
        decreases pubkeys@.len() - i,
    {
        validators.push(Validator::new(pubkeys[i]));
        i = i + 1;
    }
    PoAConsensusConfig::new(validators, SLOT_DURATION_MS, TIMEOUT_MS, MAX_TRX_PER_BLOCK)
}

/// The node that the settings describe: a fresh chain, consensus over the
/// given validators at the chain's height and round, and the node's key from
/// its seed; refused when the validator set is unusable.
pub fn setup_node(args: &CliArgs) -> (res: Result<Node<Ed25519Verifier>, ConsensusError>)
    ensures
        ({
            let ks = args.validator_pubkeys@;
            &&& res is Ok <==> pubkeys_usable(ks)
            &&& res matches Err(e) ==> e == ConsensusError::InvalidConfig
            &&& res matches Ok(node) ==> {
                &&& node.wf()
                &&& node.blocks().len() == 1
                &&& is_genesis_block(node.blocks()[0])
                &&& node.validators().len() == ks.len()
                &&& forall|i: int| 0 <= i < ks.len() ==> #[trigger] node.validators()[i].pubkey == ks[i]
                &&& node.height() == 0
                &&& node.round() == 0
                &&& node.pool() == Seq::<Transaction>::empty()
                &&& node.pool_seen() == Seq::<Seq<u8>>::empty()
                &&& node.seen_blocks() == Seq::<Seq<u8>>::empty()
                &&& node.orphan_entries() == Seq::<(Seq<u8>, Seq<Block>)>::empty()
                &&& node.orphans_total() == 0
                &&& node.sync_peer() is None
                &&& node.slot_duration_ms() == SLOT_DURATION_MS
                &&& node.timeout_ms() == TIMEOUT_MS
                &&& node.max_trx_per_block() == MAX_TRX_PER_BLOCK
                &&& node.sync_limit_value() == SYNC_LIMIT
                &&& node.network_id() == args.node_id
                &&& node.public_key() == ed25519_public_key(args.seed@)
                &&& node.chain_id() == CHAIN_ID
                &&& validator_position(
                    node.validators(),
                    ed25519_public_key(args.seed@),
                    node.node_id(),
                )
                &&& !node.syncing()
                &&& node.peer_ids().is_empty()
            }
        }),
{
    let config = consensus_config_for(&args.validator_pubkeys);
    let ghost ks = args.validator_pubkeys@;
    assert(validators_ok(config.validators@) == pubkeys_usable(ks)) by {
        if validators_ok(config.validators@) {
            assert forall|i: int, j: int| 0 <= i < j < ks.len() implies ks[i]@ != ks[j]@ by {
                assert(config.validators@[i].pubkey == ks[i]);
                assert(config.validators@[j].pubkey == ks[j]);
            }
        }
        if pubkeys_usable(ks) {
            assert forall|i: int, j: int| 0 <= i < j < config.validators@.len() implies
                config.validators@[i].pubkey@ != config.validators@[j].pubkey@ by {
                assert(config.validators@[i].pubkey == ks[i]);
                assert(config.validators@[j].pubkey == ks[j]);
            }
        }
    }
    let chain = BlockChain::new(CHAIN_ID);
    let state = PoAConsensusState::new(chain.get_height(), chain.get_round(), crate::clock::instant_now());
    let consensus = match PoAConsensus::new(config, state, Ed25519Verifier) {
        Ok(c) => c,
        Err(e) => {
            return Err(e);
        },
    };
    Ok(Node::new(args.node_id, args.seed, chain, consensus))
}

/// The transaction a node submits at start to show it is alive.
pub fn alive_transaction(node_id: u32) -> (res: Transaction)
    ensures
        res.id == ALIVE_TRX_BASE + node_id,
        res.from == 0,
        res.to == 0,
        res.text@ == "i'm alive!"@,
{
    Transaction::new(ALIVE_TRX_BASE + node_id as u64, 0, 0, "i'm alive!".to_string())
}

} // verus!
