use vstd::prelude::*;
use std::collections::HashMap;
use std::sync::mpsc::Sender;
use vstd::std_specs::hash::spec_hash_map_iter;
use vstd::std_specs::iter::IteratorSpec;
use vstd::string::StringExecFns;
use crate::block::{block_hash, chain_links_valid, Block, BlockChain};
use crate::crypto::{Hash32Type, PubkeyType, SignatureType};
use crate::errors::SignError;
use crate::mempool::MemPool;
use crate::message::{block_view, lemma_same_message_view, message_view, same_blocks, send_message, MessageView, ProtocolMessage};
use crate::orphans::OrphanPool;
use crate::poa::{consensus_check, PoAConsensus, PoAConsensusConfig, Validator};
use crate::seen::RecentHashes;
use crate::signing::{ed25519_public_key, ed25519_signature, pubkey_from_seed, Signer, Verifier};
use crate::transaction::Transaction;

verus! {

broadcast use vstd::std_specs::hash::group_hash_axioms;

/// Most block hashes a node remembers as seen.
pub const MAX_SEEN_BLOCKS: usize = 100_000;

/// Most blocks asked for in one sync request.
pub const SYNC_LIMIT: u32 = 256;

/// What a node is told to do.
pub enum NodeMessage {
    /// A transaction submitted locally.
    LocalTrx(Transaction),
    /// A message from a peer, known by the id of its handshake.
    Net { peer_id: u32, msg: ProtocolMessage },
    /// Print the chain and the pool.
    DebugPrint,
    /// Stop the node.
    Stop,
    /// A peer is reachable through `sender`.
    AddPeer { peer_id: u32, sender: Sender<ProtocolMessage> },
    /// A peer went away.
    RemovePeer { peer_id: u32 },
}

/// Where `pk` stands in the validator list: the first position holding it,
/// as a `u32`, or `None` when no validator has it.
pub open spec fn validator_position(vs: Seq<Validator>, pk: Seq<u8>, id: Option<u32>) -> bool {
    match id {
        Some(k) => exists|i: int|
            0 <= i < vs.len() && i as u32 == k && vs[i].pubkey@ == pk && forall|j: int|
                0 <= j < i ==> vs[j].pubkey@ != pk,
        None => forall|i: int| 0 <= i < vs.len() ==> vs[i].pubkey@ != pk,
    }
}

/// The key material of a node: its public key, and, when it is a
/// validator, its seed and its position in the validator list.
#[derive(Debug)]
struct NodeIdentity {
    pubkey: PubkeyType,
    private_key: Option<[u8; 32]>,
    node_id: Option<u32>,
}

impl NodeIdentity {
    /// The identity made from `seed`: a validator when its public key is in
    /// the validator list of `consensus_config`.
    fn new(seed: [u8; 32], consensus_config: &PoAConsensusConfig) -> (res: Self)
        ensures
            res.pubkey@ == ed25519_public_key(seed@),
            crate::signing::ed25519_key_valid(res.pubkey@),
            validator_position(consensus_config.validators@, res.pubkey@, res.node_id),
            res.node_id is Some ==> res.private_key == Some(seed),
            res.node_id is None ==> res.private_key is None,
    {
        let pubkey = pubkey_from_seed(seed);
        let vs = &consensus_config.validators;
        let mut i: usize = 0;
        while i < vs.len()
            invariant
                0 <= i <= vs@.len(),
                vs@ == consensus_config.validators@,
                pubkey@ == ed25519_public_key(seed@),
                crate::signing::ed25519_key_valid(pubkey@),
                forall|j: int| 0 <= j < i ==> vs@[j].pubkey@ != pubkey@,
            decreases vs@.len() - i,
        {
            if crate::crypto::hash_eq(&vs[i].pubkey, &pubkey) {
                let id: u32 = #[verifier::truncate] (i as u32);
                assert(validator_position(vs@, pubkey@, Some(id))) by {
                    assert(0 <= i < vs@.len() && i as u32 == id && vs@[i as int].pubkey@ == pubkey@);
                }
                return NodeIdentity { pubkey, private_key: Some(seed), node_id: Some(id) };
            }
            i = i + 1;
        }
        NodeIdentity { pubkey, private_key: None, node_id: None }
    }

    fn node_id(&self) -> (res: Option<u32>)
        ensures
            res == self.node_id,
    {
        self.node_id
    }
}

impl Signer for NodeIdentity {
    closed spec fn can_sign(&self) -> bool {
        self.private_key is Some
    }

    closed spec fn signature_of(&self, data: Seq<u8>) -> Seq<u8> {
        ed25519_signature(self.private_key->0@, data)
    }

    closed spec fn verifies_under_own_key(&self, data: Seq<u8>, signature: Seq<u8>) -> bool {
        crate::signing::ed25519_verify(ed25519_public_key(self.private_key->0@), data, signature)
    }

    fn sign(&self, data: &[u8]) -> (res: Result<SignatureType, SignError>) {
        match &self.private_key {
            Some(seed) => Ok(crate::signing::sign_with_seed(seed, data)),
            None => Err(SignError::NotValidator),
        }
    }
}


/// `new` is `old` followed by blocks each of which consensus accepts after
/// the block before it.
pub open spec fn extends_validly<V: Verifier>(
    vs: Seq<Validator>,
    verifier: V,
    old: Seq<Block>,
    new: Seq<Block>,
) -> bool {
    &&& old.len() <= new.len()
    &&& new.subrange(0, old.len() as int) == old
    &&& forall|i: int|
        old.len() <= i < new.len() ==> i >= 1 && consensus_check(
            vs,
            verifier,
            #[trigger] new[i - 1],
            new[i],
        ) is Ok
}

/// Extending validly is transitive.
pub proof fn lemma_extends_trans<V: Verifier>(
    vs: Seq<Validator>,
    verifier: V,
    a: Seq<Block>,
    b: Seq<Block>,
    c: Seq<Block>,
)
    requires
        extends_validly(vs, verifier, a, b),
        extends_validly(vs, verifier, b, c),
    ensures
        extends_validly(vs, verifier, a, c),
{
    assert(c.subrange(0, a.len() as int) =~= b.subrange(0, a.len() as int));
    assert forall|i: int| a.len() <= i < c.len() implies i >= 1 && consensus_check(
        vs,
        verifier,
        #[trigger] c[i - 1],
        c[i],
    ) is Ok by {
        if i < b.len() {
            assert(c[i] == b[i]);
            assert(c[i - 1] == b[i - 1]);
        }
    }
}

/// Appending one accepted block extends validly.
pub proof fn lemma_extends_push<V: Verifier>(
    vs: Seq<Validator>,
    verifier: V,
    a: Seq<Block>,
    b: Block,
)
    requires
        a.len() >= 1,
        consensus_check(vs, verifier, a.last(), b) is Ok,
    ensures
        extends_validly(vs, verifier, a, a.push(b)),
{
    assert(a.push(b).subrange(0, a.len() as int) =~= a);
}

/// A valid chain stays valid when it is extended validly.
pub proof fn lemma_extends_keeps_valid<V: Verifier>(
    vs: Seq<Validator>,
    verifier: V,
    a: Seq<Block>,
    b: Seq<Block>,
)
    requires
        a.len() >= 1,
        chain_links_valid(a),
        extends_validly(vs, verifier, a, b),
    ensures
        chain_links_valid(b),
{
    assert forall|i: int| 1 <= i < b.len() implies crate::block::links_to(#[trigger] b[i - 1], b[i]) by {
        if i < a.len() {
            assert(b[i] == a[i]);
            assert(b[i - 1] == a[i - 1]);
        } else {
            crate::poa::lemma_accepted_block_links(vs, verifier, b[i - 1], b[i]);
        }
    }
}

/// The debug text of a chain, written with `format!` and `{:?}`.
/// Nothing is stated of the text: it is what the derived `Debug` writes.
#[verifier::external_body]
fn chain_debug_text(chain: &BlockChain) -> String {
    format!("{:?}", chain)
}

/// The debug text of a pool, written with `format!` and `{:?}`.
/// Nothing is stated of the text: it is what the derived `Debug` writes.
#[verifier::external_body]
fn pool_debug_text(mempool: &MemPool) -> String {
    format!("{:?}", mempool)
}

/// The text of a debug print: the chain's text, a line `is_valid=` with
/// `true` or `false`, and a line `mempool=` with the pool's text.
pub open spec fn report_text(chain_text: Seq<char>, is_valid: bool, pool_text: Seq<char>) -> Seq<char> {
    chain_text + "\nis_valid="@ + (if is_valid {
        "true"@
    } else {
        "false"@
    }) + "\nmempool="@ + pool_text
}

/// `b` is the block a validator with key seed `seed` proposes after `prev`:
/// the next index, `prev`'s hash, the Merkle root of `txs`, the given time,
/// round and proposer id, signed over its header without signature.
pub open spec fn is_proposal(
    b: Block,
    prev: Block,
    txs: Seq<Transaction>,
    round: u64,
    proposer_id: u32,
    timestamp: u64,
    seed: Seq<u8>,
) -> bool {
    &&& b.header.version == crate::block::VERSION
    &&& b.header.index == prev.header.index + 1
    &&& b.header.previous_hash@ == block_hash(prev)
    &&& b.header.merkle_root@ == crate::crypto::merkle_root(txs)
    &&& b.header.timestamp == timestamp
    &&& b.header.round == round
    &&& b.header.proposer_id == proposer_id
    &&& b.header.signature@ == ed25519_signature(
        seed,
        crate::block::header_unsigned_bytes(b.header),
    )
    &&& b.transactions@ == txs
}

/// The signature of `b` checks out under the public key made from `seed`.
pub open spec fn signed_by_seed(b: Block, seed: Seq<u8>) -> bool {
    crate::signing::ed25519_verify(
        ed25519_public_key(seed),
        crate::block::header_unsigned_bytes(b.header),
        b.header.signature@,
    )
}

/// A chain that was valid stays valid when it is extended validly.
proof fn lemma_extends_keeps_valid_if<V: Verifier>(
    vs: Seq<Validator>,
    verifier: V,
    a: Seq<Block>,
    b: Seq<Block>,
)
    requires
        a.len() >= 1,
        extends_validly(vs, verifier, a, b),
    ensures
        chain_links_valid(a) ==> chain_links_valid(b),
{
    if chain_links_valid(a) {
        lemma_extends_keeps_valid(vs, verifier, a, b);
    }
}

/// A validator's own proposal is accepted by Ed25519 consensus: a block
/// built and signed as `is_proposal` describes, by the validator whose turn
/// it is, after a predecessor whose height is not the largest, when the
/// validator's public key decodes (as every key `pubkey_from_seed` makes
/// does). (Validator positions must fit a `u32` for ids to identify them.)
pub proof fn law_own_proposal_is_accepted(
    vs: Seq<Validator>,
    seed: Seq<u8>,
    id: u32,
    prev: Block,
    b: Block,
    txs: Seq<Transaction>,
    round: u64,
    timestamp: u64,
)
    requires
        vs.len() <= 0x1_0000_0000,
        crate::signing::ed25519_key_valid(ed25519_public_key(seed)),
        validator_position(vs, ed25519_public_key(seed), Some(id)),
        id == crate::poa::expected_proposer_of(vs, (prev.header.index + 1) as u64, round).0,
        prev.header.index < u64::MAX,
        is_proposal(b, prev, txs, round, id, timestamp, seed),
        signed_by_seed(b, seed),
    ensures
        consensus_check(vs, crate::signing::Ed25519Verifier, prev, b) is Ok,
{
    let n = vs.len() as int;
    let p = crate::poa::proposer_index(n, b.header.index as int, round as int);
    let i = choose|i: int|
        0 <= i < vs.len() && i as u32 == id && vs[i].pubkey@ == ed25519_public_key(seed) && forall|
            j: int,
        | 0 <= j < i ==> vs[j].pubkey@ != ed25519_public_key(seed);
    assert(0 <= p < n) by {
        vstd::arithmetic::div_mod::lemma_mod_bound(b.header.index as int - 1 + round as int, n);
    }
    assert(i == p);
}

/// A validator whose turn it is at a tick, with transactions in its pool
/// and a clock after the Unix epoch, appends a block when consensus checks
/// signatures with Ed25519. (Validator positions must fit a `u32`.)
pub proof fn law_validator_tick_appends(
    new: &Node<crate::signing::Ed25519Verifier>,
    old: &Node<crate::signing::Ed25519Verifier>,
    slot_elapsed_ms: u128,
    round_elapsed_ms: u128,
    now_secs: Option<u64>,
    now: std::time::Instant,
)
    requires
        old.wf(),
        new.tick_outcome(old, slot_elapsed_ms, round_elapsed_ms, now_secs, now),
        old.tick_proposes(slot_elapsed_ms, round_elapsed_ms),
        old.tick_batch() > 0,
        now_secs is Some,
        old.validators().len() <= 0x1_0000_0000,
    ensures
        new.blocks().len() == old.blocks().len() + 1,
{
    if new.blocks().len() != old.blocks().len() + 1 {
        let last = old.blocks().last();
        let r = old.tick_round(round_elapsed_ms);
        let n = old.tick_batch();
        let txs = old.pool().take(n);
        let id = old.node_id()->0;
        let seed = old.validator_seed()->0;
        let b = choose|b: Block|
            is_proposal(b, last, txs, r, id, now_secs->0, seed) && signed_by_seed(b, seed)
                && !(consensus_check(old.validators(), old.consensus_verifier(), last, b) is Ok);
        law_own_proposal_is_accepted(old.validators(), seed, id, last, b, txs, r, now_secs->0);
    }
}

/// `s` hands `m` to every peer in `peers` once and to nobody else.
pub open spec fn gossiped(s: Seq<(u32, MessageView)>, peers: Set<u32>, m: MessageView) -> bool {
    &&& s.len() == peers.len()
    &&& s.map_values(|e: (u32, MessageView)| e.0).no_duplicates()
    &&& forall|i: int| 0 <= i < s.len() ==> peers.contains(#[trigger] s[i].0) && s[i].1 == m
}

/// `s` hands each block of `bs`, in order, to every peer once.
pub open spec fn block_gossip(s: Seq<(u32, MessageView)>, peers: Set<u32>, bs: Seq<Block>) -> bool
    decreases bs.len(),
{
    if bs.len() == 0 {
        s.len() == 0
    } else {
        let n = peers.len() as int;
        &&& n <= s.len()
        &&& gossiped(s.take(n), peers, MessageView::Block(block_view(bs[0])))
        &&& block_gossip(s.skip(n), peers, bs.drop_first())
    }
}

/// A request for `limit` blocks sent to a known peer.
pub open spec fn is_sync_request(e: (u32, MessageView), peers: Set<u32>, limit: u32) -> bool {
    &&& peers.contains(e.0)
    &&& e.1 matches MessageView::GetBlocks { limit: l, .. } && l == limit
}

/// `s` hands each block of `bs`, in order, to every peer once, with requests
/// for `limit` blocks to known peers in between.
pub open spec fn gossip_with_requests(
    s: Seq<(u32, MessageView)>,
    peers: Set<u32>,
    bs: Seq<Block>,
    limit: u32,
) -> bool
    decreases s.len(),
{
    if s.len() == 0 {
        bs.len() == 0 || peers.len() == 0
    } else if is_sync_request(s[0], peers, limit) {
        gossip_with_requests(s.drop_first(), peers, bs, limit)
    } else {
        let n = peers.len() as int;
        &&& bs.len() > 0
        &&& 0 < n <= s.len()
        &&& gossiped(s.take(n), peers, MessageView::Block(block_view(bs[0])))
        &&& gossip_with_requests(s.skip(n), peers, bs.drop_first(), limit)
    }
}

/// One entry per step of a walk over the peer map, each `m` to the peer of
/// that step, hands `m` to every peer once.
proof fn lemma_iter_gossiped(
    peers: &HashMap<u32, Sender<ProtocolMessage>>,
    all: Seq<(&u32, &Sender<ProtocolMessage>)>,
    log: Seq<(u32, MessageView)>,
    m: MessageView,
)
    requires
        all == spec_hash_map_iter(peers).remaining(),
        all.no_duplicates(),
        log.len() == all.len(),
        forall|i: int| 0 <= i < log.len() ==> #[trigger] log[i] == (*all[i].0, m),
    ensures
        gossiped(log, peers@.dom(), m),
{
    broadcast use vstd::std_specs::hash::axiom_spec_hash_map_iter;
    assert(all.len() == peers@.dom().len());
    assert forall|i: int| 0 <= i < log.len() implies peers@.dom().contains(#[trigger] log[i].0)
        && log[i].1 == m by {
        assert(log[i] == (*all[i].0, m));
        assert(peers@.contains_key(*all[i].0));
    }
    let ks = log.map_values(|e: (u32, MessageView)| e.0);
    assert forall|i: int, j: int| 0 <= i < ks.len() && 0 <= j < ks.len() && i != j implies ks[i]
        != ks[j] by {
        assert(log[i] == (*all[i].0, m));
        assert(log[j] == (*all[j].0, m));
        if ks[i] == ks[j] {
            assert(peers@.contains_key(*all[i].0));
            assert(peers@[*all[i].0] == *all[i].1);
            assert(peers@[*all[j].0] == *all[j].1);
            assert(all[i] == all[j]);
        }
    }
}

/// `a - b`, or 0 when `b` is larger.
pub open spec fn sat_sub(a: nat, b: int) -> nat {
    if a >= b {
        (a - b) as nat
    } else {
        0
    }
}

/// Handing one more block to every peer extends a block gossip.
proof fn lemma_block_gossip_push(
    s: Seq<(u32, MessageView)>,
    peers: Set<u32>,
    bs: Seq<Block>,
    g: Seq<(u32, MessageView)>,
    b: Block,
)
    requires
        block_gossip(s, peers, bs),
        gossiped(g, peers, MessageView::Block(block_view(b))),
    ensures
        block_gossip(s + g, peers, bs.push(b)),
    decreases bs.len(),
{
    let n = peers.len() as int;
    if bs.len() == 0 {
        assert(s.len() == 0);
        assert(s + g =~= g);
        assert(bs.push(b).drop_first() =~= Seq::<Block>::empty());
        assert(g.take(n) =~= g);
        assert(g.skip(n) =~= Seq::<(u32, MessageView)>::empty());
        assert(block_gossip(g.skip(n), peers, bs.push(b).drop_first()));
        assert(bs.push(b)[0] == b);
    } else {
        lemma_block_gossip_push(s.skip(n), peers, bs.drop_first(), g, b);
        assert(bs.push(b)[0] == bs[0]);
        assert((s + g).take(n) =~= s.take(n));
        assert((s + g).skip(n) =~= s.skip(n) + g);
        assert(bs.push(b).drop_first() =~= bs.drop_first().push(b));
    }
}

/// Two block gossips in a row gossip both lists of blocks.
proof fn lemma_block_gossip_concat(
    s: Seq<(u32, MessageView)>,
    peers: Set<u32>,
    bs: Seq<Block>,
    t: Seq<(u32, MessageView)>,
    cs: Seq<Block>,
)
    requires
        block_gossip(s, peers, bs),
        block_gossip(t, peers, cs),
    ensures
        block_gossip(s + t, peers, bs + cs),
    decreases bs.len(),
{
    let n = peers.len() as int;
    if bs.len() == 0 {
        assert(s + t =~= t);
        assert(bs + cs =~= cs);
    } else {
        lemma_block_gossip_concat(s.skip(n), peers, bs.drop_first(), t, cs);
        assert((s + t).take(n) =~= s.take(n));
        assert((s + t).skip(n) =~= s.skip(n) + t);
        assert((bs + cs).drop_first() =~= bs.drop_first() + cs);
        assert((bs + cs)[0] == bs[0]);
    }
}

/// Handing one more block to every peer extends a gossip with requests.
proof fn lemma_gwr_push_gossip(
    s: Seq<(u32, MessageView)>,
    peers: Set<u32>,
    bs: Seq<Block>,
    limit: u32,
    g: Seq<(u32, MessageView)>,
    b: Block,
)
    requires
        gossip_with_requests(s, peers, bs, limit),
        gossiped(g, peers, MessageView::Block(block_view(b))),
    ensures
        gossip_with_requests(s + g, peers, bs.push(b), limit),
    decreases s.len(),
{
    let n = peers.len() as int;
    if s.len() == 0 {
        assert(s + g =~= g);
        if n != 0 {
            assert(bs.len() == 0);
            assert(g.take(n) =~= g);
            assert(g.skip(n) =~= Seq::<(u32, MessageView)>::empty());
            assert(bs.push(b).drop_first() =~= Seq::<Block>::empty());
            assert(peers.contains(g[0].0));
            assert(g[0].1 == MessageView::Block(block_view(b)));
            assert(!is_sync_request(g[0], peers, limit));
            assert(gossip_with_requests(g.skip(n), peers, bs.push(b).drop_first(), limit));
            assert(bs.push(b)[0] == b);
        } else {
            assert(g.len() == 0);
            assert(bs.push(b).len() == 0 || peers.len() == 0);
        }
    } else if is_sync_request(s[0], peers, limit) {
        lemma_gwr_push_gossip(s.drop_first(), peers, bs, limit, g, b);
        assert((s + g).drop_first() =~= s.drop_first() + g);
        assert((s + g)[0] == s[0]);
    } else {
        lemma_gwr_push_gossip(s.skip(n), peers, bs.drop_first(), limit, g, b);
        assert(bs.push(b)[0] == bs[0]);
        assert((s + g).take(n) =~= s.take(n));
        assert((s + g).skip(n) =~= s.skip(n) + g);
        assert(bs.push(b).drop_first() =~= bs.drop_first().push(b));
        assert((s + g)[0] == s[0]);
    }
}

/// A request for blocks to a known peer extends a gossip with requests.
proof fn lemma_gwr_push_request(
    s: Seq<(u32, MessageView)>,
    peers: Set<u32>,
    bs: Seq<Block>,
    limit: u32,
    e: (u32, MessageView),
)
    requires
        gossip_with_requests(s, peers, bs, limit),
        is_sync_request(e, peers, limit),
        peers.finite(),
    ensures
        gossip_with_requests(s.push(e), peers, bs, limit),
    decreases s.len(),
{
    let n = peers.len() as int;
    if s.len() == 0 {
        vstd::set::axiom_set_contains_len(peers, e.0);
        assert(s.push(e).drop_first() =~= s);
    } else if is_sync_request(s[0], peers, limit) {
        lemma_gwr_push_request(s.drop_first(), peers, bs, limit, e);
        assert(s.push(e).drop_first() =~= s.drop_first().push(e));
    } else {
        lemma_gwr_push_request(s.skip(n), peers, bs.drop_first(), limit, e);
        assert(s.push(e).take(n) =~= s.take(n));
        assert(s.push(e).skip(n) =~= s.skip(n).push(e));
    }
}

/// A block gossip after a gossip with requests extends it.
proof fn lemma_gwr_append_block_gossip(
    s: Seq<(u32, MessageView)>,
    peers: Set<u32>,
    bs: Seq<Block>,
    limit: u32,
    t: Seq<(u32, MessageView)>,
    cs: Seq<Block>,
)
    requires
        gossip_with_requests(s, peers, bs, limit),
        block_gossip(t, peers, cs),
    ensures
        gossip_with_requests(s + t, peers, bs + cs, limit),
    decreases cs.len(),
{
    let n = peers.len() as int;
    if cs.len() == 0 {
        assert(s + t =~= s);
        assert(bs + cs =~= bs);
    } else {
        lemma_gwr_push_gossip(s, peers, bs, limit, t.take(n), cs[0]);
        lemma_gwr_append_block_gossip(s + t.take(n), peers, bs.push(cs[0]), limit, t.skip(n), cs.drop_first());
        assert(s + t.take(n) + t.skip(n) =~= s + t);
        assert(bs.push(cs[0]) + cs.drop_first() =~= bs + cs);
    }
}

/// The blocks a request for `limit` blocks from height `start` gets: those
/// of the chain from `start` up to `start + limit` (at most `u64::MAX`), as
/// far as the chain goes.
pub open spec fn requested_blocks(blocks: Seq<Block>, start: u64, limit: u32) -> Seq<crate::message::BlockView> {
    let to = if start + limit > u64::MAX {
        u64::MAX as int
    } else {
        start + limit
    };
    let end = if to < blocks.len() {
        to
    } else {
        blocks.len() as int
    };
    if start < end {
        blocks.subrange(start as int, end).map_values(|b: Block| block_view(b))
    } else {
        Seq::empty()
    }
}

/// Step `j` of a run of connection steps.
pub open spec fn connect_step_at<V: Verifier>(states: Seq<Node<V>>, j: int, now: std::time::Instant) -> bool {
    states[j + 1].connect_step(&states[j], now)
}

/// Step `j` of taking in a batch: the node takes in a copy of `blocks[j]`.
pub open spec fn incoming_at<V: Verifier>(
    states: Seq<Node<V>>,
    blocks: Seq<Block>,
    j: int,
    now: std::time::Instant,
) -> bool {
    exists|b: Block|
        crate::message::same_block(b, blocks[j]) && #[trigger] states[j + 1].incoming_outcome(
            &states[j],
            b,
            now,
        )
}

/// A node: its chain, its transaction pool, consensus, its peers, the
/// blocks it has seen, the blocks it holds until their predecessor arrives,
/// and where it stands in syncing from a peer.
pub struct Node<V: Verifier> {
    net_id: u32,
    identity: NodeIdentity,
    chain: BlockChain,
    mempool: MemPool,
    consensus: PoAConsensus<V>,
    peers: HashMap<u32, Sender<ProtocolMessage>>,
    seen_blocks: RecentHashes,
    orphans: OrphanPool,
    is_syncing: bool,
    sync_peer: Option<u32>,
    sync_next_height: u64,
    sync_limit: u32,
    sent: Ghost<Seq<(u32, MessageView)>>,
}

impl<V: Verifier> Node<V> {
    /// The blocks of the chain, genesis first.
    pub closed spec fn blocks(&self) -> Seq<Block> {
        self.chain@
    }

    /// The transactions waiting in the pool.
    pub closed spec fn pool(&self) -> Seq<Transaction> {
        self.mempool.queue()
    }

    /// The transaction hashes the pool remembers.
    pub closed spec fn pool_seen(&self) -> Seq<Seq<u8>> {
        self.mempool.seen()
    }

    /// The block hashes the node remembers as seen, oldest first.
    pub closed spec fn seen_blocks(&self) -> Seq<Seq<u8>> {
        self.seen_blocks.hashes()
    }

    /// The held blocks, grouped by the predecessor hash they name.
    pub closed spec fn orphan_entries(&self) -> Seq<(Seq<u8>, Seq<Block>)> {
        self.orphans.entries()
    }

    /// The running count of held blocks.
    pub closed spec fn orphans_total(&self) -> nat {
        self.orphans.total()
    }

    pub closed spec fn syncing(&self) -> bool {
        self.is_syncing
    }

    pub closed spec fn sync_peer(&self) -> Option<u32> {
        self.sync_peer
    }

    pub closed spec fn sync_next_height(&self) -> u64 {
        self.sync_next_height
    }

    /// The ids of the peers the node can reach.
    pub closed spec fn peer_ids(&self) -> Set<u32> {
        self.peers@.dom()
    }

    /// The channel to each peer.
    pub closed spec fn peer_senders(&self) -> Map<u32, Sender<ProtocolMessage>> {
        self.peers@
    }

    /// Height recorded by consensus.
    pub closed spec fn height(&self) -> u64 {
        self.consensus.state.current_height
    }

    /// Round recorded by consensus.
    pub closed spec fn round(&self) -> u64 {
        self.consensus.state.current_round
    }

    pub closed spec fn validators(&self) -> Seq<Validator> {
        self.consensus.config.validators@
    }

    pub closed spec fn consensus_verifier(&self) -> V {
        self.consensus.verifier
    }

    pub closed spec fn max_trx_per_block(&self) -> usize {
        self.consensus.config.max_trx_per_block
    }

    pub closed spec fn slot_duration_ms(&self) -> u64 {
        self.consensus.config.slot_duration_ms
    }

    pub closed spec fn timeout_ms(&self) -> u64 {
        self.consensus.config.timeout_ms
    }

    /// The position of the node in the validator list, when it is a validator.
    pub closed spec fn node_id(&self) -> Option<u32> {
        self.identity.node_id
    }

    /// The seed of the node's key, held when it is a validator.
    pub closed spec fn validator_seed(&self) -> Option<Seq<u8>> {
        match self.identity.private_key {
            Some(s) => Some(s@),
            None => None,
        }
    }

    /// When the current round began.
    pub closed spec fn round_started_at(&self) -> std::time::Instant {
        self.consensus.state.round_started_at
    }

    /// Every message the node has handed to a peer's channel, in order, with
    /// the id of that peer.
    pub closed spec fn sent(&self) -> Seq<(u32, MessageView)> {
        self.sent@
    }

    /// The messages sent since `old`: the record of `old` is kept and these
    /// follow it.
    pub open spec fn new_sends(&self, old: &Self) -> Seq<(u32, MessageView)> {
        self.sent().skip(old.sent().len() as int)
    }

    /// The record of `old` is a prefix of this node's record.
    pub open spec fn log_extends(&self, old: &Self) -> bool {
        &&& old.sent().len() <= self.sent().len()
        &&& self.sent().take(old.sent().len() as int) == old.sent()
    }

    /// Nothing was sent since `old`.
    pub open spec fn sent_nothing(&self, old: &Self) -> bool {
        self.sent() == old.sent()
    }

    /// `self` is `old` with `s` added to the record of sent messages, and
    /// nothing else changed.
    pub closed spec fn only_sent(&self, old: &Self, s: Seq<(u32, MessageView)>) -> bool {
        &&& *self == (Node { sent: self.sent, ..*old })
        &&& self.sent@ == old.sent@ + s
    }

    /// A node that only sent messages since `old` is `old` in every other
    /// respect, and its record extends that of `old` by those messages.
    proof fn lemma_only_sent(&self, old: &Self, s: Seq<(u32, MessageView)>)
        requires
            self.only_sent(old, s),
        ensures
            self.log_extends(old),
            self.new_sends(old) == s,
            self.sent() == old.sent() + s,
            self.same_but_peers(old),
            self.peer_senders() == old.peer_senders(),
            old.wf() ==> self.wf(),
    {
        assert(self.sent().take(old.sent().len() as int) =~= old.sent());
        assert(self.new_sends(old) =~= s);
    }

    /// The id the node uses on the network.
    pub closed spec fn network_id(&self) -> u32 {
        self.net_id
    }

    /// The node's public key.
    pub closed spec fn public_key(&self) -> Seq<u8> {
        self.identity.pubkey@
    }

    /// The id of the node's chain.
    pub closed spec fn chain_id(&self) -> u64 {
        self.chain.spec_chain_id()
    }

    /// What never changes after the node is made: its ids, keys,
    /// consensus parameters and verifier.
    pub open spec fn same_setup(&self, other: &Self) -> bool {
        &&& self.network_id() == other.network_id()
        &&& self.public_key() == other.public_key()
        &&& self.validator_seed() == other.validator_seed()
        &&& self.node_id() == other.node_id()
        &&& self.validators() == other.validators()
        &&& self.slot_duration_ms() == other.slot_duration_ms()
        &&& self.timeout_ms() == other.timeout_ms()
        &&& self.max_trx_per_block() == other.max_trx_per_block()
        &&& self.consensus_verifier() == other.consensus_verifier()
        &&& self.sync_limit_value() == other.sync_limit_value()
        &&& self.chain_id() == other.chain_id()
    }

    /// The chain, the consensus height and round, and the start of the round
    /// are those of `other`.
    pub open spec fn same_chain(&self, other: &Self) -> bool {
        &&& self.blocks() == other.blocks()
        &&& self.height() == other.height()
        &&& self.round() == other.round()
        &&& self.round_started_at() == other.round_started_at()
    }

    /// The pool is that of `other`.
    pub open spec fn same_pool(&self, other: &Self) -> bool {
        &&& self.pool() == other.pool()
        &&& self.pool_seen() == other.pool_seen()
    }

    /// The sync state is that of `other`.
    pub open spec fn same_sync(&self, other: &Self) -> bool {
        &&& self.syncing() == other.syncing()
        &&& self.sync_peer() == other.sync_peer()
        &&& self.sync_next_height() == other.sync_next_height()
    }

    /// The held blocks are those of `other`.
    pub open spec fn same_orphans(&self, other: &Self) -> bool {
        &&& self.orphan_entries() == other.orphan_entries()
        &&& self.orphans_total() == other.orphans_total()
    }

    /// Only the peer set may differ from `other`.
    pub open spec fn same_but_peers(&self, other: &Self) -> bool {
        &&& self.same_setup(other)
        &&& self.same_chain(other)
        &&& self.same_pool(other)
        &&& self.same_sync(other)
        &&& self.same_orphans(other)
        &&& self.seen_blocks() == other.seen_blocks()
    }

    /// The invariant of a node: its parts are well formed, the validator set
    /// is not empty, and a node that holds a seed holds the key of the
    /// validator whose position it records.
    pub closed spec fn wf(&self) -> bool {
        &&& self.chain.wf()
        &&& self.mempool.wf()
        &&& self.seen_blocks.wf()
        &&& self.seen_blocks.capacity() == MAX_SEEN_BLOCKS
        &&& self.orphans.wf()
        &&& self.consensus.config.validators@.len() > 0
        &&& validator_position(
            self.consensus.config.validators@,
            self.identity.pubkey@,
            self.identity.node_id,
        )
        &&& (self.identity.node_id is Some <==> self.identity.private_key is Some)
        &&& (self.identity.private_key matches Some(seed) ==> self.identity.pubkey@
            == ed25519_public_key(seed@))
        &&& crate::signing::ed25519_key_valid(self.identity.pubkey@)
    }

    /// A node with the chain and consensus given, no peers, an empty pool,
    /// nothing seen or held, and not syncing.
    pub fn new(net_id: u32, seed: [u8; 32], chain: BlockChain, consensus: PoAConsensus<V>) -> (res:
        Self)
        requires
            chain.wf(),
            consensus.config.validators@.len() > 0,
        ensures
            res.wf(),
            res.blocks() == chain@,
            res.pool() == Seq::<Transaction>::empty(),
            res.pool_seen() == Seq::<Seq<u8>>::empty(),
            res.seen_blocks() == Seq::<Seq<u8>>::empty(),
            res.orphan_entries() == Seq::<(Seq<u8>, Seq<Block>)>::empty(),
            res.orphans_total() == 0,
            !res.syncing(),
            res.sync_peer() is None,
            res.sync_next_height() == 0,
            res.peer_ids() == Set::<u32>::empty(),
            res.height() == consensus.state.current_height,
            res.round() == consensus.state.current_round,
            res.validators() == consensus.config.validators@,
            res.consensus_verifier() == consensus.verifier,
            res.slot_duration_ms() == consensus.config.slot_duration_ms,
            res.timeout_ms() == consensus.config.timeout_ms,
            res.max_trx_per_block() == consensus.config.max_trx_per_block,
            res.sync_limit_value() == SYNC_LIMIT,
            res.network_id() == net_id,
            res.public_key() == ed25519_public_key(seed@),
            res.chain_id() == chain.spec_chain_id(),
            res.round_started_at() == consensus.state.round_started_at,
            res.sent() == Seq::<(u32, MessageView)>::empty(),
            validator_position(consensus.config.validators@, ed25519_public_key(seed@), res.node_id()),
            res.node_id() is Some ==> res.validator_seed() == Some(seed@),
            res.node_id() is None ==> res.validator_seed() is None,
    {
        let identity = NodeIdentity::new(seed, &consensus.config);
        let mempool = MemPool::new();
        Node {
            net_id,
            identity,
            chain,
            mempool,
            consensus,
            peers: HashMap::new(),
            seen_blocks: RecentHashes::new(MAX_SEEN_BLOCKS),
            orphans: OrphanPool::new(),
            is_syncing: false,
            sync_peer: None,
            sync_next_height: 0,
            sync_limit: SYNC_LIMIT,
            sent: Ghost(Seq::empty()),
        }
    }

    /// Records a block hash as seen; false when it already was.
    fn mark_seen_block(&mut self, h: Hash32Type) -> (res: bool)
        requires
            old(self).wf(),
        ensures
            final(self).wf(),
            res == !old(self).seen_blocks().contains(h@),
            res ==> final(self).seen_blocks() == crate::seen::remember(
                old(self).seen_blocks(),
                h@,
                MAX_SEEN_BLOCKS as nat,
            ),
            !res ==> final(self).seen_blocks() == old(self).seen_blocks(),
            final(self).same_setup(old(self)),
            final(self).same_chain(old(self)),
            final(self).same_pool(old(self)),
            final(self).same_sync(old(self)),
            final(self).same_orphans(old(self)),
            final(self).peer_senders() == old(self).peer_senders(),
            final(self).sent_nothing(old(self)),
    {
        self.seen_blocks.insert(h)
    }

    /// The status the node reports: its height and the hash of its last block.
    fn status_message(&self) -> (res: ProtocolMessage)
        requires
            self.wf(),
        ensures
            res matches ProtocolMessage::Status { height, last_block_hash } && height
                == self.blocks().last().header.index && last_block_hash@ == block_hash(
                self.blocks().last(),
            ),
    {
        let height = self.chain.get_height();
        let last_block_hash = self.chain.last().hash();
        ProtocolMessage::Status { height, last_block_hash }
    }

    /// Copies of the blocks from height `start` on, at most `limit` of them
    /// (the range ending at `u64::MAX` at the latest), as far as the chain goes.
    fn blocks_for_request(&self, start: u64, limit: u32) -> (res: Vec<Block>)
        requires
            self.wf(),
        ensures
            ({
                let to = if start + limit > u64::MAX {
                    u64::MAX as int
                } else {
                    start + limit
                };
                let end = if to < self.blocks().len() {
                    to
                } else {
                    self.blocks().len() as int
                };
                if start < end {
                    same_blocks(res@, self.blocks().subrange(start as int, end))
                } else {
                    res@.len() == 0
                }
            }),
            res@.map_values(|b: Block| block_view(b)) == requested_blocks(self.blocks(), start, limit),
    {
        let mut blocks: Vec<Block> = Vec::new();
        let mut desired_height = start;
        let to = start.saturating_add(limit as u64);
        let count = self.chain.block_count() as u64;
        let ghost end = if to < self.blocks().len() {
            to as int
        } else {
            self.blocks().len() as int
        };
        while desired_height < to && desired_height < count
            invariant
                count == self.blocks().len(),
                start <= desired_height,
                desired_height <= end || desired_height == start,
                blocks@.len() == desired_height - start,
                to == (if start + limit > u64::MAX {
                    u64::MAX as int
                } else {
                    start + limit
                }),
                end == (if to < self.blocks().len() {
                    to as int
                } else {
                    self.blocks().len() as int
                }),
                forall|j: int|
                    0 <= j < blocks@.len() ==> crate::message::same_block(
                        #[trigger] blocks@[j],
                        self.blocks()[start + j],
                    ),
            decreases to - desired_height,
        {
            match self.chain.get_block(desired_height) {
                Some(b) => {
                    blocks.push(b.clone());
                },
                None => {},
            }
            desired_height = desired_height + 1;
        }
        proof {
            if start < end {
                assert(blocks@.map_values(|b: Block| block_view(b)) =~= self.blocks().subrange(
                    start as int,
                    end,
                ).map_values(|b: Block| block_view(b))) by {
                    assert forall|j: int| 0 <= j < blocks@.len() implies #[trigger] blocks@[j].transactions@
                        == self.blocks()[start + j].transactions@ by {
                        assert(crate::message::same_block(blocks@[j], self.blocks()[start + j]));
                    }
                }
            } else {
                assert(blocks@.map_values(|b: Block| block_view(b)) =~= Seq::<crate::message::BlockView>::empty());
            }
        }
        blocks
    }

    /// A block the node appends on receipt: not seen before, and accepted by
    /// consensus after the last block (whose height is not the largest).
    pub open spec fn incoming_accepted(&self, block: Block) -> bool {
        let last = self.blocks().last();
        &&& !self.seen_blocks().contains(block_hash(block))
        &&& last.header.index < u64::MAX
        &&& consensus_check(self.validators(), self.consensus_verifier(), last, block) is Ok
    }

    /// A block the node holds on receipt: not seen before, higher than the
    /// last block, and either not next or not naming the last block's hash.
    pub open spec fn incoming_orphaned(&self, block: Block) -> bool {
        let last = self.blocks().last();
        &&& !self.seen_blocks().contains(block_hash(block))
        &&& last.header.index < u64::MAX
        &&& block.header.index > last.header.index
        &&& (block.header.index != last.header.index + 1 || block.header.previous_hash@
            != block_hash(last))
    }

    /// `self` holds `block` as `old` would, and, when `old` knew a peer,
    /// syncs from one of them at height `from` (asking it for blocks unless
    /// that sync was under way); else its sync state is `old`'s and nothing is
    /// sent.
    pub open spec fn orphaned_and_syncing(&self, old: &Self, block: Block, from: u64) -> bool {
        &&& (self.orphan_entries(), self.orphans_total()) == crate::orphans::put_result(
            old.orphan_entries(),
            old.orphans_total(),
            block,
        )
        &&& (old.peer_ids().is_empty() ==> self.same_sync(old) && self.sent_nothing(old))
        &&& (!old.peer_ids().is_empty() ==> {
            &&& self.syncing()
            &&& self.sync_peer() matches Some(p) && old.peer_ids().contains(p)
            &&& self.sync_next_height() == from
            &&& self.sent() == old.sent() + old.sync_request(self.sync_peer()->0, from)
        })
    }

    /// Holds `block` until its predecessor arrives and starts syncing from
    /// some peer at height `from`, when there is a peer.
    fn orphan_and_sync(&mut self, block: Block, from: u64)
        requires
            old(self).wf(),
        ensures
            final(self).wf(),
            final(self).orphaned_and_syncing(old(self), block, from),
            final(self).same_setup(old(self)),
            final(self).same_chain(old(self)),
            final(self).same_pool(old(self)),
            final(self).seen_blocks() == old(self).seen_blocks(),
            final(self).peer_senders() == old(self).peer_senders(),
    {
        self.orphans.put(block);
        if let Some(pid) = self.any_peer_for_sync() {
            self.start_sync(pid, from);
        }
    }

    /// The node after taking in `block` from the network with the clock
    /// reading `now`, compared with `old`: a new next block that consensus
    /// accepts is appended (its transactions leave the pool, consensus moves
    /// to its height at round 0 starting at `now`, and it goes to every
    /// peer); a new block further ahead, or one that does not name the last
    /// block, is held and syncing starts; anything else is dropped. Its hash
    /// is remembered as seen.
    pub open spec fn incoming_outcome(&self, old: &Self, block: Block, now: std::time::Instant) -> bool {
        let h = block_hash(block);
        &&& self.same_setup(old)
        &&& self.peer_senders() == old.peer_senders()
        &&& (old.seen_blocks().contains(h) ==> self.seen_blocks() == old.seen_blocks())
        &&& (!old.seen_blocks().contains(h) ==> self.seen_blocks() == crate::seen::remember(
            old.seen_blocks(),
            h,
            MAX_SEEN_BLOCKS as nat,
        ))
        &&& (old.incoming_accepted(block) ==> {
            &&& self.blocks() == old.blocks().push(block)
            &&& self.pool() == crate::mempool::without_hashes(
                old.pool(),
                block.transactions@.map_values(|t: Transaction| crate::transaction::tx_hash(t)),
            )
            &&& self.pool_seen() == old.pool_seen()
            &&& self.height() == block.header.index
            &&& self.round() == 0
            &&& self.round_started_at() == now
            &&& self.same_sync(old)
            &&& self.same_orphans(old)
            &&& self.log_extends(old)
            &&& gossiped(self.new_sends(old), old.peer_ids(), MessageView::Block(block_view(block)))
        })
        &&& (!old.incoming_accepted(block) ==> self.same_chain(old) && self.same_pool(old))
        &&& (!old.incoming_accepted(block) && old.incoming_orphaned(block) ==> self.orphaned_and_syncing(
            old,
            block,
            (old.blocks().last().header.index + 1) as u64,
        ))
        &&& (!old.incoming_accepted(block) && !old.incoming_orphaned(block) ==> self.same_sync(old)
            && self.same_orphans(old) && self.sent_nothing(old))
    }

    /// Takes in a block from the network: a new next block that consensus
    /// accepts is appended (its transactions leave the pool, consensus moves
    /// to its height at round 0, and it is passed on); a new block further
    /// ahead, or one that does not name the last block, is held and syncing
    /// starts; anything else is dropped. Reports whether the chain grew.
    fn handle_incoming_block(&mut self, block: Block, now: std::time::Instant) -> (res: bool)
        requires
            old(self).wf(),
        ensures
            final(self).wf(),
            res == old(self).incoming_accepted(block),
            final(self).incoming_outcome(old(self), block, now),
    {
        let h = block.hash();
        if !self.mark_seen_block(h) {
            return false;
        }
        let own_height = self.chain.get_height();
        if own_height == u64::MAX {
            return false;
        }
        let expected_index = own_height + 1;
        if block.header.index <= own_height {
            return false;
        }
        if block.header.index == expected_index {
            let prev_hash = self.chain.last().hash();
            if !crate::crypto::hash_eq(&block.header.previous_hash, &prev_hash) {
                self.orphan_and_sync(block, expected_index);
                return false;
            }
            if self.consensus.validate_block(self.chain.last(), &block).is_err() {
                return false;
            }
            self.chain.add_block(block);
            self.mempool.remove_included(self.chain.last().transactions());
            let height = self.chain.get_height();
            self.consensus.update_state(Some(height), 0, now);
            let last_block = self.chain.last().clone();
            let ghost mid = *self;
            proof {
                assert(block_view(last_block) == block_view(block));
            }
            self.gossip(ProtocolMessage::Block(last_block));
            proof {
                self.lemma_only_sent(&mid, self.new_sends(&mid));
                assert(self.sent().take(old(self).sent().len() as int) =~= old(self).sent());
                assert(self.new_sends(old(self)) =~= self.new_sends(&mid));
            }
            return true;
        }
        self.orphan_and_sync(block, expected_index);
        false
    }

    /// Some held block names the hash of the last block and consensus accepts
    /// it after the last block.
    pub open spec fn orphan_connectable(&self) -> bool {
        let last = self.blocks().last();
        let es = self.orphan_entries();
        let k = block_hash(last);
        &&& last.header.index < u64::MAX
        &&& crate::orphans::has_key(es, k)
        &&& exists|j: int|
            0 <= j < es[crate::orphans::key_index(es, k)].1.len() && consensus_check(
                self.validators(),
                self.consensus_verifier(),
                last,
                #[trigger] es[crate::orphans::key_index(es, k)].1[j],
            ) is Ok
    }

    /// The first block of `list` that consensus accepts after the last block.
    fn first_acceptable(&self, list: &Vec<Block>) -> (res: Option<usize>)
        requires
            self.wf(),
            self.blocks().last().header.index < u64::MAX,
        ensures
            res matches Some(k) ==> k < list@.len() && consensus_check(
                self.validators(),
                self.consensus_verifier(),
                self.blocks().last(),
                list@[k as int],
            ) is Ok && forall|j: int|
                0 <= j < k ==> !(consensus_check(
                    self.validators(),
                    self.consensus_verifier(),
                    self.blocks().last(),
                    #[trigger] list@[j],
                ) is Ok),
            res is None ==> forall|j: int|
                0 <= j < list@.len() ==> !(consensus_check(
                    self.validators(),
                    self.consensus_verifier(),
                    self.blocks().last(),
                    #[trigger] list@[j],
                ) is Ok),
    {
        let prev = self.chain.last();
        let mut k: usize = 0;
        while k < list.len()
            invariant
                self.wf(),
                *prev == self.blocks().last(),
                prev.header.index < u64::MAX,
                0 <= k <= list@.len(),
                forall|j: int|
                    0 <= j < k ==> !(consensus_check(
                        self.validators(),
                        self.consensus_verifier(),
                        self.blocks().last(),
                        #[trigger] list@[j],
                    ) is Ok),
            decreases list@.len() - k,
        {
            if self.consensus.validate_block(prev, &list[k]).is_ok() {
                return Some(k);
            }
            k = k + 1;
        }
        None
    }

    /// One step of connecting held blocks, from `prev` to `self`: among the
    /// blocks held under the hash of the last block, the first that consensus
    /// accepts after it is appended (consensus moves to its height at round 0
    /// starting at `now`, one held block fewer is counted, and it goes to
    /// every peer); that entry is taken out and the rest of its blocks are
    /// held again under the hash of the new last block, up to the cap.
    pub open spec fn connect_step(&self, prev: &Self, now: std::time::Instant) -> bool {
        let last = prev.blocks().last();
        let es = prev.orphan_entries();
        let k = block_hash(last);
        let i = crate::orphans::key_index(es, k);
        let list = es[i].1;
        let accepts = |b: Block| consensus_check(prev.validators(), prev.consensus_verifier(), last, b) is Ok;
        &&& last.header.index < u64::MAX
        &&& crate::orphans::has_key(es, k)
        &&& exists|pos: int|
            {
                let rest = list.update(pos, list.last()).drop_last();
                &&& 0 <= pos < list.len()
                &&& accepts(#[trigger] list[pos])
                &&& forall|j: int| 0 <= j < pos ==> !accepts(#[trigger] list[j])
                &&& self.blocks() == prev.blocks().push(list[pos])
                &&& self.orphan_entries() == (if rest.len() > 0 {
                    crate::orphans::fill_entry(es.remove(i), block_hash(list[pos]), rest)
                } else {
                    es.remove(i)
                })
                &&& self.height() == list[pos].header.index
                &&& self.round() == 0
                &&& self.round_started_at() == now
                &&& self.orphans_total() == sat_sub(prev.orphans_total(), 1)
                &&& self.log_extends(prev)
                &&& gossiped(self.new_sends(prev), prev.peer_ids(), MessageView::Block(block_view(list[pos])))
            }
        &&& self.same_setup(prev)
        &&& self.peer_senders() == prev.peer_senders()
        &&& self.same_pool(prev)
        &&& self.same_sync(prev)
        &&& self.seen_blocks() == prev.seen_blocks()
    }

    /// Connecting held blocks, from `old` to `self`, is a run of connection
    /// steps that ends where no held block connects.
    pub open spec fn connect_outcome(&self, old: &Self, now: std::time::Instant) -> bool {
        &&& exists|states: Seq<Self>|
            {
                &&& states.len() >= 1
                &&& states[0] == *old
                &&& states.last() == *self
                &&& forall|j: int| 0 <= j < states.len() - 1 ==> #[trigger] connect_step_at(states, j, now)
            }
        &&& !self.orphan_connectable()
    }

    /// Appends held blocks for as long as one of those naming the last block
    /// is accepted by consensus, passing each on to every peer; the rest of
    /// that group is held again under the new last block, up to the cap of a
    /// group.
    fn try_connect_orphans(&mut self, now: std::time::Instant)
        requires
            old(self).wf(),
        ensures
            final(self).wf(),
            final(self).same_setup(old(self)),
            final(self).peer_senders() == old(self).peer_senders(),
            final(self).same_pool(old(self)),
            final(self).same_sync(old(self)),
            final(self).seen_blocks() == old(self).seen_blocks(),
            extends_validly(
                old(self).validators(),
                old(self).consensus_verifier(),
                old(self).blocks(),
                final(self).blocks(),
            ),
            final(self).blocks().len() == old(self).blocks().len() ==> final(self).same_chain(
                old(self),
            ),
            final(self).blocks().len() > old(self).blocks().len() ==> final(self).height()
                == final(self).blocks().last().header.index && final(self).round() == 0
                && final(self).round_started_at() == now,
            forall|i: int|
                old(self).blocks().len() <= i < final(self).blocks().len()
                    ==> crate::orphans::held(old(self).orphan_entries(), #[trigger] final(self).blocks()[i]),
            final(self).orphans_total() == sat_sub(
                old(self).orphans_total(),
                final(self).blocks().len() - old(self).blocks().len(),
            ),
            !final(self).orphan_connectable(),
            final(self).connect_outcome(old(self), now),
            final(self).log_extends(old(self)),
            block_gossip(
                final(self).new_sends(old(self)),
                old(self).peer_ids(),
                final(self).blocks().skip(old(self).blocks().len() as int),
            ),
    {
        let ghost mut states: Seq<Self> = seq![*self];
        proof {
            assert(self.blocks().subrange(0, self.blocks().len() as int) =~= self.blocks());
            assert(self.sent().take(self.sent().len() as int) =~= self.sent());
            assert(self.new_sends(old(self)) =~= Seq::<(u32, MessageView)>::empty());
            assert(self.blocks().skip(self.blocks().len() as int) =~= Seq::<Block>::empty());
            assert(crate::orphans::held_within(self.orphan_entries(), old(self).orphan_entries())) by {
                assert forall|k: int, j: int|
                    0 <= k < self.orphan_entries().len() && 0 <= j < self.orphan_entries()[k].1.len()
                        implies crate::orphans::held(
                    old(self).orphan_entries(),
                    #[trigger] self.orphan_entries()[k].1[j],
                ) by {}
            }
        }
        loop
            invariant
                self.wf(),
                self.same_setup(old(self)),
                self.peer_senders() == old(self).peer_senders(),
                self.same_pool(old(self)),
                self.same_sync(old(self)),
                self.seen_blocks() == old(self).seen_blocks(),
                extends_validly(
                    old(self).validators(),
                    old(self).consensus_verifier(),
                    old(self).blocks(),
                    self.blocks(),
                ),
                self.blocks().len() == old(self).blocks().len() ==> self.same_chain(old(self)),
                self.blocks().len() > old(self).blocks().len() ==> self.height()
                    == self.blocks().last().header.index && self.round() == 0
                    && self.round_started_at() == now,
                crate::orphans::held_within(self.orphan_entries(), old(self).orphan_entries()),
                forall|i: int|
                    old(self).blocks().len() <= i < self.blocks().len()
                        ==> crate::orphans::held(old(self).orphan_entries(), #[trigger] self.blocks()[i]),
                self.orphans_total() == sat_sub(
                    old(self).orphans_total(),
                    self.blocks().len() - old(self).blocks().len(),
                ),
                self.log_extends(old(self)),
                block_gossip(
                    self.new_sends(old(self)),
                    old(self).peer_ids(),
                    self.blocks().skip(old(self).blocks().len() as int),
                ),
                states.len() >= 1,
                states[0] == *old(self),
                states.last() == *self,
                forall|j: int| 0 <= j < states.len() - 1 ==> #[trigger] connect_step_at(states, j, now),
            decreases crate::orphans::blocks_held(self.orphans.entries()),
        {
            let last_index = self.chain.get_height();
            if last_index == u64::MAX {
                return;
            }
            let last_hash = self.chain.last().hash();
            let i = match self.orphans.find(&last_hash) {
                Some(i) => i,
                None => {
                    return;
                },
            };
            let pos = match self.first_acceptable(self.orphans.list_at(i)) {
                Some(p) => p,
                None => {
                    return;
                },
            };
            let ghost before = self.blocks();
            let ghost es0 = self.orphan_entries();
            let ghost sent0 = self.sent();
            let ghost prev = *self;
            proof {
                crate::orphans::lemma_held_remove(es0, i as int, old(self).orphan_entries());
            }
            let (_, mut list) = self.orphans.take(i);
            let ghost list0 = list@;
            let block = list.swap_remove(pos);
            proof {
                lemma_extends_push(self.validators(), self.consensus_verifier(), before, block);
                lemma_extends_trans(
                    old(self).validators(),
                    old(self).consensus_verifier(),
                    old(self).blocks(),
                    before,
                    before.push(block),
                );
                assert(block == list0[pos as int]);
                assert(crate::orphans::held(old(self).orphan_entries(), list0[pos as int]));
                assert forall|j: int| 0 <= j < list@.len() implies crate::orphans::held(
                    old(self).orphan_entries(),
                    #[trigger] list@[j],
                ) by {
                    if j == pos {
                        assert(list@[j] == list0[list0.len() - 1]);
                        assert(crate::orphans::held(old(self).orphan_entries(), list0[list0.len() - 1]));
                    } else {
                        assert(list@[j] == list0[j]);
                        assert(crate::orphans::held(old(self).orphan_entries(), list0[j]));
                    }
                }
            }
            self.chain.add_block(block);
            let height = self.chain.get_height();
            self.consensus.update_state(Some(height), 0, now);
            let last_block = self.chain.last().clone();
            let ghost mid = *self;
            self.gossip(ProtocolMessage::Block(last_block));
            proof {
                let g = self.new_sends(&mid);
                assert(self.sent() == sent0 + g);
                lemma_block_gossip_push(
                    sent0.skip(old(self).sent().len() as int),
                    old(self).peer_ids(),
                    before.skip(old(self).blocks().len() as int),
                    g,
                    block,
                );
                assert(self.blocks().skip(old(self).blocks().len() as int) =~= before.skip(
                    old(self).blocks().len() as int,
                ).push(block));
                assert(self.new_sends(old(self)) =~= sent0.skip(old(self).sent().len() as int) + g);
                assert(self.sent().take(old(self).sent().len() as int) =~= old(self).sent());
            }
            self.orphans.note_connected();
            if list.len() > 0 {
                let new_hash = self.chain.last().hash();
                let ghost es1 = self.orphan_entries();
                self.orphans.fill(new_hash, list);
                proof {
                    crate::orphans::lemma_held_fill(es1, new_hash@, list@, old(self).orphan_entries());
                }
            }
            proof {
                let list1 = list0.update(pos as int, list0.last()).drop_last();
                assert(list0 == es0[i as int].1);
                assert(self.blocks() == prev.blocks().push(list0[pos as int]));
                assert(self.new_sends(&prev) =~= self.new_sends(&mid));
                assert(self.sent().take(prev.sent().len() as int) =~= prev.sent());
                assert(self.connect_step(&prev, now));
                assert(connect_step_at(states.push(*self), states.len() - 1, now));
                assert forall|j: int| 0 <= j < states.len() implies #[trigger] connect_step_at(
                    states.push(*self),
                    j,
                    now,
                ) by {
                    if j < states.len() - 1 {
                        assert(connect_step_at(states, j, now));
                        assert(states.push(*self)[j] == states[j]);
                        assert(states.push(*self)[j + 1] == states[j + 1]);
                    }
                }
                states = states.push(*self);
            }
        }
    }

    /// The pool after offering `trx`: taken when the pool has room and its
    /// hash is not remembered (then remembered), else unchanged.
    pub open spec fn pool_after_offer(&self, old: &Self, trx: Transaction) -> bool {
        let h = crate::transaction::tx_hash(trx);
        if old.pool().len() < crate::mempool::MAX_MEMPOOL && !old.pool_seen().contains(h) {
            &&& self.pool() == old.pool().push(trx)
            &&& self.pool_seen() == crate::seen::remember(
                old.pool_seen(),
                h,
                crate::mempool::MAX_SEEN as nat,
            )
        } else {
            self.same_pool(old)
        }
    }

    /// What offering `trx` sends: the transaction to every peer when the pool
    /// takes it, nothing otherwise.
    pub open spec fn offer_sends(&self, old: &Self, trx: Transaction) -> bool {
        let h = crate::transaction::tx_hash(trx);
        if old.pool().len() < crate::mempool::MAX_MEMPOOL && !old.pool_seen().contains(h) {
            &&& self.log_extends(old)
            &&& gossiped(self.new_sends(old), old.peer_ids(), MessageView::Trx(trx))
        } else {
            self.sent_nothing(old)
        }
    }

    /// Offers `trx` to the pool and passes it on when the pool takes it.
    fn offer_transaction(&mut self, trx: Transaction)
        requires
            old(self).wf(),
        ensures
            final(self).wf(),
            final(self).pool_after_offer(old(self), trx),
            final(self).same_setup(old(self)),
            final(self).same_chain(old(self)),
            final(self).same_sync(old(self)),
            final(self).same_orphans(old(self)),
            final(self).seen_blocks() == old(self).seen_blocks(),
            final(self).peer_senders() == old(self).peer_senders(),
            final(self).offer_sends(old(self), trx),
    {
        let inserted = self.mempool.push(trx.clone());
        if inserted {
            let ghost mid = *self;
            self.gossip(ProtocolMessage::Trx(trx));
            proof {
                self.lemma_only_sent(&mid, self.new_sends(&mid));
                assert(self.sent().take(old(self).sent().len() as int) =~= old(self).sent());
                assert(self.new_sends(old(self)) =~= self.new_sends(&mid));
            }
        }
    }

    /// What the paging of a sync does once a batch of `got` blocks from
    /// `peer_id` is taken in: while syncing from that peer, a full batch asks
    /// for the next one from the height after the last block, a short batch
    /// (or a chain at the largest height) ends syncing.
    pub open spec fn paged(&self, old: &Self, peer_id: u32, got: u32) -> bool {
        if old.syncing() && old.sync_peer() == Some(peer_id) {
            if got == old.sync_limit_value() && old.blocks().last().header.index < u64::MAX {
                &&& self.syncing() == old.syncing()
                &&& self.sync_peer() == old.sync_peer()
                &&& self.sync_next_height() == old.blocks().last().header.index + 1
            } else {
                &&& !self.syncing()
                &&& self.sync_peer() is None
                &&& self.sync_next_height() == old.sync_next_height()
            }
        } else {
            self.same_sync(old)
        }
    }

    /// How many blocks a sync request asks for.
    pub closed spec fn sync_limit_value(&self) -> u32 {
        self.sync_limit
    }

    /// What paging a sync sends after a batch of `got` blocks from
    /// `peer_id`: a request for the next batch when the batch was full and
    /// the peer is known, nothing otherwise.
    pub open spec fn page_request(&self, peer_id: u32, got: u32) -> Seq<(u32, MessageView)> {
        let last = self.blocks().last().header.index;
        if self.syncing() && self.sync_peer() == Some(peer_id) && got == self.sync_limit_value()
            && last < u64::MAX && self.peer_ids().contains(peer_id) {
            seq![(peer_id, MessageView::GetBlocks { start: (last + 1) as u64, limit: self.sync_limit_value() })]
        } else {
            Seq::empty()
        }
    }

    /// Pages a sync after a batch of `got` blocks from `peer_id`.
    fn after_blocks_batch(&mut self, peer_id: u32, got: u32)
        requires
            old(self).wf(),
        ensures
            final(self).wf(),
            final(self).paged(old(self), peer_id, got),
            final(self).same_setup(old(self)),
            final(self).same_chain(old(self)),
            final(self).same_pool(old(self)),
            final(self).same_orphans(old(self)),
            final(self).seen_blocks() == old(self).seen_blocks(),
            final(self).peer_senders() == old(self).peer_senders(),
            final(self).sent() == old(self).sent() + old(self).page_request(peer_id, got),
    {
        if self.is_syncing && self.sync_peer == Some(peer_id) {
            let height = self.chain.get_height();
            if got == self.sync_limit && height < u64::MAX {
                let next = height + 1;
                self.sync_next_height = next;
                self.request_blocks(peer_id, next);
            } else {
                self.is_syncing = false;
                self.sync_peer = None;
            }
        }
    }

    /// What holds after the node takes in blocks from the network: its setup
    /// and peers are unchanged, the chain only grows by blocks that consensus
    /// accepts, consensus stands at the last block (its round starting at
    /// `now`) when the chain grew, the pool only loses transactions, and the
    /// record of sent messages only grows.
    pub open spec fn took_in_blocks(&self, old: &Self, now: std::time::Instant) -> bool {
        &&& self.same_setup(old)
        &&& self.peer_senders() == old.peer_senders()
        &&& extends_validly(old.validators(), old.consensus_verifier(), old.blocks(), self.blocks())
        &&& (self.blocks().len() == old.blocks().len() ==> self.same_chain(old))
        &&& (self.blocks().len() > old.blocks().len() ==> self.height()
            == self.blocks().last().header.index && self.round() == 0 && self.round_started_at() == now)
        &&& self.pool_seen() == old.pool_seen()
        &&& self.log_extends(old)
    }

    /// Takes in one block and, when the chain grew, whatever held blocks now
    /// connect.
    fn ingest_block(&mut self, block: Block, now: std::time::Instant)
        requires
            old(self).wf(),
        ensures
            final(self).wf(),
            final(self).took_in_blocks(old(self), now),
            !old(self).incoming_accepted(block) ==> {
                &&& final(self).same_chain(old(self))
                &&& final(self).same_pool(old(self))
                &&& (old(self).incoming_orphaned(block) ==> final(self).orphaned_and_syncing(
                    old(self),
                    block,
                    (old(self).blocks().last().header.index + 1) as u64,
                ))
                &&& (!old(self).incoming_orphaned(block) ==> final(self).same_sync(old(self))
                    && final(self).same_orphans(old(self)) && final(self).sent_nothing(old(self)))
            },
            old(self).incoming_accepted(block) ==> {
                &&& final(self).blocks().len() > old(self).blocks().len()
                &&& final(self).blocks()[old(self).blocks().len() as int] == block
                &&& final(self).pool() == crate::mempool::without_hashes(
                    old(self).pool(),
                    block.transactions@.map_values(|t: Transaction| crate::transaction::tx_hash(t)),
                )
                &&& !final(self).orphan_connectable()
                &&& final(self).same_sync(old(self))
                &&& block_gossip(
                    final(self).new_sends(old(self)),
                    old(self).peer_ids(),
                    final(self).blocks().skip(old(self).blocks().len() as int),
                )
            },
    {
        let ghost b0 = self.blocks();
        let ghost s0 = self.sent();
        let progressed = self.handle_incoming_block(block, now);
        if progressed {
            let ghost b1 = self.blocks();
            let ghost mid = *self;
            proof {
                lemma_extends_push(self.validators(), self.consensus_verifier(), b0, block);
            }
            self.try_connect_orphans(now);
            proof {
                lemma_extends_trans(self.validators(), self.consensus_verifier(), b0, b1, self.blocks());
                assert(self.blocks()[b0.len() as int] == self.blocks().subrange(0, b1.len() as int)[b0.len() as int]);
                let g = mid.new_sends(old(self));
                let t = self.new_sends(&mid);
                lemma_block_gossip_push(Seq::empty(), old(self).peer_ids(), Seq::empty(), g, block);
                assert(Seq::<(u32, MessageView)>::empty() + g =~= g);
                assert(Seq::<Block>::empty().push(block) =~= seq![block]);
                lemma_block_gossip_concat(g, old(self).peer_ids(), seq![block], t, self.blocks().skip(b1.len() as int));
                assert(self.blocks().skip(b0.len() as int) =~= seq![block] + self.blocks().skip(b1.len() as int));
                assert(self.sent() =~= s0 + g + t);
                assert(self.new_sends(old(self)) =~= g + t);
                assert(self.sent().take(s0.len() as int) =~= s0);
            }
        } else {
            proof {
                assert(self.blocks().subrange(0, self.blocks().len() as int) =~= self.blocks());
                assert(self.sent().take(s0.len() as int) =~= s0);
                if old(self).incoming_orphaned(block) && !old(self).peer_ids().is_empty() {
                    let r = old(self).sync_request(self.sync_peer()->0, (b0.last().header.index + 1) as u64);
                    assert(self.sent().take(s0.len() as int) =~= (s0 + r).take(s0.len() as int));
                }
            }
        }
    }

    /// Taking in the batch `blocks` with the clock reading `now`, from `old`
    /// to `self`: each block in order is taken in as `incoming_outcome` says
    /// (as a copy), then, when the chain grew, held blocks connect once as
    /// `connect_outcome` says.
    pub open spec fn batch_outcome(&self, old: &Self, blocks: Seq<Block>, now: std::time::Instant) -> bool {
        exists|states: Seq<Self>|
            {
                &&& states.len() == blocks.len() + 1
                &&& states[0] == *old
                &&& forall|j: int| 0 <= j < blocks.len() ==> #[trigger] incoming_at(states, blocks, j, now)
                &&& if states.last().blocks().len() > old.blocks().len() {
                    self.connect_outcome(&states.last(), now)
                } else {
                    *self == states.last()
                }
            }
    }

    /// Takes in a batch of blocks in order and, when the chain grew, whatever
    /// held blocks now connect.
    fn ingest_blocks(&mut self, blocks: &Vec<Block>, now: std::time::Instant)
        requires
            old(self).wf(),
        ensures
            final(self).wf(),
            final(self).batch_outcome(old(self), blocks@, now),
            final(self).took_in_blocks(old(self), now),
            gossip_with_requests(
                final(self).new_sends(old(self)),
                old(self).peer_ids(),
                final(self).blocks().skip(old(self).blocks().len() as int),
                old(self).sync_limit_value(),
            ),
    {
        let n = blocks.len();
        let mut i: usize = 0;
        let mut progressed = false;
        let ghost peers = self.peer_ids();
        let ghost limit = self.sync_limit_value();
        let ghost l0 = self.blocks().len() as int;
        let ghost mut states: Seq<Self> = seq![*self];
        proof {
            assert(self.blocks().subrange(0, self.blocks().len() as int) =~= self.blocks());
            assert(self.sent().take(self.sent().len() as int) =~= self.sent());
            assert(self.new_sends(old(self)) =~= Seq::<(u32, MessageView)>::empty());
            assert(self.blocks().skip(l0) =~= Seq::<Block>::empty());
        }
        while i < n
            invariant
                n == blocks@.len(),
                0 <= i <= n,
                self.wf(),
                self.took_in_blocks(old(self), now),
                peers == old(self).peer_ids(),
                limit == old(self).sync_limit_value(),
                states.len() == i + 1,
                states[0] == *old(self),
                states.last() == *self,
                forall|j: int| 0 <= j < i ==> #[trigger] incoming_at(states, blocks@, j, now),
                progressed == (self.blocks().len() > l0),
                l0 == old(self).blocks().len(),
                gossip_with_requests(self.new_sends(old(self)), peers, self.blocks().skip(l0), limit),
            decreases n - i,
        {
            let ghost before = *self;
            let b = blocks[i].clone();
            let accepted = self.handle_incoming_block(b, now);
            proof {
                let s1 = before.new_sends(old(self));
                let g = self.new_sends(&before);
                assert(self.sent().take(before.sent().len() as int) =~= before.sent()) by {
                    if !accepted && before.incoming_orphaned(b) && !before.peer_ids().is_empty() {
                        let r = before.sync_request(self.sync_peer()->0, (before.blocks().last().header.index + 1) as u64);
                        assert(self.sent() == before.sent() + r);
                    }
                }
                assert(self.sent() =~= before.sent() + g);
                assert(self.new_sends(old(self)) =~= s1 + g);
                assert(self.sent().take(old(self).sent().len() as int) =~= old(self).sent());
                if accepted {
                    lemma_extends_push(before.validators(), before.consensus_verifier(), before.blocks(), b);
                    lemma_extends_trans(
                        old(self).validators(),
                        old(self).consensus_verifier(),
                        old(self).blocks(),
                        before.blocks(),
                        self.blocks(),
                    );
                    lemma_gwr_push_gossip(s1, peers, before.blocks().skip(l0), limit, g, b);
                    assert(self.blocks().skip(l0) =~= before.blocks().skip(l0).push(b));
                } else {
                    assert(self.blocks() == before.blocks());
                    if before.incoming_orphaned(b) && !before.peer_ids().is_empty() {
                        let pid = self.sync_peer()->0;
                        let r = before.sync_request(pid, (before.blocks().last().header.index + 1) as u64);
                        assert(g =~= r);
                        if r.len() > 0 {
                            assert(is_sync_request(r[0], peers, limit));
                            lemma_gwr_push_request(s1, peers, before.blocks().skip(l0), limit, r[0]);
                            assert(s1.push(r[0]) =~= s1 + g);
                        } else {
                            assert(s1 + g =~= s1);
                        }
                    } else {
                        assert(g =~= Seq::<(u32, MessageView)>::empty());
                        assert(s1 + g =~= s1);
                    }
                }
                assert(crate::message::same_block(b, blocks@[i as int]));
                let next = states.push(*self);
                assert(next[i as int] == before);
                assert(next[i + 1] == *self);
                assert(incoming_at(next, blocks@, i as int, now));
                assert forall|j: int| 0 <= j < i + 1 implies #[trigger] incoming_at(next, blocks@, j, now) by {
                    if j < i {
                        assert(incoming_at(states, blocks@, j, now));
                        assert(next[j] == states[j]);
                        assert(next[j + 1] == states[j + 1]);
                    }
                }
                states = next;
            }
            progressed = progressed || accepted;
            i = i + 1;
        }
        if progressed {
            let ghost before = *self;
            self.try_connect_orphans(now);
            proof {
                assert(states.last() == before);
                lemma_extends_trans(
                    old(self).validators(),
                    old(self).consensus_verifier(),
                    old(self).blocks(),
                    before.blocks(),
                    self.blocks(),
                );
                let s1 = before.new_sends(old(self));
                let t = self.new_sends(&before);
                let cs = self.blocks().skip(before.blocks().len() as int);
                lemma_gwr_append_block_gossip(s1, peers, before.blocks().skip(l0), limit, t, cs);
                assert(self.blocks().skip(l0) =~= before.blocks().skip(l0) + cs);
                assert(self.sent() =~= before.sent() + t);
                assert(self.new_sends(old(self)) =~= s1 + t);
                assert(self.sent().take(old(self).sent().len() as int) =~= old(self).sent());
            }
        }
    }

    /// The node after handling `msg` from `peer_id`, compared with `old`, with
    /// `now` the clock reading of the call: a transaction is offered to the
    /// pool and passed on when taken; a block is taken in (appended when
    /// consensus accepts it, held when it is ahead, then held blocks connect,
    /// and each appended block goes to every peer); a batch of blocks is
    /// taken in block by block as `batch_outcome` says and then pages the
    /// sync; a higher status starts syncing from
    /// that peer when not syncing yet; a status request is answered with the
    /// node's status and a block request with the blocks the chain has, to
    /// that peer when it is known; handshake messages change nothing.
    pub open spec fn net_outcome(
        &self,
        old: &Self,
        peer_id: u32,
        msg: ProtocolMessage,
        now: std::time::Instant,
    ) -> bool {
        let reply = |m: MessageView|
            if old.peer_ids().contains(peer_id) {
                seq![(peer_id, m)]
            } else {
                Seq::<(u32, MessageView)>::empty()
            };
        &&& self.same_setup(old)
        &&& self.peer_senders() == old.peer_senders()
        &&& match msg {
            ProtocolMessage::Trx(trx) => {
                &&& self.pool_after_offer(old, trx)
                &&& self.offer_sends(old, trx)
                &&& self.same_chain(old)
                &&& self.same_sync(old)
                &&& self.same_orphans(old)
                &&& self.seen_blocks() == old.seen_blocks()
            },
            ProtocolMessage::Block(block) => {
                &&& self.took_in_blocks(old, now)
                &&& (!old.incoming_accepted(block) ==> {
                    &&& self.same_chain(old)
                    &&& self.same_pool(old)
                    &&& (old.incoming_orphaned(block) ==> self.orphaned_and_syncing(
                        old,
                        block,
                        (old.blocks().last().header.index + 1) as u64,
                    ))
                    &&& (!old.incoming_orphaned(block) ==> self.same_sync(old) && self.same_orphans(
                        old,
                    ) && self.sent_nothing(old))
                })
                &&& (old.incoming_accepted(block) ==> {
                    &&& self.blocks().len() > old.blocks().len()
                    &&& self.blocks()[old.blocks().len() as int] == block
                    &&& self.pool() == crate::mempool::without_hashes(
                        old.pool(),
                        block.transactions@.map_values(|t: Transaction| crate::transaction::tx_hash(t)),
                    )
                    &&& !self.orphan_connectable()
                    &&& self.same_sync(old)
                    &&& block_gossip(
                        self.new_sends(old),
                        old.peer_ids(),
                        self.blocks().skip(old.blocks().len() as int),
                    )
                })
            },
            ProtocolMessage::Blocks { blocks } => {
                &&& self.took_in_blocks(old, now)
                &&& exists|mid: Self|
                    {
                        &&& #[trigger] mid.took_in_blocks(old, now)
                        &&& mid.batch_outcome(old, blocks@, now)
                        &&& gossip_with_requests(
                            mid.new_sends(old),
                            old.peer_ids(),
                            mid.blocks().skip(old.blocks().len() as int),
                            old.sync_limit_value(),
                        )
                        &&& self.same_chain(&mid)
                        &&& self.same_pool(&mid)
                        &&& self.same_orphans(&mid)
                        &&& self.seen_blocks() == mid.seen_blocks()
                        &&& self.paged(&mid, peer_id, blocks@.len() as u32)
                        &&& self.sent() == mid.sent() + mid.page_request(peer_id, blocks@.len() as u32)
                    }
            },
            ProtocolMessage::Status { height, .. } => {
                &&& self.same_chain(old)
                &&& self.same_pool(old)
                &&& self.same_orphans(old)
                &&& self.seen_blocks() == old.seen_blocks()
                &&& if height > old.blocks().last().header.index && !old.syncing() {
                    &&& self.syncing()
                    &&& self.sync_peer() == Some(peer_id)
                    &&& self.sync_next_height() == old.blocks().last().header.index + 1
                    &&& self.sent() == old.sent() + old.sync_request(
                        peer_id,
                        (old.blocks().last().header.index + 1) as u64,
                    )
                } else {
                    self.same_sync(old) && self.sent_nothing(old)
                }
            },
            ProtocolMessage::GetStatus => {
                &&& self.same_but_peers(old)
                &&& self.sent() == old.sent() + reply(old.status_view())
            },
            ProtocolMessage::GetBlocks { start, limit } => {
                &&& self.same_but_peers(old)
                &&& self.sent() == old.sent() + reply(
                    MessageView::Blocks(requested_blocks(old.blocks(), start, limit)),
                )
            },
            _ => {
                &&& self.same_but_peers(old)
                &&& self.sent_nothing(old)
            },
        }
    }

    /// Handles a message from `peer_id` (see `net_outcome`).
    fn on_net(&mut self, peer_id: u32, msg: ProtocolMessage, now: std::time::Instant)
        requires
            old(self).wf(),
        ensures
            final(self).wf(),
            final(self).net_outcome(old(self), peer_id, msg, now),
    {
        match msg {
            ProtocolMessage::Hello { .. } | ProtocolMessage::HelloAck { .. } => {},
            ProtocolMessage::Trx(trx) => {
                self.offer_transaction(trx);
            },
            ProtocolMessage::Block(block) => {
                self.ingest_block(block, now);
            },
            ProtocolMessage::GetStatus => {
                let status = self.status_message();
                self.send_to(peer_id, status);
            },
            ProtocolMessage::Status { height: peer_height, .. } => {
                let own_height = self.chain.get_height();
                if peer_height > own_height && !self.is_syncing {
                    self.start_sync(peer_id, own_height + 1);
                }
            },
            ProtocolMessage::GetBlocks { start, limit } => {
                let blocks = self.blocks_for_request(start, limit);
                self.send_to(peer_id, ProtocolMessage::Blocks { blocks });
            },
            ProtocolMessage::Blocks { blocks } => {
                self.ingest_blocks(&blocks, now);
                let got: u32 = #[verifier::truncate] (blocks.len() as u32);
                let ghost mid = *self;
                self.after_blocks_batch(peer_id, got);
                proof {
                    assert(self.blocks() == mid.blocks());
                    assert(self.sent().take(old(self).sent().len() as int) =~= old(self).sent());
                }
            },
        }
    }

    /// The node after handling `message`, compared with `old`, with `now` the
    /// clock reading of the call: a local transaction is offered to the pool
    /// and passed on when taken; a network message goes as `net_outcome`
    /// says; a new peer is registered and sent a status request and the
    /// node's status; a peer is forgotten; `DebugPrint` and `Stop` change and
    /// send nothing (the printing and the stopping are up to whoever runs the
    /// node).
    pub open spec fn message_outcome(&self, old: &Self, message: NodeMessage, now: std::time::Instant) -> bool {
        &&& self.same_setup(old)
        &&& extends_validly(old.validators(), old.consensus_verifier(), old.blocks(), self.blocks())
        &&& (chain_links_valid(old.blocks()) ==> chain_links_valid(self.blocks()))
        &&& match message {
            NodeMessage::LocalTrx(trx) => {
                &&& self.pool_after_offer(old, trx)
                &&& self.offer_sends(old, trx)
                &&& self.same_chain(old)
                &&& self.same_sync(old)
                &&& self.same_orphans(old)
                &&& self.seen_blocks() == old.seen_blocks()
                &&& self.peer_senders() == old.peer_senders()
            },
            NodeMessage::Net { peer_id, msg } => self.net_outcome(old, peer_id, msg, now),
            NodeMessage::AddPeer { peer_id, sender } => {
                &&& self.peer_senders() == old.peer_senders().insert(peer_id, sender)
                &&& self.same_but_peers(old)
                &&& self.sent() == old.sent() + seq![
                    (peer_id, MessageView::GetStatus),
                    (peer_id, old.status_view()),
                ]
            },
            NodeMessage::RemovePeer { peer_id } => {
                &&& self.peer_senders() == old.peer_senders().remove(peer_id)
                &&& self.same_chain(old)
                &&& self.same_pool(old)
                &&& self.same_orphans(old)
                &&& self.seen_blocks() == old.seen_blocks()
                &&& self.sent_nothing(old)
            },
            _ => {
                &&& self.same_but_peers(old)
                &&& self.peer_senders() == old.peer_senders()
                &&& self.sent_nothing(old)
            },
        }
    }

    /// Handles an instruction with the clock reading `now` (see
    /// `message_outcome`).
    pub fn on_message_at(&mut self, message: NodeMessage, now: std::time::Instant)
        requires
            old(self).wf(),
        ensures
            final(self).wf(),
            final(self).message_outcome(old(self), message, now),
    {
        let ghost b0 = self.blocks();
        proof {
            assert(b0.subrange(0, b0.len() as int) =~= b0);
        }
        match message {
            NodeMessage::LocalTrx(trx) => {
                self.offer_transaction(trx);
            },
            NodeMessage::Net { peer_id, msg } => {
                self.on_net(peer_id, msg, now);
            },
            NodeMessage::DebugPrint => {},
            NodeMessage::Stop => {},
            NodeMessage::AddPeer { peer_id, sender } => {
                self.add_peer(peer_id, sender);
            },
            NodeMessage::RemovePeer { peer_id } => {
                self.remove_peer(peer_id);
            },
        }
        proof {
            if b0.len() >= 1 && chain_links_valid(b0) {
                lemma_extends_keeps_valid(self.validators(), self.consensus_verifier(), b0, self.blocks());
            }
        }
    }

    /// Handles an instruction: reads the clock once, then acts as
    /// `on_message_at` with that reading.
    pub fn on_message(&mut self, message: NodeMessage)
        requires
            old(self).wf(),
        ensures
            final(self).wf(),
            exists|now: std::time::Instant| final(self).message_outcome(old(self), message, now),
    {
        let now = crate::clock::instant_now();
        self.on_message_at(message, now);
    }

    /// The block this validator proposes over `transactions` after its last
    /// block, at the current round, stamped with `timestamp`.
    fn build_block(&self, transactions: Vec<Transaction>, timestamp: u64) -> (res: Result<
        Block,
        SignError,
    >)
        requires
            self.wf(),
            self.blocks().last().header.index < u64::MAX,
        ensures
            res is Ok <==> self.node_id() is Some,
            res matches Err(e) ==> e == SignError::NotValidator,
            res matches Ok(b) ==> is_proposal(
                b,
                self.blocks().last(),
                transactions@,
                self.round(),
                self.node_id()->0,
                timestamp,
                self.validator_seed()->0,
            ) && signed_by_seed(b, self.validator_seed()->0),
    {
        let proposer_id = match self.identity.node_id() {
            Some(id) => id,
            None => {
                return Err(SignError::NotValidator);
            },
        };
        let last_block = self.chain.last();
        let next_block_id = last_block.header.index + 1;
        let prev_hash = last_block.hash();
        let round = self.consensus.get_current_round();
        let mut new_block = Block::build_unsigned(
            next_block_id,
            prev_hash,
            transactions,
            round,
            proposer_id,
            timestamp,
        );
        match new_block.sign(&self.identity) {
            Ok(()) => {},
            Err(e) => {
                return Err(e);
            },
        }
        Ok(new_block)
    }

    /// The round after a tick whose second clock reading is `elapsed_ms`:
    /// one more (saturating) once the round has timed out.
    pub open spec fn tick_round(&self, elapsed_ms: u128) -> u64 {
        if elapsed_ms >= self.timeout_ms() {
            if self.round() == u64::MAX {
                u64::MAX
            } else {
                (self.round() + 1) as u64
            }
        } else {
            self.round()
        }
    }

    /// On a tick, the node is the proposer of the next height: not syncing,
    /// its slot has passed, and the expected proposer at the tick's round is
    /// itself.
    pub open spec fn tick_proposes(&self, slot_elapsed_ms: u128, round_elapsed_ms: u128) -> bool {
        let last = self.blocks().last();
        &&& !self.syncing()
        &&& slot_elapsed_ms >= self.slot_duration_ms()
        &&& last.header.index < u64::MAX
        &&& self.node_id() == Some(
            crate::poa::expected_proposer_of(
                self.validators(),
                (last.header.index + 1) as u64,
                self.tick_round(round_elapsed_ms),
            ).0,
        )
    }

    /// How many pooled transactions a proposal takes.
    pub open spec fn tick_batch(&self) -> int {
        if self.max_trx_per_block() < self.pool().len() {
            self.max_trx_per_block() as int
        } else {
            self.pool().len() as int
        }
    }

    /// The chain, height and seen blocks are `old`'s, the round is `round`
    /// and began at `started`, and nothing was sent.
    pub open spec fn only_round_moved(&self, old: &Self, round: u64, started: std::time::Instant) -> bool {
        &&& self.blocks() == old.blocks()
        &&& self.height() == old.height()
        &&& self.round() == round
        &&& self.round_started_at() == started
        &&& self.seen_blocks() == old.seen_blocks()
        &&& self.sent_nothing(old)
    }

    /// When the round after a tick began: at `now` when it timed out, else
    /// when it began before.
    pub open spec fn tick_started(&self, round_elapsed_ms: u128, now: std::time::Instant) -> std::time::Instant {
        if round_elapsed_ms >= self.timeout_ms() {
            now
        } else {
            self.round_started_at()
        }
    }

    /// The outcome of a tick with the clock readings given: nothing happens
    /// while syncing or before the slot has passed; else the round may move
    /// on (starting at `now`), and a proposer with a wall-clock reading takes
    /// up to a block's worth of transactions from the pool, builds and signs
    /// a block, and appends it (seen, consensus at its height, round 0
    /// starting at `now`) when consensus accepts it, handing it to every
    /// peer. Nothing else is sent.
    pub open spec fn tick_outcome(
        &self,
        old: &Self,
        slot_elapsed_ms: u128,
        round_elapsed_ms: u128,
        now_secs: Option<u64>,
        now: std::time::Instant,
    ) -> bool {
        let r = old.tick_round(round_elapsed_ms);
        let t = old.tick_started(round_elapsed_ms, now);
        let last = old.blocks().last();
        &&& self.same_setup(old)
        &&& self.peer_senders() == old.peer_senders()
        &&& self.same_sync(old)
        &&& self.same_orphans(old)
        &&& if old.syncing() || slot_elapsed_ms < old.slot_duration_ms() {
            &&& self.same_chain(old)
            &&& self.same_pool(old)
            &&& self.seen_blocks() == old.seen_blocks()
            &&& self.sent_nothing(old)
        } else if !old.tick_proposes(slot_elapsed_ms, round_elapsed_ms) {
            self.only_round_moved(old, r, t) && self.same_pool(old)
        } else if now_secs is None {
            self.only_round_moved(old, r, t) && self.same_pool(old)
        } else {
            let n = old.tick_batch();
            let txs = old.pool().take(n);
            let id = old.node_id()->0;
            let seed = old.validator_seed()->0;
            &&& self.pool() == old.pool().skip(n)
            &&& self.pool_seen() == old.pool_seen()
            &&& if n == 0 {
                self.only_round_moved(old, r, t)
            } else if self.blocks().len() == old.blocks().len() + 1 {
                let b = self.blocks().last();
                &&& self.blocks() == old.blocks().push(b)
                &&& is_proposal(b, last, txs, r, id, now_secs->0, seed)
                &&& signed_by_seed(b, seed)
                &&& consensus_check(old.validators(), old.consensus_verifier(), last, b) is Ok
                &&& self.seen_blocks() == crate::seen::remember(
                    old.seen_blocks(),
                    block_hash(b),
                    MAX_SEEN_BLOCKS as nat,
                ) || (old.seen_blocks().contains(block_hash(b)) && self.seen_blocks()
                    == old.seen_blocks())
                &&& self.height() == b.header.index
                &&& self.round() == 0
                &&& self.round_started_at() == now
                &&& self.log_extends(old)
                &&& gossiped(self.new_sends(old), old.peer_ids(), MessageView::Block(block_view(b)))
            } else {
                &&& self.only_round_moved(old, r, t)
                &&& exists|b: Block|
                    is_proposal(b, last, txs, r, id, now_secs->0, seed) && signed_by_seed(b, seed)
                        && !(consensus_check(
                        old.validators(),
                        old.consensus_verifier(),
                        last,
                        b,
                    ) is Ok)
            }
        }
    }

    /// One tick with the clock readings given as arguments: the milliseconds
    /// since the round started, read twice (for the slot and for the round
    /// timeout), the Unix time in seconds (`None` before the epoch), and the
    /// monotonic time at which a new round starts.
    pub fn on_tick_at(
        &mut self,
        slot_elapsed_ms: u128,
        round_elapsed_ms: u128,
        now_secs: Option<u64>,
        now: std::time::Instant,
    )
        requires
            old(self).wf(),
        ensures
            final(self).wf(),
            final(self).tick_outcome(old(self), slot_elapsed_ms, round_elapsed_ms, now_secs, now),
            extends_validly(
                old(self).validators(),
                old(self).consensus_verifier(),
                old(self).blocks(),
                final(self).blocks(),
            ),
            chain_links_valid(old(self).blocks()) ==> chain_links_valid(final(self).blocks()),
    {
        let ghost b0 = self.blocks();
        proof {
            assert(b0.subrange(0, b0.len() as int) =~= b0);
        }
        if self.is_syncing {
            return;
        }
        if slot_elapsed_ms < self.consensus.config.slot_duration_ms() as u128 {
            return;
        }
        if round_elapsed_ms >= self.consensus.config.timeout_ms as u128 {
            let next_round = self.consensus.state.current_round.saturating_add(1);
            self.consensus.update_state(None, next_round, now);
        }
        let height = self.chain.get_height();
        if height == u64::MAX {
            return;
        }
        let next_height = height + 1;
        let round = self.consensus.state.current_round;
        let (expected_proposer_id, _) = self.consensus.expected_proposer(next_height, round);
        if self.identity.node_id() != Some(expected_proposer_id) {
            return;
        }
        let timestamp = match now_secs {
            Some(t) => t,
            None => {
                return;
            },
        };
        let txs = self.mempool.pop_many(self.consensus.config.max_trx_per_block);
        if txs.len() == 0 {
            return;
        }
        let candidate = match self.build_block(txs, timestamp) {
            Ok(b) => b,
            Err(_) => {
                return;
            },
        };
        if self.consensus.validate_block(self.chain.last(), &candidate).is_err() {
            return;
        }
        let candidate_hash = candidate.hash();
        let copy = candidate.clone();
        let ghost before = self.blocks();
        self.chain.add_block(candidate);
        let _ = self.mark_seen_block(candidate_hash);
        let cur_height = self.chain.get_height();
        self.consensus.update_state(Some(cur_height), 0, now);
        let ghost mid = *self;
        self.broadcast_block(&copy);
        proof {
            self.lemma_only_sent(&mid, self.new_sends(&mid));
            assert(block_view(copy) == block_view(candidate));
            assert(self.sent().take(old(self).sent().len() as int) =~= old(self).sent());
            assert(self.new_sends(old(self)) =~= self.new_sends(&mid));
            lemma_extends_push(self.validators(), self.consensus_verifier(), before, candidate);
            lemma_extends_keeps_valid_if(self.validators(), self.consensus_verifier(), b0, self.blocks());
        }
    }

    /// One tick of the node's clock: reads the time since the round started
    /// (twice, as for the slot and for the timeout), the Unix time and the
    /// monotonic time, then acts as `on_tick_at` with those readings.
    pub fn on_tick(&mut self)
        requires
            old(self).wf(),
        ensures
            final(self).wf(),
            exists|slot_elapsed_ms: u128, round_elapsed_ms: u128, now_secs: Option<u64>, now: std::time::Instant|
                final(self).tick_outcome(old(self), slot_elapsed_ms, round_elapsed_ms, now_secs, now),
            extends_validly(
                old(self).validators(),
                old(self).consensus_verifier(),
                old(self).blocks(),
                final(self).blocks(),
            ),
            chain_links_valid(old(self).blocks()) ==> chain_links_valid(final(self).blocks()),
    {
        let slot_elapsed_ms = crate::clock::millis_since(&self.consensus.state.round_started_at);
        let round_elapsed_ms = crate::clock::millis_since(&self.consensus.state.round_started_at);
        let wall = crate::clock::system_time_now();
        let now_secs = crate::clock::secs_since_unix_epoch(&wall);
        let now = crate::clock::instant_now();
        self.on_tick_at(slot_elapsed_ms, round_elapsed_ms, now_secs, now);
    }

    /// The text a debug print shows: the chain, whether it is valid, and the
    /// pool.
    pub fn debug_report(&self) -> (res: String)
        ensures
            exists|chain_text: Seq<char>, pool_text: Seq<char>|
                res@ == #[trigger] report_text(chain_text, chain_links_valid(self.blocks()), pool_text),
    {
        let valid = self.chain.is_valid();
        let mut out = chain_debug_text(&self.chain);
        let ghost chain_text = out@;
        out.append("\nis_valid=");
        if valid {
            out.append("true");
        } else {
            out.append("false");
        }
        out.append("\nmempool=");
        let pool = pool_debug_text(&self.mempool);
        out.append(pool.as_str());
        proof {
            assert(valid == chain_links_valid(self.blocks()));
            assert(out@ =~= report_text(chain_text, valid, pool@));
            assert(out@ == report_text(chain_text, chain_links_valid(self.blocks()), pool@));
        }
        out
    }

    /// The node's stores stay within their caps and remember no hash twice.
    pub open spec fn bounded(&self) -> bool {
        &&& self.pool().len() <= crate::mempool::MAX_MEMPOOL
        &&& self.pool_seen().len() <= crate::mempool::MAX_SEEN
        &&& self.pool_seen().no_duplicates()
        &&& self.seen_blocks().len() <= MAX_SEEN_BLOCKS
        &&& self.seen_blocks().no_duplicates()
        &&& self.orphans_total() <= crate::orphans::MAX_ORPHANS_TOTAL
        &&& crate::orphans::lists_within_cap(self.orphan_entries())
    }

    /// Every node that the operations produce stays within its caps.
    pub proof fn law_node_bounded(&self)
        requires
            self.wf(),
        ensures
            self.bounded(),
    {
        self.mempool.lemma_bounded();
    }

    /// Sends `msg` to `peer_id` when that peer is known, and records it.
    fn send_to(&mut self, peer_id: u32, msg: ProtocolMessage)
        ensures
            final(self).only_sent(
                old(self),
                if old(self).peer_ids().contains(peer_id) {
                    seq![(peer_id, message_view(msg))]
                } else {
                    Seq::empty()
                },
            ),
    {
        let ghost m = message_view(msg);
        if let Some(peer) = self.peers.get(&peer_id) {
            send_message(peer, msg);
            self.sent = Ghost(self.sent@.push((peer_id, m)));
            assert(self.sent@ =~= old(self).sent@ + seq![(peer_id, m)]);
        } else {
            assert(self.sent@ =~= old(self).sent@ + Seq::<(u32, MessageView)>::empty());
        }
    }

    /// Sends a copy of `msg` to every peer, and records each.
    fn gossip(&mut self, msg: ProtocolMessage)
        ensures
            final(self).only_sent(old(self), final(self).new_sends(old(self))),
            gossiped(final(self).new_sends(old(self)), old(self).peer_ids(), message_view(msg)),
    {
        let ghost m = message_view(msg);
        let ghost start = self.sent@;
        let ghost mut log: Seq<(u32, MessageView)> = Seq::empty();
        let iter = self.peers.iter();
        let ghost all = spec_hash_map_iter(&self.peers).remaining();
        proof {
            assert(all.no_duplicates());
        }
        for (k, peer) in it: iter
            invariant
                all == spec_hash_map_iter(&self.peers).remaining(),
                it.seq() == all,
                log.len() == it.index(),
                forall|i: int| 0 <= i < log.len() ==> #[trigger] log[i] == (*all[i].0, m),
        {
            let copy = msg.clone();
            proof {
                lemma_same_message_view(copy, msg);
                log = log.push((*k, m));
            }
            send_message(peer, copy);
        }
        self.sent = Ghost(start + log);
        proof {
            lemma_iter_gossiped(&self.peers, all, log, m);
            assert(self.sent@.skip(start.len() as int) =~= log);
        }
    }

    /// Sends a copy of `block` to every peer, and records each.
    fn broadcast_block(&mut self, block: &Block)
        ensures
            final(self).only_sent(old(self), final(self).new_sends(old(self))),
            gossiped(
                final(self).new_sends(old(self)),
                old(self).peer_ids(),
                MessageView::Block(block_view(*block)),
            ),
    {
        let b = block.clone();
        self.gossip(ProtocolMessage::Block(b));
    }

    /// Registers `sender` as the way to `peer_id` (replacing an older one),
    /// then asks the peer for its status and tells it the node's own.
    pub fn add_peer(&mut self, peer_id: u32, sender: Sender<ProtocolMessage>)
        requires
            old(self).wf(),
        ensures
            final(self).wf(),
            final(self).peer_senders() == old(self).peer_senders().insert(peer_id, sender),
            final(self).same_but_peers(old(self)),
            final(self).sent() == old(self).sent() + seq![
                (peer_id, MessageView::GetStatus),
                (peer_id, old(self).status_view()),
            ],
    {
        self.peers.insert(peer_id, sender);
        self.send_to(peer_id, ProtocolMessage::GetStatus);
        let status = self.status_message();
        self.send_to(peer_id, status);
    }

    /// Forgets `peer_id`; when it was the sync peer, syncing stops.
    pub fn remove_peer(&mut self, peer_id: u32)
        requires
            old(self).wf(),
        ensures
            final(self).wf(),
            final(self).peer_senders() == old(self).peer_senders().remove(peer_id),
            final(self).same_setup(old(self)),
            final(self).same_chain(old(self)),
            final(self).same_pool(old(self)),
            final(self).same_orphans(old(self)),
            final(self).seen_blocks() == old(self).seen_blocks(),
            old(self).peer_ids().contains(peer_id) && old(self).sync_peer() == Some(peer_id) ==> (
            !final(self).syncing() && final(self).sync_peer() is None && final(self).sync_next_height()
                == old(self).sync_next_height()),
            !(old(self).peer_ids().contains(peer_id) && old(self).sync_peer() == Some(peer_id))
                ==> final(self).same_sync(old(self)),
            final(self).sent_nothing(old(self)),
    {
        let is_exists = self.peers.remove(&peer_id).is_some();
        if !is_exists {
            return;
        }
        if self.sync_peer == Some(peer_id) {
            self.is_syncing = false;
            self.sync_peer = None;
        }
    }

    /// Some known peer, when there is one.
    fn any_peer_for_sync(&self) -> (res: Option<u32>)
        ensures
            res is Some <==> !self.peer_ids().is_empty(),
            res matches Some(p) ==> self.peer_ids().contains(p),
    {
        for k in it: self.peers.keys()
            invariant
                it.index() == 0,
        {
            return Some(*k);
        }
        None
    }

    /// Asks `peer_id` for blocks from `start` on.
    fn request_blocks(&mut self, peer_id: u32, start: u64)
        ensures
            final(self).only_sent(
                old(self),
                if old(self).peer_ids().contains(peer_id) {
                    seq![(peer_id, MessageView::GetBlocks { start, limit: old(self).sync_limit_value() })]
                } else {
                    Seq::empty()
                },
            ),
    {
        let limit = self.sync_limit;
        self.send_to(peer_id, ProtocolMessage::GetBlocks { start, limit });
    }

    /// What starting to sync from `pid` at `from` sends: nothing when that
    /// sync is already under way, else a request for blocks from `from` when
    /// `pid` is a known peer.
    pub open spec fn sync_request(&self, pid: u32, from: u64) -> Seq<(u32, MessageView)> {
        if self.syncing() && self.sync_peer() == Some(pid) && self.sync_next_height() == from {
            Seq::empty()
        } else if self.peer_ids().contains(pid) {
            seq![(pid, MessageView::GetBlocks { start: from, limit: self.sync_limit_value() })]
        } else {
            Seq::empty()
        }
    }

    /// The status the node reports: its height and the hash of its last block.
    pub open spec fn status_view(&self) -> MessageView {
        MessageView::Status {
            height: self.blocks().last().header.index,
            last_block_hash: block_hash(self.blocks().last()),
        }
    }

    /// Starts syncing from `peer_id` at height `from_height`, unless that is
    /// already under way, and asks the peer for blocks.
    fn start_sync(&mut self, peer_id: u32, from_height: u64)
        requires
            old(self).wf(),
        ensures
            final(self).wf(),
            final(self).syncing(),
            final(self).sync_peer() == Some(peer_id),
            final(self).sync_next_height() == from_height,
            final(self).same_setup(old(self)),
            final(self).same_chain(old(self)),
            final(self).same_pool(old(self)),
            final(self).same_orphans(old(self)),
            final(self).seen_blocks() == old(self).seen_blocks(),
            final(self).peer_senders() == old(self).peer_senders(),
            final(self).sent() == old(self).sent() + old(self).sync_request(peer_id, from_height),
    {
        if self.is_syncing && self.sync_peer == Some(peer_id) && self.sync_next_height == from_height {
            return;
        }
        self.is_syncing = true;
        self.sync_peer = Some(peer_id);
        self.sync_next_height = from_height;
        self.request_blocks(peer_id, from_height);
    }
}

} // verus!
