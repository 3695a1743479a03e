use vstd::prelude::*;
use crate::block::{block_check, header_unsigned_bytes, links_to, Block};
use crate::crypto::{hash_eq, PubkeyType};
use crate::errors::BlockError;
use crate::signing::Verifier;

verus! {

/// A validator is known by its public key.
#[derive(Debug, Clone, Copy)]
pub struct Validator {
    pub pubkey: PubkeyType,
}

impl Validator {
    pub fn new(pubkey: PubkeyType) -> (res: Self)
        ensures
            res.pubkey == pubkey,
    {
        Validator { pubkey }
    }
}

/// Why a consensus engine could not be made.
#[derive(Debug, PartialEq, Eq, Structural)]
pub enum ConsensusError {
    InvalidConfig,
}

/// A usable validator set: not empty, and no public key twice.
pub open spec fn validators_ok(vs: Seq<Validator>) -> bool {
    &&& vs.len() > 0
    &&& forall|i: int, j: int| 0 <= i < j < vs.len() ==> vs[i].pubkey@ != vs[j].pubkey@
}

/// Parameters of proof-of-authority consensus.
pub struct PoAConsensusConfig {
    /// The validators, in the order that gives each its proposer id.
    pub validators: Vec<Validator>,
    /// Time a proposer waits into its slot before it builds a block.
    pub slot_duration_ms: u64,
    /// Time after which the round at a height advances.
    pub timeout_ms: u64,
    /// Most transactions a block takes.
    pub max_trx_per_block: usize,
}

impl Clone for PoAConsensusConfig {
    fn clone(&self) -> (res: Self)
        ensures
            res.validators@ == self.validators@,
            res.slot_duration_ms == self.slot_duration_ms,
            res.timeout_ms == self.timeout_ms,
            res.max_trx_per_block == self.max_trx_per_block,
    {
        let validators = self.validators.clone();
        assert(validators@ =~= self.validators@);
        PoAConsensusConfig {
            validators,
            slot_duration_ms: self.slot_duration_ms,
            timeout_ms: self.timeout_ms,
            max_trx_per_block: self.max_trx_per_block,
        }
    }
}

impl PoAConsensusConfig {
    pub fn new(
        validators: Vec<Validator>,
        slot_duration_ms: u64,
        timeout_ms: u64,
        max_trx_per_block: usize,
    ) -> (res: Self)
        ensures
            res.validators@ == validators@,
            res.slot_duration_ms == slot_duration_ms,
            res.timeout_ms == timeout_ms,
            res.max_trx_per_block == max_trx_per_block,
    {
        PoAConsensusConfig { validators, slot_duration_ms, timeout_ms, max_trx_per_block }
    }

    /// At least one validator, and their public keys pairwise distinct.
    pub fn validate_config(&self) -> (res: bool)
        ensures
            res == validators_ok(self.validators@),
    {
        let n = self.validators.len();
        if n == 0 {
            return false;
        }
        let mut j: usize = 1;
        while j < n
            invariant
                n == self.validators@.len(),
                1 <= j <= n,
                forall|a: int, b: int|
                    0 <= a < b < j ==> self.validators@[a].pubkey@ != self.validators@[b].pubkey@,
            decreases n - j,
        {
            let mut i: usize = 0;
            while i < j
                invariant
                    n == self.validators@.len(),
                    1 <= j < n,
                    0 <= i <= j,
                    forall|a: int, b: int|
                        0 <= a < b < j ==> self.validators@[a].pubkey@ != self.validators@[b].pubkey@,
                    forall|a: int| 0 <= a < i ==> self.validators@[a].pubkey@ != self.validators@[j as int].pubkey@,
                decreases j - i,
            {
                if hash_eq(&self.validators[i].pubkey, &self.validators[j].pubkey) {
                    return false;
                }
                i = i + 1;
            }
            j = j + 1;
        }
        true
    }

    pub fn slot_duration_ms(&self) -> (res: u64)
        ensures
            res == self.slot_duration_ms,
    {
        self.slot_duration_ms
    }
}

/// Where consensus stands: the height reached, the round at the next height,
/// and when that round began.
pub struct PoAConsensusState {
    pub current_height: u64,
    pub current_round: u64,
    pub round_started_at: std::time::Instant,
}

impl PoAConsensusState {
    /// A state at `current_height` and `current_round` whose round starts at
    /// `now`, the clock reading taken by the caller.
    pub fn new(current_height: u64, current_round: u64, now: std::time::Instant) -> (res: Self)
        ensures
            res.current_height == current_height,
            res.current_round == current_round,
            res.round_started_at == now,
    {
        PoAConsensusState { current_height, current_round, round_started_at: now }
    }
}

/// Position in the validator list of the proposer of height `block_index`
/// at `round`: validators take turns, each round moving one further.
pub open spec fn proposer_index(n: int, block_index: int, round: int) -> int {
    (block_index - 1 + round) % n
}

/// The proposer of a height and round, with its id as a `u32`.
pub open spec fn expected_proposer_of(vs: Seq<Validator>, block_index: u64, round: u64) -> (u32, Validator) {
    let idx = proposer_index(vs.len() as int, block_index as int, round as int);
    (idx as u32, vs[idx])
}

/// The verdict of `PoAConsensus::validate_block`: the checks of
/// `Block::validate`, then the proposer id, then the signature.
pub open spec fn consensus_check<V: Verifier>(
    vs: Seq<Validator>,
    verifier: V,
    prev: Block,
    cur: Block,
) -> Result<(), BlockError> {
    match block_check(cur, prev) {
        Err(e) => Err(e),
        Ok(_) => {
            let (expected_id, expected_validator) = expected_proposer_of(
                vs,
                cur.header.index,
                cur.header.round,
            );
            if cur.header.proposer_id != expected_id {
                Err(BlockError::InvalidProposer { expected: expected_id, got: cur.header.proposer_id })
            } else if !verifier.accepts(
                expected_validator.pubkey@,
                header_unsigned_bytes(cur.header),
                cur.header.signature@,
            ) {
                Err(BlockError::InvalidSignature)
            } else {
                Ok(())
            }
        },
    }
}

/// A block that consensus accepts after `prev` links to `prev`.
pub proof fn lemma_accepted_block_links<V: Verifier>(vs: Seq<Validator>, verifier: V, prev: Block, cur: Block)
    requires
        consensus_check(vs, verifier, prev, cur) is Ok,
    ensures
        links_to(prev, cur),
        cur.header.index != 0,
{
}

/// Proof-of-authority consensus: a fixed validator set proposes blocks in
/// turn, and a block is accepted when it extends the chain, comes from the
/// expected proposer, and carries that proposer's signature.
pub struct PoAConsensus<V: Verifier> {
    pub config: PoAConsensusConfig,
    pub state: PoAConsensusState,
    pub verifier: V,
}

impl<V: Verifier> PoAConsensus<V> {
    /// Consensus over `config`, refused when its validator set is unusable.
    pub fn new(config: PoAConsensusConfig, state: PoAConsensusState, verifier: V) -> (res: Result<
        Self,
        ConsensusError,
    >)
        ensures
            res is Ok <==> validators_ok(config.validators@),
            res matches Err(e) ==> e == ConsensusError::InvalidConfig,
            res matches Ok(c) ==> c.config == config && c.state == state && c.verifier == verifier,
    {
        if !config.validate_config() {
            return Err(ConsensusError::InvalidConfig);
        }
        Ok(PoAConsensus { config, state, verifier })
    }

    pub fn get_current_round(&self) -> (res: u64)
        ensures
            res == self.state.current_round,
    {
        self.state.current_round
    }

    /// Moves to `round` (and to `height` when given); the round starts at
    /// `now`, the clock reading taken by the caller.
    pub fn update_state(&mut self, height: Option<u64>, round: u64, now: std::time::Instant)
        ensures
            final(self).state.round_started_at == now,
            final(self).config == old(self).config,
            final(self).verifier == old(self).verifier,
            final(self).state.current_round == round,
            final(self).state.current_height == match height {
                Some(h) => h,
                None => old(self).state.current_height,
            },
    {
        if let Some(h) = height {
            self.state.current_height = h;
        }
        self.state.current_round = round;
        self.state.round_started_at = now;
    }

    /// The validator expected to propose height `block_index` at `round`.
    pub fn expected_proposer(&self, block_index: u64, round: u64) -> (res: (u32, &Validator))
        requires
            block_index > 0,
            self.config.validators@.len() > 0,
        ensures
            (res.0, *res.1) == expected_proposer_of(self.config.validators@, block_index, round),
    {
        let proposer_count = self.config.validators.len();
        let proposer_index = (((block_index - 1) as u128) + (round as u128)) % (proposer_count as u128);
        let validator = &self.config.validators[proposer_index as usize];
        (proposer_index as u32, validator)
    }

    /// Accepts `current` after `prev` when it extends `prev`, names the
    /// expected proposer, and carries a signature the verifier accepts.
    pub fn validate_block(&self, prev: &Block, current: &Block) -> (res: Result<(), BlockError>)
        requires
            self.config.validators@.len() > 0,
            current.header.index != 0 ==> prev.header.index < u64::MAX,
        ensures
            res == consensus_check(self.config.validators@, self.verifier, *prev, *current),
    {
        match current.validate(prev) {
            Err(e) => {
                return Err(e);
            },
            Ok(()) => {},
        }
        let (expected_proposer_id, expected_validator) = self.expected_proposer(
            current.header.index,
            current.header.round,
        );
        if current.header.proposer_id != expected_proposer_id {
            return Err(
                BlockError::InvalidProposer {
                    expected: expected_proposer_id,
                    got: current.header.proposer_id,
                },
            );
        }
        let bytes = current.header_wo_signature_to_bytes();
        let ok = self.verifier.verify(&expected_validator.pubkey, bytes.as_slice(), &current.header.signature);
        if !ok {
            return Err(BlockError::InvalidSignature);
        }
        Ok(())
    }
}

} // verus!
