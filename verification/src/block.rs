use vstd::prelude::*;
use crate::crypto::{calc_hash, calc_merkle_root, hash_eq, merkle_root, sha256, Hash32Type, SignatureType};
use crate::errors::{BlockError, SignError};
use crate::signing::Signer;
use crate::transaction::Transaction;

verus! {

/// Version written into every header.
pub const VERSION: u32 = 0;

/// Length of the encoded header, signature included.
pub const HEADER_CAPACITY_BYTES: usize = 160;

/// Length of the encoded header without the signature: the bytes a proposer signs.
pub const HEADER_WO_SIGN_CAPACITY_BYTES: usize = 96;

/// Big-endian bytes of a `u32`.
pub open spec fn be_u32(x: u32) -> Seq<u8> {
    seq![(x >> 24u32) as u8, (x >> 16u32) as u8, (x >> 8u32) as u8, x as u8]
}

/// Big-endian bytes of a `u64`.
pub open spec fn be_u64(x: u64) -> Seq<u8> {
    seq![
        (x >> 56u64) as u8,
        (x >> 48u64) as u8,
        (x >> 40u64) as u8,
        (x >> 32u64) as u8,
        (x >> 24u64) as u8,
        (x >> 16u64) as u8,
        (x >> 8u64) as u8,
        x as u8,
    ]
}

/// A block header. `index` is the height, `round` the attempt at that
/// height, `proposer_id` the position of the proposer in the validator list.
#[derive(Debug, Clone, Copy)]
pub struct BlockHeader {
    pub version: u32,
    pub index: u64,
    pub previous_hash: Hash32Type,
    pub merkle_root: Hash32Type,
    pub timestamp: u64,
    pub round: u64,
    pub proposer_id: u32,
    pub signature: SignatureType,
}

/// The encoding a proposer signs: every field but the signature, integers
/// big-endian, in declaration order.
pub open spec fn header_unsigned_bytes(h: BlockHeader) -> Seq<u8> {
    be_u32(h.version) + be_u64(h.index) + h.previous_hash@ + h.merkle_root@ + be_u64(h.timestamp)
        + be_u64(h.round) + be_u32(h.proposer_id)
}

/// The full header encoding: the signed bytes followed by the signature.
pub open spec fn header_bytes(h: BlockHeader) -> Seq<u8> {
    header_unsigned_bytes(h) + h.signature@
}

/// A block: a header and the transactions its Merkle root commits to.
#[derive(Debug)]
pub struct Block {
    pub header: BlockHeader,
    pub transactions: Vec<Transaction>,
}

/// The hash of a block: SHA-256 of its full header encoding.
pub open spec fn block_hash(b: Block) -> Seq<u8> {
    sha256(header_bytes(b.header))
}

/// The header every chain starts from: version 0, index, round, timestamp
/// and proposer 0, a zero previous hash and signature, and the Merkle root
/// of no transactions.
pub open spec fn is_genesis_header(h: BlockHeader) -> bool {
    &&& h.version == VERSION
    &&& h.index == 0
    &&& h.previous_hash@ == Seq::new(32, |i: int| 0u8)
    &&& h.merkle_root@ == sha256(Seq::empty())
    &&& h.timestamp == 0
    &&& h.round == 0
    &&& h.proposer_id == 0
    &&& h.signature@ == Seq::new(64, |i: int| 0u8)
}

/// The genesis block: the genesis header and no transactions.
pub open spec fn is_genesis_block(b: Block) -> bool {
    is_genesis_header(b.header) && b.transactions@.len() == 0
}

/// The verdict of `Block::validate` on `cur` as a successor of `prev`; the
/// checks come in this order and the first that fails decides.
pub open spec fn block_check(cur: Block, prev: Block) -> Result<(), BlockError> {
    if cur.header.index == 0 {
        Err(BlockError::GenesisNotAllowedHere)
    } else if cur.header.index != prev.header.index + 1 {
        Err(BlockError::InvalidIndex { expected: (prev.header.index + 1) as u64, got: cur.header.index })
    } else if cur.header.previous_hash@ != block_hash(prev) {
        Err(BlockError::InvalidPrevHash)
    } else if cur.header.merkle_root@ != merkle_root(cur.transactions@) {
        Err(BlockError::InvalidMerkleRoot)
    } else {
        Ok(())
    }
}

/// `cur` links to `prev`: it names `prev`'s hash, its index is one more,
/// and its Merkle root matches its transactions.
pub open spec fn links_to(prev: Block, cur: Block) -> bool {
    &&& cur.header.previous_hash@ == block_hash(prev)
    &&& cur.header.index == prev.header.index + 1
    &&& cur.header.merkle_root@ == merkle_root(cur.transactions@)
}

/// Every block after the first links to the block before it.
pub open spec fn chain_links_valid(blocks: Seq<Block>) -> bool {
    forall|i: int| 1 <= i < blocks.len() ==> links_to(#[trigger] blocks[i - 1], blocks[i])
}

/// Appending a block that links to the last one keeps a chain valid.
pub proof fn lemma_push_linked_block(blocks: Seq<Block>, b: Block)
    requires
        blocks.len() >= 1,
        chain_links_valid(blocks),
        links_to(blocks.last(), b),
    ensures
        chain_links_valid(blocks.push(b)),
{
    let s = blocks.push(b);
    assert forall|i: int| 1 <= i < s.len() implies links_to(#[trigger] s[i - 1], s[i]) by {
        if i < blocks.len() {
            assert(s[i - 1] == blocks[i - 1] && s[i] == blocks[i]);
        } else {
            assert(s[i - 1] == blocks.last() && s[i] == b);
        }
    }
}

fn u32_to_be(x: u32) -> (res: [u8; 4])
    ensures
        res@ == be_u32(x),
{
    let res = [(x >> 24u32) as u8, (x >> 16u32) as u8, (x >> 8u32) as u8, x as u8];
    assert(res@ =~= be_u32(x));
    res
}

fn u64_to_be(x: u64) -> (res: [u8; 8])
    ensures
        res@ == be_u64(x),
{
    let res = [
        (x >> 56u64) as u8,
        (x >> 48u64) as u8,
        (x >> 40u64) as u8,
        (x >> 32u64) as u8,
        (x >> 24u64) as u8,
        (x >> 16u64) as u8,
        (x >> 8u64) as u8,
        x as u8,
    ];
    assert(res@ =~= be_u64(x));
    res
}

fn push_all(buf: &mut Vec<u8>, src: &[u8])
    ensures
        final(buf)@ == old(buf)@ + src@,
{
    let mut i: usize = 0;
    while i < src.len()
        invariant
            0 <= i <= src@.len(),
            buf@ == old(buf)@ + src@.take(i as int),
        decreases src@.len() - i,
    {
        buf.push(src[i]);
        i = i + 1;
        assert(src@.take(i as int) =~= src@.take(i - 1) + seq![src@[i - 1]]);
    }
    assert(src@.take(i as int) =~= src@);
}

impl BlockHeader {
    /// The genesis header.
    pub fn new_genesis() -> (res: Self)
        ensures
            is_genesis_header(res),
    {
        let empty: [u8; 0] = [];
        assert(empty@ =~= Seq::<u8>::empty());
        let res = BlockHeader {
            version: VERSION,
            index: 0,
            previous_hash: [0u8; 32],
            merkle_root: calc_hash(&empty),
            timestamp: 0,
            round: 0,
            proposer_id: 0,
            signature: [0u8; 64],
        };
        assert(res.previous_hash@ =~= Seq::new(32, |i: int| 0u8));
        assert(res.signature@ =~= Seq::new(64, |i: int| 0u8));
        res
    }
}

impl Clone for Block {
    fn clone(&self) -> (res: Self)
        ensures
            res.header == self.header,
            res.transactions@ == self.transactions@,
    {
        let transactions = self.transactions.clone();
        assert(transactions@ =~= self.transactions@);
        Block { header: self.header, transactions }
    }
}

impl Block {
    /// The genesis block made of `genesis_header` and no transactions.
    pub fn new_genesis(genesis_header: BlockHeader) -> (res: Self)
        ensures
            res.header == genesis_header,
            res.transactions@.len() == 0,
    {
        Block { header: genesis_header, transactions: Vec::new() }
    }

    /// An unsigned block (zero signature) over `transactions`, with the
    /// Merkle root computed from them and the given creation time.
    pub fn build_unsigned(
        index: u64,
        previous_hash: Hash32Type,
        transactions: Vec<Transaction>,
        round: u64,
        proposer_id: u32,
        timestamp: u64,
    ) -> (res: Block)
        ensures
            res.header.version == VERSION,
            res.header.index == index,
            res.header.previous_hash == previous_hash,
            res.header.merkle_root@ == merkle_root(transactions@),
            res.header.timestamp == timestamp,
            res.header.round == round,
            res.header.proposer_id == proposer_id,
            res.header.signature@ == Seq::new(64, |i: int| 0u8),
            res.transactions@ == transactions@,
    {
        let merkle_root = calc_merkle_root(transactions.as_slice());
        let header = BlockHeader {
            version: VERSION,
            index,
            previous_hash,
            merkle_root,
            timestamp,
            round,
            proposer_id,
            signature: [0u8; 64],
        };
        assert(header.signature@ =~= Seq::new(64, |i: int| 0u8));
        Block { header, transactions }
    }

    /// Signs the header encoding without signature and stores the signature;
    /// the block is left as it was when the signer holds no key.
    pub fn sign<S: Signer>(&mut self, signer: &S) -> (res: Result<(), SignError>)
        ensures
            res is Ok <==> signer.can_sign(),
            res matches Err(e) ==> e == SignError::NotValidator && *final(self) == *old(self),
            res is Ok ==> final(self).header == (BlockHeader {
                signature: final(self).header.signature,
                ..old(self).header
            }),
            res is Ok ==> final(self).header.signature@ == signer.signature_of(
                header_unsigned_bytes(old(self).header),
            ),
            res is Ok ==> signer.verifies_under_own_key(
                header_unsigned_bytes(old(self).header),
                final(self).header.signature@,
            ),
            final(self).transactions == old(self).transactions,
    {
        let header_data = self.header_wo_signature_to_bytes();
        match signer.sign(header_data.as_slice()) {
            Ok(sig) => {
                self.header.signature = sig;
                Ok(())
            },
            Err(e) => Err(e),
        }
    }

    /// SHA-256 of the full header encoding.
    pub fn hash(&self) -> (res: Hash32Type)
        ensures
            res@ == block_hash(*self),
    {
        let bytes = self.header_to_bytes();
        calc_hash(bytes.as_slice())
    }

    /// The transactions of the block.
    pub fn transactions(&self) -> (res: &[Transaction])
        ensures
            res@ == self.transactions@,
    {
        self.transactions.as_slice()
    }

    /// The full header encoding, signature last.
    fn header_to_bytes(&self) -> (res: Vec<u8>)
        ensures
            res@ == header_bytes(self.header),
            res@.len() == HEADER_CAPACITY_BYTES,
    {
        let mut buf = self.header_wo_signature_to_bytes();
        push_all(&mut buf, &self.header.signature);
        buf
    }

    /// The header encoding without the signature: what a proposer signs.
    pub fn header_wo_signature_to_bytes(&self) -> (res: Vec<u8>)
        ensures
            res@ == header_unsigned_bytes(self.header),
            res@.len() == HEADER_WO_SIGN_CAPACITY_BYTES,
    {
        let h = &self.header;
        let mut buf: Vec<u8> = Vec::with_capacity(HEADER_CAPACITY_BYTES);
        push_all(&mut buf, &u32_to_be(h.version));
        push_all(&mut buf, &u64_to_be(h.index));
        push_all(&mut buf, &h.previous_hash);
        push_all(&mut buf, &h.merkle_root);
        push_all(&mut buf, &u64_to_be(h.timestamp));
        push_all(&mut buf, &u64_to_be(h.round));
        push_all(&mut buf, &u32_to_be(h.proposer_id));
        buf
    }

    /// Checks that `self` may follow `prev`: not a genesis block, the next
    /// index, `prev`'s hash as previous hash, and a matching Merkle root.
    pub fn validate(&self, prev: &Block) -> (res: Result<(), BlockError>)
        requires
            self.header.index != 0 ==> prev.header.index < u64::MAX,
        ensures
            res == block_check(*self, *prev),
    {
        if self.header.index == 0 {
            return Err(BlockError::GenesisNotAllowedHere);
        }
        let expected_index = prev.header.index + 1;
        if self.header.index != expected_index {
            return Err(BlockError::InvalidIndex { expected: expected_index, got: self.header.index });
        }
        let prev_hash = prev.hash();
        if !hash_eq(&self.header.previous_hash, &prev_hash) {
            return Err(BlockError::InvalidPrevHash);
        }
        let expected_merkle = calc_merkle_root(self.transactions.as_slice());
        if !hash_eq(&self.header.merkle_root, &expected_merkle) {
            return Err(BlockError::InvalidMerkleRoot);
        }
        Ok(())
    }
}

/// A chain of blocks that starts with a genesis block and is never empty.
#[derive(Debug)]
pub struct BlockChain {
    chain_id: u64,
    blocks: Vec<Block>,
}

impl View for BlockChain {
    type V = Seq<Block>;

    closed spec fn view(&self) -> Seq<Block> {
        self.blocks@
    }
}

impl BlockChain {
    /// A chain always holds at least its genesis block.
    pub open spec fn wf(&self) -> bool {
        self@.len() >= 1
    }

    /// The identifier the chain was made with.
    pub closed spec fn spec_chain_id(&self) -> u64 {
        self.chain_id
    }

    /// A chain holding only the genesis block.
    pub fn new(chain_id: u64) -> (res: Self)
        ensures
            res@.len() == 1,
            is_genesis_block(res@[0]),
            res.spec_chain_id() == chain_id,
    {
        let genesis_header = BlockHeader::new_genesis();
        let genesis_block = Block::new_genesis(genesis_header);
        let mut blocks: Vec<Block> = Vec::new();
        blocks.push(genesis_block);
        BlockChain { chain_id, blocks }
    }

    /// Appends `block` without checking it.
    pub fn add_block(&mut self, block: Block)
        ensures
            final(self)@ == old(self)@.push(block),
            final(self).spec_chain_id() == old(self).spec_chain_id(),
    {
        self.blocks.push(block);
    }

    /// Every block after genesis names the hash of its predecessor, has the
    /// next index, and has a Merkle root that matches its transactions.
    pub fn is_valid(&self) -> (res: bool)
        ensures
            res == chain_links_valid(self@),
    {
        let n = self.blocks.len();
        let mut i: usize = 1;
        while i < n
            invariant
                n == self.blocks@.len(),
                1 <= i <= n || n == 0,
                forall|j: int| 1 <= j < i ==> links_to(#[trigger] self.blocks@[j - 1], self.blocks@[j]),
            decreases n - i,
        {
            let prev_block = &self.blocks[i - 1];
            let cur_block = &self.blocks[i];
            let prev_hash = prev_block.hash();
            if !hash_eq(&cur_block.header.previous_hash, &prev_hash) {
                assert(!links_to(self.blocks@[i - 1], self.blocks@[i as int]));
                return false;
            }
            if prev_block.header.index == u64::MAX || cur_block.header.index != prev_block.header.index + 1 {
                assert(!links_to(self.blocks@[i - 1], self.blocks@[i as int]));
                return false;
            }
            let expected_merkle = calc_merkle_root(cur_block.transactions.as_slice());
            if !hash_eq(&cur_block.header.merkle_root, &expected_merkle) {
                assert(!links_to(self.blocks@[i - 1], self.blocks@[i as int]));
                return false;
            }
            i = i + 1;
        }
        true
    }

    /// The block at height `index`, if the chain is that long.
    pub fn get_block(&self, index: u64) -> (res: Option<&Block>)
        ensures
            index < self@.len() ==> res == Some(&self@[index as int]),
            index >= self@.len() ==> res is None,
    {
        if (index as u128) < (self.blocks.len() as u128) {
            Some(&self.blocks[index as usize])
        } else {
            None
        }
    }

    /// How many blocks the chain holds.
    pub fn block_count(&self) -> (res: usize)
        ensures
            res == self@.len(),
    {
        self.blocks.len()
    }

    /// The most recent block.
    pub fn last(&self) -> (res: &Block)
        requires
            self.wf(),
        ensures
            *res == self@.last(),
    {
        &self.blocks[self.blocks.len() - 1]
    }

    /// The index of the most recent block.
    pub fn get_height(&self) -> (res: u64)
        requires
            self.wf(),
        ensures
            res == self@.last().header.index,
    {
        self.last().header.index
    }

    /// The round of the most recent block.
    pub fn get_round(&self) -> (res: u64)
        requires
            self.wf(),
        ensures
            res == self@.last().header.round,
    {
        self.last().header.round
    }
}

} // verus!
