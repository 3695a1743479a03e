use vstd::prelude::*;
use sha2::Digest;
use crate::transaction::{tx_hash, Transaction};

verus! {

/// A SHA-256 digest.
pub type Hash32Type = [u8; 32];

/// A 64-byte Ed25519 signature.
pub type SignatureType = [u8; 64];

/// A 32-byte Ed25519 public key.
pub type PubkeyType = [u8; 32];

/// Byte-wise equality of two 32-byte values.
pub fn hash_eq(a: &[u8; 32], b: &[u8; 32]) -> (res: bool)
    ensures
        res == (a@ == b@),
{
    let mut i: usize = 0;
    while i < 32
        invariant
            0 <= i <= 32,
            forall|j: int| 0 <= j < i ==> a@[j] == b@[j],
        decreases 32 - i,
    {
        if a[i] != b[i] {
            return false;
        }
        i = i + 1;
    }
    assert(a@ =~= b@);
    true
}

/// SHA-256 of a byte string, as the `sha2` crate computes it.
pub uninterp spec fn sha256(data: Seq<u8>) -> Seq<u8>;

/// Hashes `bytes` with `sha2::Sha256::digest`.
/// Trusted: the digest equals `sha256` of the input bytes.
#[verifier::external_body]
pub fn calc_hash(bytes: &[u8]) -> (res: Hash32Type)
    ensures
        res@ == sha256(bytes@),
{
    sha2::Sha256::digest(bytes).into()
}

/// Hash of the concatenation of two digests: the inner node of a Merkle tree.
pub fn hash_pair(left: Hash32Type, right: Hash32Type) -> (res: Hash32Type)
    ensures
        res@ == sha256(left@ + right@),
{
    let mut buf = [0u8; 64];
    let mut i: usize = 0;
    while i < 32
        invariant
            0 <= i <= 32,
            forall|j: int| 0 <= j < i ==> buf@[j] == left@[j],
            forall|j: int| 32 <= j < 32 + i ==> buf@[j] == right@[j - 32],
        decreases 32 - i,
    {
        buf[i] = left[i];
        buf[i + 32] = right[i];
        i = i + 1;
    }
    assert(buf@ =~= left@ + right@);
    calc_hash(&buf)
}


/// The digests of a sequence of fixed-size hashes, as byte sequences.
pub open spec fn hash_views(hs: Seq<Hash32Type>) -> Seq<Seq<u8>> {
    hs.map_values(|h: Hash32Type| h@)
}

/// One level up a Merkle tree: neighbours are hashed in pairs, and a last
/// node without a neighbour is paired with itself.
pub open spec fn merkle_parent_level(hs: Seq<Seq<u8>>) -> Seq<Seq<u8>> {
    Seq::new(
        ((hs.len() + 1) / 2) as nat,
        |i: int|
            sha256(
                hs[2 * i] + (if 2 * i + 1 < hs.len() {
                    hs[2 * i + 1]
                } else {
                    hs[2 * i]
                }),
            ),
    )
}

/// The root of the Merkle tree whose leaves are `hs` (at least one leaf).
pub open spec fn merkle_fold(hs: Seq<Seq<u8>>) -> Seq<u8>
    decreases hs.len(),
{
    if hs.len() <= 1 {
        hs[0]
    } else {
        merkle_fold(merkle_parent_level(hs))
    }
}

/// The Merkle root of a list of transactions: the hash of the empty string
/// when there is none, else the root of the tree over the transaction hashes.
pub open spec fn merkle_root(txs: Seq<Transaction>) -> Seq<u8> {
    if txs.len() == 0 {
        sha256(Seq::empty())
    } else {
        merkle_fold(txs.map_values(|t: Transaction| tx_hash(t)))
    }
}

/// Hashes a non-empty level in pairs, the last node paired with itself when
/// the level is odd.
fn merkle_level(level: &Vec<Hash32Type>) -> (res: Vec<Hash32Type>)
    requires
        level.len() >= 2,
    ensures
        hash_views(res@) == merkle_parent_level(hash_views(level@)),
        res.len() < level.len(),
        res.len() >= 1,
{
    let n = level.len();
    let pairs = n / 2 + n % 2;
    let mut out: Vec<Hash32Type> = Vec::new();
    let mut k: usize = 0;
    while k < pairs
        invariant
            n == level.len(),
            n >= 2,
            pairs == (n + 1) / 2,
            0 <= k <= pairs,
            out.len() == k,
            forall|i: int|
                0 <= i < k ==> #[trigger] out@[i]@ == merkle_parent_level(hash_views(level@))[i],
        decreases pairs - k,
    {
        let left = level[2 * k];
        let right = if 2 * k + 1 < n {
            level[2 * k + 1]
        } else {
            level[2 * k]
        };
        let h = hash_pair(left, right);
        out.push(h);
        k = k + 1;
    }
    assert(hash_views(out@) =~= merkle_parent_level(hash_views(level@)));
    out
}

/// Merkle root of the transactions of a block.
pub fn calc_merkle_root(transactions: &[Transaction]) -> (res: Hash32Type)
    ensures
        res@ == merkle_root(transactions@),
{
    let len = transactions.len();
    if len == 0 {
        let empty: [u8; 0] = [];
        assert(empty@ =~= Seq::<u8>::empty());
        return calc_hash(&empty);
    }
    let ghost leaves = transactions@.map_values(|t: Transaction| tx_hash(t));
    let mut result: Vec<Hash32Type> = Vec::new();
    let mut i: usize = 0;
    while i < len
        invariant
            len == transactions@.len(),
            0 <= i <= len,
            result.len() == i,
            leaves == transactions@.map_values(|t: Transaction| tx_hash(t)),
            forall|j: int| 0 <= j < i ==> #[trigger] result@[j]@ == leaves[j],
        decreases len - i,
    {
        let h = transactions[i].hash();
        result.push(h);
        i = i + 1;
    }
    assert(hash_views(result@) =~= leaves);
    while result.len() > 1
        invariant
            result.len() >= 1,
            merkle_fold(hash_views(result@)) == merkle_fold(leaves),
        decreases result.len(),
    {
        result = merkle_level(&result);
    }
    assert(hash_views(result@).len() == 1);
    result[0]
}

} // verus!
