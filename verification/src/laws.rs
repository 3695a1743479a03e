use vstd::prelude::*;
use crate::block::{
    be_u32, be_u64, block_check, chain_links_valid, header_bytes, header_unsigned_bytes, Block,
    BlockHeader,
};
use crate::cli::{hex32_parse, hex_encode};
use crate::crypto::{merkle_root, sha256};
use crate::poa::{consensus_check, expected_proposer_of, proposer_index, Validator};
use crate::seen::remember;
use crate::signing::Verifier;
use crate::transaction::{tx_hash, Transaction};
use crate::message::MessageView;
use crate::node::Node;

verus! {

/// A chain of one block is valid.
pub proof fn law_single_block_chain_is_valid(b: Block)
    ensures
        chain_links_valid(seq![b]),
{
}

/// Appending a block that `Block::validate` accepts after the last block
/// keeps a valid chain valid.
pub proof fn law_validated_append_keeps_chain_valid(blocks: Seq<Block>, b: Block)
    requires
        blocks.len() >= 1,
        chain_links_valid(blocks),
        block_check(b, blocks.last()) is Ok,
    ensures
        chain_links_valid(blocks.push(b)),
{
    crate::block::lemma_push_linked_block(blocks, b);
}

/// Consensus accepts a block only when `Block::validate` does, the proposer
/// id is the expected one, and the verifier accepts the signature of the
/// expected proposer over the header without signature.
pub proof fn law_consensus_refines_block_check<V: Verifier>(
    vs: Seq<Validator>,
    verifier: V,
    prev: Block,
    cur: Block,
)
    requires
        consensus_check(vs, verifier, prev, cur) is Ok,
    ensures
        block_check(cur, prev) is Ok,
        cur.header.proposer_id == expected_proposer_of(vs, cur.header.index, cur.header.round).0,
        verifier.accepts(
            expected_proposer_of(vs, cur.header.index, cur.header.round).1.pubkey@,
            header_unsigned_bytes(cur.header),
            cur.header.signature@,
        ),
{
}

/// Moving one round on at a height gives the proposer of the next height at
/// the same round, which is the next validator in the list.
pub proof fn law_proposers_rotate(n: int, height: int, round: int)
    requires
        n > 0,
        height >= 1,
        round >= 0,
    ensures
        proposer_index(n, height, round + 1) == proposer_index(n, height + 1, round),
        proposer_index(n, height + 1, round) == (proposer_index(n, height, round) + 1) % n,
        0 <= proposer_index(n, height, round) < n,
{
    let x = height - 1 + round;
    vstd::arithmetic::div_mod::lemma_add_mod_noop(x, 1, n);
    vstd::arithmetic::div_mod::lemma_add_mod_noop_right(x % n, 1, n);
    vstd::arithmetic::div_mod::lemma_mod_bound(x, n);
    assert(height + 1 - 1 + round == x + 1);
    assert(height - 1 + (round + 1) == x + 1);
}

/// At every height, each validator is the proposer of one of the first `n`
/// rounds.
pub proof fn law_every_validator_gets_a_turn(n: int, height: int, k: int)
    requires
        n > 0,
        height >= 1,
        0 <= k < n,
    ensures
        exists|r: int| 0 <= r < n && proposer_index(n, height, r) == k,
{
    let base = (height - 1) % n;
    let q = (height - 1) / n;
    let r = (k - base + n) % n;
    vstd::arithmetic::div_mod::lemma_mod_bound(height - 1, n);
    vstd::arithmetic::div_mod::lemma_mod_bound(k - base + n, n);
    vstd::arithmetic::div_mod::lemma_fundamental_div_mod(height - 1, n);
    vstd::arithmetic::div_mod::lemma_add_mod_noop_right(height - 1, k - base + n, n);
    assert(height - 1 + (k - base + n) == n * (q + 1) + k) by (nonlinear_arith)
        requires
            height - 1 == n * q + base,
    ;
    vstd::arithmetic::div_mod::lemma_mod_multiples_vanish(q + 1, k, n);
    vstd::arithmetic::div_mod::lemma_small_mod(k as nat, n as nat);
    assert(proposer_index(n, height, r) == k);
}

/// Once a hash is recorded it is remembered, and no more than `capacity`
/// hashes are ever remembered.
pub proof fn law_recorded_hash_is_remembered(seen: Seq<Seq<u8>>, h: Seq<u8>, capacity: nat)
    requires
        capacity >= 1,
        seen.len() <= capacity,
    ensures
        remember(seen, h, capacity).contains(h),
        remember(seen, h, capacity).len() <= capacity,
{
    let r = remember(seen, h, capacity);
    assert(r[r.len() - 1] == h);
}

/// The Merkle root of a single transaction is its hash.
pub proof fn law_merkle_root_of_one(t: Transaction)
    ensures
        merkle_root(seq![t]) == tx_hash(t),
{
    let leaves = seq![t].map_values(|x: Transaction| tx_hash(x));
    assert(leaves =~= seq![tx_hash(t)]);
}

/// The signed bytes are the header encoding without its last 64 bytes, so
/// the signature never covers itself.
pub proof fn law_signed_bytes_prefix_header(h: BlockHeader)
    ensures
        header_unsigned_bytes(h).len() == 96,
        header_bytes(h).len() == 160,
        header_bytes(h).take(96) == header_unsigned_bytes(h),
        forall|s: [u8; 64]|
            header_unsigned_bytes(BlockHeader { signature: s, ..h }) == header_unsigned_bytes(h),
{
    assert(header_bytes(h).take(96) =~= header_unsigned_bytes(h));
}

proof fn lemma_be_u32_injective(x: u32, y: u32)
    requires
        be_u32(x) == be_u32(y),
    ensures
        x == y,
{
    assert(be_u32(x)[0] == be_u32(y)[0]);
    assert(be_u32(x)[1] == be_u32(y)[1]);
    assert(be_u32(x)[2] == be_u32(y)[2]);
    assert(be_u32(x)[3] == be_u32(y)[3]);
    assert(x == y) by (bit_vector)
        requires
            (x >> 24u32) as u8 == (y >> 24u32) as u8,
            (x >> 16u32) as u8 == (y >> 16u32) as u8,
            (x >> 8u32) as u8 == (y >> 8u32) as u8,
            x as u8 == y as u8,
    ;
}

proof fn lemma_be_u64_injective(x: u64, y: u64)
    requires
        be_u64(x) == be_u64(y),
    ensures
        x == y,
{
    assert(be_u64(x)[0] == be_u64(y)[0]);
    assert(be_u64(x)[1] == be_u64(y)[1]);
    assert(be_u64(x)[2] == be_u64(y)[2]);
    assert(be_u64(x)[3] == be_u64(y)[3]);
    assert(be_u64(x)[4] == be_u64(y)[4]);
    assert(be_u64(x)[5] == be_u64(y)[5]);
    assert(be_u64(x)[6] == be_u64(y)[6]);
    assert(be_u64(x)[7] == be_u64(y)[7]);
    assert(x == y) by (bit_vector)
        requires
            (x >> 56u64) as u8 == (y >> 56u64) as u8,
            (x >> 48u64) as u8 == (y >> 48u64) as u8,
            (x >> 40u64) as u8 == (y >> 40u64) as u8,
            (x >> 32u64) as u8 == (y >> 32u64) as u8,
            (x >> 24u64) as u8 == (y >> 24u64) as u8,
            (x >> 16u64) as u8 == (y >> 16u64) as u8,
            (x >> 8u64) as u8 == (y >> 8u64) as u8,
            x as u8 == y as u8,
    ;
}

/// The header encoding is one-to-one: two headers with the same bytes are
/// the same header, so the block hash commits to every header field.
pub proof fn law_header_encoding_injective(h1: BlockHeader, h2: BlockHeader)
    requires
        header_bytes(h1) == header_bytes(h2),
    ensures
        h1 == h2,
{
    let b1 = header_bytes(h1);
    let b2 = header_bytes(h2);
    assert(b1.subrange(0, 4) =~= be_u32(h1.version));
    assert(b2.subrange(0, 4) =~= be_u32(h2.version));
    lemma_be_u32_injective(h1.version, h2.version);
    assert(b1.subrange(4, 12) =~= be_u64(h1.index));
    assert(b2.subrange(4, 12) =~= be_u64(h2.index));
    lemma_be_u64_injective(h1.index, h2.index);
    assert(b1.subrange(12, 44) =~= h1.previous_hash@);
    assert(b2.subrange(12, 44) =~= h2.previous_hash@);
    assert(h1.previous_hash =~= h2.previous_hash);
    assert(b1.subrange(44, 76) =~= h1.merkle_root@);
    assert(b2.subrange(44, 76) =~= h2.merkle_root@);
    assert(h1.merkle_root =~= h2.merkle_root);
    assert(b1.subrange(76, 84) =~= be_u64(h1.timestamp));
    assert(b2.subrange(76, 84) =~= be_u64(h2.timestamp));
    lemma_be_u64_injective(h1.timestamp, h2.timestamp);
    assert(b1.subrange(84, 92) =~= be_u64(h1.round));
    assert(b2.subrange(84, 92) =~= be_u64(h2.round));
    lemma_be_u64_injective(h1.round, h2.round);
    assert(b1.subrange(92, 96) =~= be_u32(h1.proposer_id));
    assert(b2.subrange(92, 96) =~= be_u32(h2.proposer_id));
    lemma_be_u32_injective(h1.proposer_id, h2.proposer_id);
    assert(b1.subrange(96, 160) =~= h1.signature@);
    assert(b2.subrange(96, 160) =~= h2.signature@);
    assert(h1.signature =~= h2.signature);
}


proof fn lemma_hex_char_byte(v: nat)
    requires
        v < 16,
    ensures
        crate::cli::is_hex_byte(crate::cli::hex_char(v) as u8),
        crate::cli::hex_value(crate::cli::hex_char(v) as u8) == v,
        crate::cli::hex_char(v) as u32 <= 0x7f,
{
}

/// Hex text made by `bytes_to_hex` from 32 bytes is read back by
/// `hex_to_32` as those bytes: a printed seed or key can be given back on the
/// command line.
pub proof fn law_hex_roundtrip(b: Seq<u8>)
    requires
        b.len() == 32,
    ensures
        hex32_parse(hex_encode(b)) == Some(b),
{
    let chars = hex_encode(b);
    assert forall|i: int| 0 <= i < chars.len() implies '\0' <= #[trigger] chars[i] <= '\u{7f}' by {
        if i % 2 == 0 {
            lemma_hex_char_byte((b[i / 2] / 16) as nat);
        } else {
            lemma_hex_char_byte((b[i / 2] % 16) as nat);
        }
    }
    vstd::utf8::is_ascii_chars_encode_utf8(chars);
    let bs = vstd::utf8::encode_utf8(chars);
    assert forall|i: int| 0 <= i < bs.len() implies crate::cli::is_hex_byte(#[trigger] bs[i]) by {
        if i % 2 == 0 {
            lemma_hex_char_byte((b[i / 2] / 16) as nat);
        } else {
            lemma_hex_char_byte((b[i / 2] % 16) as nat);
        }
    }
    assert(crate::cli::hex_decode(bs) =~= b) by {
        assert forall|k: int| 0 <= k < 32 implies #[trigger] crate::cli::hex_decode(bs)[k] == b[k] by {
            lemma_hex_char_byte((b[k] / 16) as nat);
            lemma_hex_char_byte((b[k] % 16) as nat);
            assert((2 * k) / 2 == k);
            assert((2 * k + 1) / 2 == k);
            assert(bs[2 * k] == chars[2 * k] as u8);
            assert(bs[2 * k + 1] == chars[2 * k + 1] as u8);
        }
    }
}

/// The length prefix of a frame reads back as the payload length.
pub proof fn law_frame_length_roundtrip(len: u32)
    ensures
        be_u32(len)[0] * 0x1000000 + be_u32(len)[1] * 0x10000 + be_u32(len)[2] * 0x100 + be_u32(
            len,
        )[3] == len,
{
    assert(((len >> 24u32) as u8) * 0x1000000 + ((len >> 16u32) as u8) * 0x10000 + ((len
        >> 8u32) as u8) * 0x100 + (len as u8) == len) by (bit_vector);
}

/// Two headers have the same encoding exactly when they agree on all eight
/// fields; the transactions of a block play no part in it.
pub proof fn law_header_bytes_iff_same_header(h1: BlockHeader, h2: BlockHeader)
    ensures
        header_bytes(h1) == header_bytes(h2) <==> h1 == h2,
{
    if header_bytes(h1) == header_bytes(h2) {
        law_header_encoding_injective(h1, h2);
    }
}

/// A chain that starts with the genesis block and grows only by blocks that
/// `Block::validate` accepts after the last one is valid, and the block at
/// each position has that position as its index.
pub proof fn law_validated_chain(blocks: Seq<Block>)
    requires
        blocks.len() >= 1,
        crate::block::is_genesis_block(blocks[0]),
        forall|i: int| 1 <= i < blocks.len() ==> #[trigger] block_check(blocks[i], blocks[i - 1]) is Ok,
    ensures
        chain_links_valid(blocks),
        forall|i: int| 0 <= i < blocks.len() ==> #[trigger] blocks[i].header.index == i,
    decreases blocks.len(),
{
    if blocks.len() > 1 {
        let init = blocks.drop_last();
        assert forall|i: int| 1 <= i < init.len() implies #[trigger] block_check(init[i], init[i - 1]) is Ok by {
            assert(block_check(blocks[i], blocks[i - 1]) is Ok);
        }
        law_validated_chain(init);
        let n = blocks.len() - 1;
        assert(block_check(blocks[n], blocks[n - 1]) is Ok);
        assert(init[n - 1] == blocks[n - 1]);
        assert(blocks =~= init.push(blocks[n]));
        crate::block::lemma_push_linked_block(init, blocks[n]);
        assert forall|i: int| 0 <= i < blocks.len() implies #[trigger] blocks[i].header.index == i by {
            if i < n {
                assert(init[i] == blocks[i]);
                assert(init[i].header.index == i);
            }
        }
    }
}

/// The lowercase form of an ASCII letter `A`..`F`; other bytes stay.
pub open spec fn ascii_hex_lower(b: u8) -> char {
    if 0x41 <= b <= 0x46 {
        ((b + 0x20) as u8) as char
    } else {
        b as char
    }
}

proof fn lemma_hex_char_of_value(x: u8)
    requires
        crate::cli::is_hex_byte(x),
    ensures
        crate::cli::hex_char(crate::cli::hex_value(x) as nat) == ascii_hex_lower(x),
{
    if 0x30 <= x <= 0x39 {
        assert(crate::cli::hex_value(x) == x - 0x30);
        let v = (x - 0x30) as nat;
        assert(crate::text::digit_char(v) == (x as char)) by {
            if v == 0 {
            } else if v == 1 {
            } else if v == 2 {
            } else if v == 3 {
            } else if v == 4 {
            } else if v == 5 {
            } else if v == 6 {
            } else if v == 7 {
            } else if v == 8 {
            } else {
            }
        }
    }
}

/// Reading 64 hexadecimal digits with `hex_to_32` and printing the bytes with
/// `bytes_to_hex` gives back the digits, with `A`..`F` in lowercase.
pub proof fn law_hex_parse_then_print(bs: Seq<u8>)
    requires
        bs.len() == 64,
        crate::cli::all_hex(bs),
    ensures
        hex_encode(crate::cli::hex_decode(bs)) == bs.map_values(|b: u8| ascii_hex_lower(b)),
{
    let d = crate::cli::hex_decode(bs);
    assert forall|i: int| 0 <= i < 64 implies #[trigger] hex_encode(d)[i] == ascii_hex_lower(bs[i]) by {
        let k = i / 2;
        let hi = crate::cli::hex_value(bs[2 * k]);
        let lo = crate::cli::hex_value(bs[2 * k + 1]);
        assert(crate::cli::is_hex_byte(bs[2 * k]));
        assert(crate::cli::is_hex_byte(bs[2 * k + 1]));
        assert(hi < 16 && lo < 16);
        assert(d[k] == (hi * 16 + lo) as u8);
        assert((hi * 16 + lo) / 16 == hi && (hi * 16 + lo) % 16 == lo) by (nonlinear_arith)
            requires
                hi < 16,
                lo < 16,
        ;
        lemma_hex_char_of_value(bs[2 * k]);
        lemma_hex_char_of_value(bs[2 * k + 1]);
        if i % 2 == 0 {
            assert(i == 2 * k);
        } else {
            assert(i == 2 * k + 1);
        }
    }
    assert(hex_encode(d) =~= bs.map_values(|b: u8| ascii_hex_lower(b)));
}

/// Every node of a Merkle level is the hash of its left child followed by
/// its right child, at every position; a last node without a right
/// neighbour is hashed with itself; the level above has half as many nodes,
/// rounded up.
pub proof fn law_merkle_level_pairs(hs: Seq<Seq<u8>>)
    ensures
        crate::crypto::merkle_parent_level(hs).len() == (hs.len() + 1) / 2,
        forall|i: int|
            0 <= i && 2 * i + 1 < hs.len() ==> #[trigger] crate::crypto::merkle_parent_level(hs)[i]
                == sha256(hs[2 * i] + hs[2 * i + 1]),
        hs.len() % 2 == 1 ==> crate::crypto::merkle_parent_level(hs)[(hs.len() - 1) / 2] == sha256(
            hs[hs.len() - 1] + hs[hs.len() - 1],
        ),
{
}

/// The Merkle root of two, three and four transactions, written out.
pub proof fn law_merkle_root_small(a: Transaction, b: Transaction, c: Transaction, d: Transaction)
    ensures
        merkle_root(seq![a, b]) == sha256(tx_hash(a) + tx_hash(b)),
        merkle_root(seq![a, b, c]) == sha256(
            sha256(tx_hash(a) + tx_hash(b)) + sha256(tx_hash(c) + tx_hash(c)),
        ),
        merkle_root(seq![a, b, c, d]) == sha256(
            sha256(tx_hash(a) + tx_hash(b)) + sha256(tx_hash(c) + tx_hash(d)),
        ),
{
    let (ha, hb, hc, hd) = (tx_hash(a), tx_hash(b), tx_hash(c), tx_hash(d));
    let l2 = seq![a, b].map_values(|t: Transaction| tx_hash(t));
    assert(l2 =~= seq![ha, hb]);
    let p2 = crate::crypto::merkle_parent_level(l2);
    assert(p2 =~= seq![sha256(ha + hb)]);
    assert(crate::crypto::merkle_fold(p2) == sha256(ha + hb));
    let l3 = seq![a, b, c].map_values(|t: Transaction| tx_hash(t));
    assert(l3 =~= seq![ha, hb, hc]);
    let p3 = crate::crypto::merkle_parent_level(l3);
    assert(p3 =~= seq![sha256(ha + hb), sha256(hc + hc)]);
    let q3 = crate::crypto::merkle_parent_level(p3);
    assert(q3 =~= seq![sha256(sha256(ha + hb) + sha256(hc + hc))]);
    assert(crate::crypto::merkle_fold(q3) == q3[0]);
    assert(crate::crypto::merkle_fold(p3) == crate::crypto::merkle_fold(q3));
    let l4 = seq![a, b, c, d].map_values(|t: Transaction| tx_hash(t));
    assert(l4 =~= seq![ha, hb, hc, hd]);
    let p4 = crate::crypto::merkle_parent_level(l4);
    assert(p4 =~= seq![sha256(ha + hb), sha256(hc + hd)]);
    let q4 = crate::crypto::merkle_parent_level(p4);
    assert(q4 =~= seq![sha256(sha256(ha + hb) + sha256(hc + hd))]);
    assert(crate::crypto::merkle_fold(q4) == q4[0]);
    assert(crate::crypto::merkle_fold(p4) == crate::crypto::merkle_fold(q4));
}

/// While syncing from peer `p`, a batch from `p` of exactly the sync limit
/// keeps the node syncing from `p` and asks `p` for the next batch, from the
/// height after its last block; a shorter batch ends the sync and asks for
/// nothing.
pub proof fn law_full_batch_asks_for_the_next<V: Verifier>(
    new: Node<V>,
    old: Node<V>,
    p: u32,
    got: u32,
)
    requires
        old.syncing(),
        old.sync_peer() == Some(p),
        old.peer_ids().contains(p),
        old.blocks().last().header.index < u64::MAX,
        new.paged(&old, p, got),
        new.sent() == old.sent() + old.page_request(p, got),
    ensures
        got == old.sync_limit_value() ==> {
            &&& new.syncing()
            &&& new.sync_peer() == Some(p)
            &&& new.sync_next_height() == old.blocks().last().header.index + 1
            &&& new.sent() == old.sent().push(
                (
                    p,
                    MessageView::GetBlocks {
                        start: (old.blocks().last().header.index + 1) as u64,
                        limit: old.sync_limit_value(),
                    },
                ),
            )
        },
        got != old.sync_limit_value() ==> !new.syncing() && new.sync_peer() is None && new.sent()
            == old.sent(),
{
    assert(old.sent() + Seq::<(u32, MessageView)>::empty() =~= old.sent());
}

/// A node that is syncing does nothing on a tick, whatever the clock says:
/// its chain, pool and seen blocks stay, and it sends nothing.
pub proof fn law_syncing_tick_does_nothing<V: Verifier>(
    new: Node<V>,
    old: Node<V>,
    slot_elapsed_ms: u128,
    round_elapsed_ms: u128,
    now_secs: Option<u64>,
    now: std::time::Instant,
)
    requires
        old.syncing(),
        new.tick_outcome(&old, slot_elapsed_ms, round_elapsed_ms, now_secs, now),
    ensures
        new.blocks() == old.blocks(),
        new.pool() == old.pool(),
        new.seen_blocks() == old.seen_blocks(),
        new.height() == old.height(),
        new.round() == old.round(),
        new.sent() == old.sent(),
{
}

/// A new block whose index is the next height but whose previous hash is not
/// the hash of the last block is not appended: it is held under the hash it
/// names, and, when a peer is known, the node syncs from the next height,
/// asking a known peer for blocks unless that very sync was under way.
pub proof fn law_next_block_on_another_branch_is_held<V: Verifier>(
    new: Node<V>,
    old: Node<V>,
    block: Block,
    now: std::time::Instant,
)
    requires
        !old.seen_blocks().contains(crate::block::block_hash(block)),
        old.blocks().last().header.index < u64::MAX,
        block.header.index == old.blocks().last().header.index + 1,
        block.header.previous_hash@ != crate::block::block_hash(old.blocks().last()),
        new.incoming_outcome(&old, block, now),
    ensures
        new.blocks() == old.blocks(),
        (new.orphan_entries(), new.orphans_total()) == crate::orphans::put_result(
            old.orphan_entries(),
            old.orphans_total(),
            block,
        ),
        !old.peer_ids().is_empty() ==> {
            let h = (old.blocks().last().header.index + 1) as u64;
            &&& new.syncing()
            &&& new.sync_next_height() == h
            &&& new.sync_peer() matches Some(q) && old.peer_ids().contains(q) && (!(old.syncing()
                && old.sync_peer() == Some(q) && old.sync_next_height() == h) ==> new.sent()
                == old.sent().push(
                (q, MessageView::GetBlocks { start: h, limit: old.sync_limit_value() }),
            ))
        },
        old.peer_ids().is_empty() ==> new.sent() == old.sent(),
{
    assert(block_check(block, old.blocks().last()) is Err);
    if !old.peer_ids().is_empty() {
        let q = new.sync_peer()->0;
        let h = (old.blocks().last().header.index + 1) as u64;
        if !(old.syncing() && old.sync_peer() == Some(q) && old.sync_next_height() == h) {
            assert(old.sent() + seq![(q, MessageView::GetBlocks { start: h, limit: old.sync_limit_value() })]
                =~= old.sent().push((q, MessageView::GetBlocks { start: h, limit: old.sync_limit_value() })));
        }
    }
}

} // verus!
