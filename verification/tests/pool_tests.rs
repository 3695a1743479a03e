use poa_chain::block::Block;
use poa_chain::crypto::{calc_hash, Hash32Type};
use poa_chain::mempool::{MemPool, MAX_MEMPOOL};
use poa_chain::orphans::{OrphanPool, MAX_ORPHANS_PER_PREV};
use poa_chain::seen::RecentHashes;
use poa_chain::transaction::Transaction;

fn tx(id: u64) -> Transaction {
    Transaction::new(id, 1, 2, format!("payment {id}"))
}

fn ids(v: &[Transaction]) -> Vec<u64> {
    v.iter().map(|t| t.id).collect()
}

fn orphan(prev: Hash32Type, index: u64) -> Block {
    Block::build_unsigned(index, prev, vec![], 0, 0, index)
}

#[test]
fn mempool_push_then_pop_in_arrival_order() {
    let mut pool = MemPool::new();
    for i in 0..5 {
        assert!(pool.push(tx(i)));
    }
    assert_eq!(ids(&pool.pop_many(2)), vec![0, 1]);
    assert_eq!(ids(&pool.pop_many(10)), vec![2, 3, 4]);
    assert!(pool.pop_many(3).is_empty());
}

#[test]
fn mempool_refuses_a_transaction_seen_before() {
    let mut pool = MemPool::new();
    assert!(pool.push(tx(1)));
    assert!(!pool.push(tx(1)));
    // still refused once it has left the queue: its hash is remembered
    assert_eq!(pool.pop_many(1).len(), 1);
    assert!(!pool.push(tx(1)));
    assert!(pool.pop_many(1).is_empty());
}

#[test]
fn mempool_refuses_beyond_its_capacity() {
    let mut pool = MemPool::new();
    for i in 0..MAX_MEMPOOL as u64 {
        assert!(pool.push(tx(i)));
    }
    assert!(!pool.push(tx(MAX_MEMPOOL as u64)));
    assert_eq!(pool.pop_many(1).len(), 1);
    assert!(pool.push(tx(MAX_MEMPOOL as u64)));
}

#[test]
fn mempool_remove_included_keeps_the_rest_in_order() {
    let mut pool = MemPool::new();
    for i in 0..6 {
        pool.push(tx(i));
    }
    pool.remove_included(&[tx(4), tx(1), tx(99)]);
    assert_eq!(ids(&pool.pop_many(10)), vec![0, 2, 3, 5]);
}

#[test]
fn mempool_remove_included_of_nothing_changes_nothing() {
    let mut pool = MemPool::new();
    pool.push(tx(1));
    pool.push(tx(2));
    pool.remove_included(&[]);
    assert_eq!(ids(&pool.pop_many(10)), vec![1, 2]);
}

#[test]
fn recent_hashes_remember_what_was_inserted() {
    let mut seen = RecentHashes::new(3);
    let h = calc_hash(b"a");
    assert!(!seen.contains(&h));
    assert!(seen.insert(h));
    assert!(seen.contains(&h));
    assert!(!seen.insert(h));
}

#[test]
fn recent_hashes_forget_the_oldest_beyond_capacity() {
    let mut seen = RecentHashes::new(2);
    let (a, b, c) = (calc_hash(b"a"), calc_hash(b"b"), calc_hash(b"c"));
    seen.insert(a);
    seen.insert(b);
    seen.insert(c);
    assert!(!seen.contains(&a));
    assert!(seen.contains(&b));
    assert!(seen.contains(&c));
}

#[test]
fn orphans_are_grouped_by_predecessor() {
    let mut pool = OrphanPool::new();
    let (p, q) = ([1u8; 32], [2u8; 32]);
    pool.put(orphan(p, 5));
    pool.put(orphan(q, 7));
    pool.put(orphan(p, 6));
    let i = pool.find(&p).unwrap();
    let indices: Vec<u64> = pool.list_at(i).iter().map(|b| b.header.index).collect();
    assert_eq!(indices, vec![5, 6]);
    assert!(pool.find(&[3u8; 32]).is_none());
    let (key, list) = pool.take(i);
    assert_eq!(key, p);
    assert_eq!(list.len(), 2);
    assert!(pool.find(&p).is_none());
    assert!(pool.find(&q).is_some());
}

#[test]
fn orphan_list_per_predecessor_is_capped() {
    let mut pool = OrphanPool::new();
    let p = [1u8; 32];
    for k in 0..(MAX_ORPHANS_PER_PREV as u64 + 3) {
        pool.put(orphan(p, 10 + k));
    }
    let i = pool.find(&p).unwrap();
    assert_eq!(pool.list_at(i).len(), MAX_ORPHANS_PER_PREV);
    assert_eq!(pool.list_at(i).last().unwrap().header.index, 10 + MAX_ORPHANS_PER_PREV as u64 - 1);
}

#[test]
fn orphan_fill_appends_up_to_the_cap() {
    let mut pool = OrphanPool::new();
    let p = [4u8; 32];
    pool.put(orphan(p, 1));
    let extra: Vec<Block> = (0..MAX_ORPHANS_PER_PREV as u64).map(|k| orphan(p, 100 + k)).collect();
    pool.fill(p, extra);
    let i = pool.find(&p).unwrap();
    let list = pool.list_at(i);
    assert_eq!(list.len(), MAX_ORPHANS_PER_PREV);
    assert_eq!(list[0].header.index, 1);
    assert_eq!(list[1].header.index, 100);
    let q = [5u8; 32];
    pool.fill(q, vec![orphan(q, 9)]);
    let j = pool.find(&q).unwrap();
    assert_eq!(pool.list_at(j).len(), 1);
    pool.note_connected();
}
