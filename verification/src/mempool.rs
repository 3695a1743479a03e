use vstd::prelude::*;
use std::collections::VecDeque;
use crate::crypto::{hash_eq, hash_views, Hash32Type};
use crate::seen::{remember, RecentHashes};
use crate::transaction::{tx_hash, Transaction};

verus! {

/// Most transactions the pool holds.
pub const MAX_MEMPOOL: usize = 10_000;

/// Most transaction hashes the pool remembers as seen.
pub const MAX_SEEN: usize = 50_000;

/// The transactions of `q`, in order, whose hash is not among `hashes`.
pub open spec fn without_hashes(q: Seq<Transaction>, hashes: Seq<Seq<u8>>) -> Seq<Transaction>
    decreases q.len(),
{
    if q.len() == 0 {
        q
    } else {
        let rest = without_hashes(q.drop_last(), hashes);
        if hashes.contains(tx_hash(q.last())) {
            rest
        } else {
            rest.push(q.last())
        }
    }
}

/// Transactions waiting to go into a block, in arrival order, together with
/// the hashes of the most recently accepted transactions, which the pool
/// refuses to take again.
#[derive(Debug)]
pub struct MemPool {
    queue: VecDeque<Transaction>,
    seen: RecentHashes,
}

impl MemPool {
    /// The waiting transactions, oldest first.
    pub closed spec fn queue(&self) -> Seq<Transaction> {
        self.queue@
    }

    /// The remembered hashes, oldest first.
    pub closed spec fn seen(&self) -> Seq<Seq<u8>> {
        self.seen.hashes()
    }

    /// The bounds of the pool hold and no hash is remembered twice.
    pub closed spec fn wf(&self) -> bool {
        &&& self.queue().len() <= MAX_MEMPOOL
        &&& self.seen.wf()
        &&& self.seen.capacity() == MAX_SEEN
    }

    /// A pool within bounds holds at most `MAX_MEMPOOL` transactions and
    /// remembers at most `MAX_SEEN` hashes, none of them twice.
    pub proof fn lemma_bounded(&self)
        requires
            self.wf(),
        ensures
            self.queue().len() <= MAX_MEMPOOL,
            self.seen().len() <= MAX_SEEN,
            self.seen().no_duplicates(),
    {
    }

    pub fn new() -> (res: Self)
        ensures
            res.wf(),
            res.queue() == Seq::<Transaction>::empty(),
            res.seen() == Seq::<Seq<u8>>::empty(),
    {
        MemPool { queue: VecDeque::new(), seen: RecentHashes::new(MAX_SEEN) }
    }

    /// Takes `transaction` unless the pool is full or its hash is remembered;
    /// a taken transaction's hash is remembered, the oldest hash forgotten
    /// beyond `MAX_SEEN`.
    pub fn push(&mut self, transaction: Transaction) -> (res: bool)
        requires
            old(self).wf(),
        ensures
            final(self).wf(),
            res == (old(self).queue().len() < MAX_MEMPOOL && !old(self).seen().contains(
                tx_hash(transaction),
            )),
            res ==> final(self).queue() == old(self).queue().push(transaction),
            res ==> final(self).seen() == remember(old(self).seen(), tx_hash(transaction), MAX_SEEN as nat),
            !res ==> final(self).queue() == old(self).queue() && final(self).seen() == old(
                self,
            ).seen(),
    {
        if self.queue.len() >= MAX_MEMPOOL {
            return false;
        }
        let transaction_hash = transaction.hash();
        if !self.seen.insert(transaction_hash) {
            return false;
        }
        self.queue.push_back(transaction);
        true
    }

    /// Removes and returns the `count` oldest transactions (all when fewer).
    pub fn pop_many(&mut self, count: usize) -> (res: Vec<Transaction>)
        requires
            old(self).wf(),
        ensures
            final(self).wf(),
            res@ == old(self).queue().take(vstd::math::min(count as int, old(self).queue().len() as int)),
            final(self).queue() == old(self).queue().skip(vstd::math::min(count as int, old(self).queue().len() as int)),
            final(self).seen() == old(self).seen(),
    {
        let n = if count < self.queue.len() {
            count
        } else {
            self.queue.len()
        };
        let ghost q0 = self.queue@;
        let mut out: Vec<Transaction> = Vec::new();
        let mut i: usize = 0;
        while i < n
            invariant
                n <= q0.len(),
                0 <= i <= n,
                out@ == q0.take(i as int),
                self.queue@ == q0.skip(i as int),
                self.seen == old(self).seen,
            decreases n - i,
        {
            match self.queue.pop_front() {
                Some(tx) => {
                    out.push(tx);
                },
                None => {},
            }
            assert(q0.take(i + 1) =~= q0.take(i as int).push(q0[i as int]));
            assert(q0.skip(i + 1) =~= q0.skip(i as int).subrange(1, q0.skip(i as int).len() as int));
            i = i + 1;
        }
        out
    }

    /// Drops from the queue every transaction whose hash equals the hash of
    /// one of `included`, keeping the order of the rest.
    pub fn remove_included(&mut self, included: &[Transaction])
        requires
            old(self).wf(),
        ensures
            final(self).wf(),
            final(self).queue() == without_hashes(
                old(self).queue(),
                included@.map_values(|t: Transaction| tx_hash(t)),
            ),
            final(self).seen() == old(self).seen(),
    {
        let ghost hs = included@.map_values(|t: Transaction| tx_hash(t));
        let ghost q0 = self.queue@;
        if included.len() == 0 || self.queue.len() == 0 {
            proof {
                lemma_without_hashes_trivial(q0, hs);
            }
            return;
        }
        let mut included_hashes: Vec<Hash32Type> = Vec::new();
        let mut i: usize = 0;
        while i < included.len()
            invariant
                0 <= i <= included@.len(),
                hs == included@.map_values(|t: Transaction| tx_hash(t)),
                hash_views(included_hashes@) == hs.take(i as int),
            decreases included@.len() - i,
        {
            let h = included[i].hash();
            let ghost before = included_hashes@;
            included_hashes.push(h);
            assert(hs[i as int] == h@);
            assert(hash_views(included_hashes@) =~= hash_views(before).push(h@));
            assert(hs.take(i + 1) =~= hs.take(i as int).push(hs[i as int]));
            i = i + 1;
        }
        assert(hs.take(included@.len() as int) =~= hs);
        let mut new_q: VecDeque<Transaction> = VecDeque::new();
        let n = self.queue.len();
        let mut k: usize = 0;
        while k < n
            invariant
                n == q0.len(),
                0 <= k <= n,
                hash_views(included_hashes@) == hs,
                self.queue@ == q0.skip(k as int),
                new_q@ == without_hashes(q0.take(k as int), hs),
                new_q@.len() <= k,
                self.seen == old(self).seen,
            decreases n - k,
        {
            let tx = match self.queue.pop_front() {
                Some(tx) => tx,
                None => {
                    return;
                },
            };
            assert(q0.take(k + 1).drop_last() =~= q0.take(k as int));
            assert(q0.skip(k + 1) =~= q0.skip(k as int).subrange(1, q0.skip(k as int).len() as int));
            let h = tx.hash();
            if !contains_hash(&included_hashes, &h) {
                new_q.push_back(tx);
            }
            k = k + 1;
        }
        assert(q0.take(n as int) =~= q0);
        self.queue = new_q;
        proof {
            lemma_without_hashes_len(q0, hs);
        }
    }
}

/// Whether `h` is among `hashes`.
fn contains_hash(hashes: &Vec<Hash32Type>, h: &Hash32Type) -> (res: bool)
    ensures
        res == hash_views(hashes@).contains(h@),
{
    let mut i: usize = 0;
    while i < hashes.len()
        invariant
            0 <= i <= hashes@.len(),
            forall|j: int| 0 <= j < i ==> hashes@[j]@ != h@,
        decreases hashes@.len() - i,
    {
        if hash_eq(&hashes[i], h) {
            assert(hash_views(hashes@)[i as int] == h@);
            return true;
        }
        i = i + 1;
    }
    assert(!hash_views(hashes@).contains(h@)) by {
        if hash_views(hashes@).contains(h@) {
            let k = choose|k: int| 0 <= k < hashes@.len() && hash_views(hashes@)[k] == h@;
            assert(hashes@[k]@ == h@);
        }
    }
    false
}

proof fn lemma_without_hashes_len(q: Seq<Transaction>, hs: Seq<Seq<u8>>)
    ensures
        without_hashes(q, hs).len() <= q.len(),
    decreases q.len(),
{
    if q.len() > 0 {
        lemma_without_hashes_len(q.drop_last(), hs);
    }
}

proof fn lemma_without_hashes_trivial(q: Seq<Transaction>, hs: Seq<Seq<u8>>)
    requires
        q.len() == 0 || hs.len() == 0,
    ensures
        without_hashes(q, hs) == q,
    decreases q.len(),
{
    if q.len() > 0 {
        lemma_without_hashes_trivial(q.drop_last(), hs);
        assert(q.drop_last().push(q.last()) =~= q);
    }
}

} // verus!
