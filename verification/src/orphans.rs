use vstd::prelude::*;
use crate::block::Block;
use crate::crypto::{hash_eq, Hash32Type};

verus! {

/// Most blocks held while their predecessor is unknown.
pub const MAX_ORPHANS_TOTAL: usize = 1024;

/// Most held blocks that name the same predecessor.
pub const MAX_ORPHANS_PER_PREV: usize = 8;

/// The entries of a store as byte strings and block lists.
pub open spec fn entry_views(es: Seq<(Hash32Type, Vec<Block>)>) -> Seq<(Seq<u8>, Seq<Block>)> {
    es.map_values(|e: (Hash32Type, Vec<Block>)| (e.0@, e.1@))
}

/// The number of blocks held in all entries.
pub open spec fn blocks_held(es: Seq<(Seq<u8>, Seq<Block>)>) -> nat
    decreases es.len(),
{
    if es.len() == 0 {
        0
    } else {
        blocks_held(es.drop_last()) + es.last().1.len()
    }
}

/// Whether some entry is keyed by `k`.
pub open spec fn has_key(es: Seq<(Seq<u8>, Seq<Block>)>, k: Seq<u8>) -> bool {
    exists|i: int| 0 <= i < es.len() && es[i].0 == k
}

/// The position of the entry keyed by `k` (meaningful when there is one).
pub open spec fn key_index(es: Seq<(Seq<u8>, Seq<Block>)>, k: Seq<u8>) -> int {
    choose|i: int| 0 <= i < es.len() && es[i].0 == k
}

/// The entries after appending `extra` to the list keyed by `k`, creating it
/// when absent, while that list has room for fewer than the cap.
pub open spec fn fill_entry(es: Seq<(Seq<u8>, Seq<Block>)>, k: Seq<u8>, extra: Seq<Block>) -> Seq<
    (Seq<u8>, Seq<Block>),
> {
    if has_key(es, k) {
        let i = key_index(es, k);
        let room = if es[i].1.len() >= MAX_ORPHANS_PER_PREV {
            0
        } else {
            MAX_ORPHANS_PER_PREV - es[i].1.len()
        };
        let n = if extra.len() < room {
            extra.len() as int
        } else {
            room as int
        };
        es.update(i, (k, es[i].1 + extra.take(n)))
    } else {
        let n = if extra.len() < MAX_ORPHANS_PER_PREV {
            extra.len() as int
        } else {
            MAX_ORPHANS_PER_PREV as int
        };
        es.push((k, extra.take(n)))
    }
}

/// No two entries share a key.
pub open spec fn keys_distinct(es: Seq<(Seq<u8>, Seq<Block>)>) -> bool {
    forall|i: int, j: int|
        0 <= i < es.len() && 0 <= j < es.len() && i != j ==> #[trigger] es[i].0 != #[trigger] es[j].0
}

/// No list holds more than the cap.
pub open spec fn lists_within_cap(es: Seq<(Seq<u8>, Seq<Block>)>) -> bool {
    forall|i: int| 0 <= i < es.len() ==> #[trigger] es[i].1.len() <= MAX_ORPHANS_PER_PREV
}

/// The entries and count after holding `block`: nothing changes when the
/// count is at its cap or the list for its predecessor is full; otherwise the
/// block is appended to that list (made when absent) and counted.
pub open spec fn put_result(es: Seq<(Seq<u8>, Seq<Block>)>, total: nat, block: Block) -> (
    Seq<(Seq<u8>, Seq<Block>)>,
    nat,
) {
    let k = block.header.previous_hash@;
    if total >= MAX_ORPHANS_TOTAL {
        (es, total)
    } else if has_key(es, k) {
        let i = key_index(es, k);
        if es[i].1.len() >= MAX_ORPHANS_PER_PREV {
            (es, total)
        } else {
            (es.update(i, (k, es[i].1.push(block))), total + 1)
        }
    } else {
        (es.push((k, seq![block])), total + 1)
    }
}

/// Blocks whose predecessor is not in the chain yet, grouped by the hash of
/// the predecessor they name, with a running count of blocks taken in.
#[derive(Debug)]
pub struct OrphanPool {
    entries: Vec<(Hash32Type, Vec<Block>)>,
    total: usize,
}

proof fn lemma_blocks_held_push(es: Seq<(Seq<u8>, Seq<Block>)>, e: (Seq<u8>, Seq<Block>))
    ensures
        blocks_held(es.push(e)) == blocks_held(es) + e.1.len(),
{
    assert(es.push(e).drop_last() =~= es);
}

proof fn lemma_blocks_held_update(es: Seq<(Seq<u8>, Seq<Block>)>, i: int, e: (Seq<u8>, Seq<Block>))
    requires
        0 <= i < es.len(),
    ensures
        blocks_held(es.update(i, e)) + es[i].1.len() == blocks_held(es) + e.1.len(),
    decreases es.len(),
{
    if i == es.len() - 1 {
        assert(es.update(i, e).drop_last() =~= es.drop_last());
    } else {
        lemma_blocks_held_update(es.drop_last(), i, e);
        assert(es.update(i, e).drop_last() =~= es.drop_last().update(i, e));
    }
}

proof fn lemma_blocks_held_remove(es: Seq<(Seq<u8>, Seq<Block>)>, i: int)
    requires
        0 <= i < es.len(),
    ensures
        blocks_held(es.remove(i)) + es[i].1.len() == blocks_held(es),
    decreases es.len(),
{
    if i == es.len() - 1 {
        assert(es.remove(i) =~= es.drop_last());
    } else {
        lemma_blocks_held_remove(es.drop_last(), i);
        assert(es.remove(i).drop_last() =~= es.drop_last().remove(i));
    }
}

impl OrphanPool {
    pub closed spec fn entries(&self) -> Seq<(Seq<u8>, Seq<Block>)> {
        entry_views(self.entries@)
    }

    pub closed spec fn total(&self) -> nat {
        self.total as nat
    }

    /// No key twice, no list over its cap, the count within bounds.
    pub open spec fn wf(&self) -> bool {
        &&& keys_distinct(self.entries())
        &&& lists_within_cap(self.entries())
        &&& self.total() <= MAX_ORPHANS_TOTAL
    }

    pub fn new() -> (res: Self)
        ensures
            res.wf(),
            res.entries() == Seq::<(Seq<u8>, Seq<Block>)>::empty(),
            res.total() == 0,
    {
        let res = OrphanPool { entries: Vec::new(), total: 0 };
        assert(res.entries() =~= Seq::<(Seq<u8>, Seq<Block>)>::empty());
        res
    }

    /// The position of the entry keyed by `key`.
    pub fn find(&self, key: &Hash32Type) -> (res: Option<usize>)
        requires
            self.wf(),
        ensures
            res is Some <==> has_key(self.entries(), key@),
            res matches Some(i) ==> i == key_index(self.entries(), key@) && i
                < self.entries().len() && self.entries()[i as int].0 == key@,
    {
        let n = self.entries.len();
        let mut i: usize = 0;
        while i < n
            invariant
                n == self.entries@.len(),
                0 <= i <= n,
                self.wf(),
                forall|j: int| 0 <= j < i ==> self.entries()[j].0 != key@,
            decreases n - i,
        {
            if hash_eq(&self.entries[i].0, key) {
                assert(self.entries()[i as int].0 == key@);
                let ghost k = key_index(self.entries(), key@);
                assert(has_key(self.entries(), key@));
                assert(0 <= k < self.entries().len() && self.entries()[k].0 == key@);
                assert(k == i) by {
                    if k != i {
                        assert(self.entries()[k].0 != self.entries()[i as int].0);
                    }
                }
                return Some(i);
            }
            i = i + 1;
        }
        proof {
            false_when_absent(self.entries(), key@, n as int);
        }
        None
    }

    /// Holds `block` under the hash it names as predecessor, unless the pool
    /// is at its total cap or that predecessor already has a full list.
    pub fn put(&mut self, block: Block)
        requires
            old(self).wf(),
        ensures
            final(self).wf(),
            (final(self).entries(), final(self).total()) == put_result(
                old(self).entries(),
                old(self).total(),
                block,
            ),
    {
        if self.total >= MAX_ORPHANS_TOTAL {
            return;
        }
        let key = block.header.previous_hash;
        match self.find(&key) {
            Some(i) => {
                if self.entries[i].1.len() >= MAX_ORPHANS_PER_PREV {
                    return;
                }
                let ghost es = self.entries();
                let (k, mut list) = self.entries.remove(i);
                list.push(block);
                self.entries.insert(i, (k, list));
                assert(self.entries() =~= es.update(i as int, (key@, es[i as int].1.push(block))));
            },
            None => {
                let ghost es = self.entries();
                let mut list: Vec<Block> = Vec::new();
                list.push(block);
                self.entries.push((key, list));
                assert(self.entries() =~= es.push((key@, seq![block])));
            },
        }
        self.total = self.total + 1;
    }

    /// Takes out the entry at `i`.
    pub fn take(&mut self, i: usize) -> (res: (Hash32Type, Vec<Block>))
        requires
            old(self).wf(),
            i < old(self).entries().len(),
        ensures
            final(self).wf(),
            (res.0@, res.1@) == old(self).entries()[i as int],
            final(self).entries() == old(self).entries().remove(i as int),
            final(self).total() == old(self).total(),
            blocks_held(final(self).entries()) + res.1@.len() == blocks_held(old(self).entries()),
    {
        let ghost es = self.entries();
        let res = self.entries.remove(i);
        assert(self.entries() =~= es.remove(i as int));
        proof {
            lemma_blocks_held_remove(es, i as int);
        }
        res
    }

    /// The blocks held under the entry at `i`.
    pub fn list_at(&self, i: usize) -> (res: &Vec<Block>)
        requires
            i < self.entries().len(),
        ensures
            res@ == self.entries()[i as int].1,
    {
        &self.entries[i].1
    }

    /// Appends blocks of `extra`, in order, to the list keyed by `key`
    /// (creating it when absent) until that list is full.
    pub fn fill(&mut self, key: Hash32Type, extra: Vec<Block>)
        requires
            old(self).wf(),
        ensures
            final(self).wf(),
            final(self).entries() == fill_entry(old(self).entries(), key@, extra@),
            final(self).total() == old(self).total(),
            blocks_held(final(self).entries()) <= blocks_held(old(self).entries()) + extra@.len(),
    {
        let ghost es = self.entries();
        match self.find(&key) {
            Some(i) => {
                let (k, mut list) = self.entries.remove(i);
                assert(self.entries() =~= es.remove(i as int));
                let ghost start = list@;
                append_up_to_cap(&mut list, extra);
                self.entries.insert(i, (k, list));
                assert(self.entries() =~= es.update(i as int, (key@, list@)));
                proof {
                    lemma_blocks_held_update(es, i as int, (key@, list@));
                }
            },
            None => {
                let mut list: Vec<Block> = Vec::new();
                append_up_to_cap(&mut list, extra);
                self.entries.push((key, list));
                assert(self.entries() =~= es.push((key@, list@)));
                proof {
                    lemma_blocks_held_push(es, (key@, list@));
                }
            },
        }
    }

    /// Counts one block as connected to the chain.
    pub fn note_connected(&mut self)
        requires
            old(self).wf(),
        ensures
            final(self).wf(),
            final(self).entries() == old(self).entries(),
            final(self).total() == if old(self).total() == 0 {
                0
            } else {
                (old(self).total() - 1) as nat
            },
    {
        if self.total > 0 {
            self.total = self.total - 1;
        }
    }
}

/// Moves blocks of `extra`, in order, to the end of `list` while it has room.
fn append_up_to_cap(list: &mut Vec<Block>, extra: Vec<Block>)
    requires
        old(list)@.len() <= MAX_ORPHANS_PER_PREV,
    ensures
        ({
            let room = (MAX_ORPHANS_PER_PREV - old(list)@.len()) as int;
            let n = if extra@.len() < room {
                extra@.len() as int
            } else {
                room
            };
            final(list)@ == old(list)@ + extra@.take(n)
        }),
        final(list)@.len() <= MAX_ORPHANS_PER_PREV,
{
    let ghost start = list@;
    let ghost ex = extra@;
    let mut extra = extra;
    let mut taken: usize = 0;
    while list.len() < MAX_ORPHANS_PER_PREV && extra.len() > 0
        invariant
            0 <= taken <= ex.len(),
            list@ == start + ex.take(taken as int),
            extra@ == ex.skip(taken as int),
            start.len() <= MAX_ORPHANS_PER_PREV,
            list@.len() <= MAX_ORPHANS_PER_PREV,
        decreases extra@.len(),
    {
        let b = extra.remove(0);
        list.push(b);
        assert(ex.take(taken + 1) =~= ex.take(taken as int).push(ex[taken as int]));
        assert(extra@ =~= ex.skip(taken + 1));
        taken = taken + 1;
    }
}

/// `b` is in one of the lists of `es`.
pub open spec fn held(es: Seq<(Seq<u8>, Seq<Block>)>, b: Block) -> bool {
    exists|k: int, j: int| 0 <= k < es.len() && 0 <= j < es[k].1.len() && #[trigger] es[k].1[j] == b
}

/// Every block in the lists of `es` is in one of the lists of `from`.
pub open spec fn held_within(es: Seq<(Seq<u8>, Seq<Block>)>, from: Seq<(Seq<u8>, Seq<Block>)>) -> bool {
    forall|k: int, j: int|
        0 <= k < es.len() && 0 <= j < es[k].1.len() ==> held(from, #[trigger] es[k].1[j])
}

/// Taking out an entry keeps the rest within `from`, and its blocks were in
/// `from`.
pub proof fn lemma_held_remove(
    es: Seq<(Seq<u8>, Seq<Block>)>,
    i: int,
    from: Seq<(Seq<u8>, Seq<Block>)>,
)
    requires
        held_within(es, from),
        0 <= i < es.len(),
    ensures
        held_within(es.remove(i), from),
        forall|j: int| 0 <= j < es[i].1.len() ==> held(from, #[trigger] es[i].1[j]),
{
    let r = es.remove(i);
    assert forall|k: int, j: int| 0 <= k < r.len() && 0 <= j < r[k].1.len() implies held(
        from,
        #[trigger] r[k].1[j],
    ) by {
        if k < i {
            assert(r[k] == es[k]);
            assert(held(from, es[k].1[j]));
        } else {
            assert(r[k] == es[k + 1]);
            assert(held(from, es[k + 1].1[j]));
        }
    }
    assert forall|j: int| 0 <= j < es[i].1.len() implies held(from, #[trigger] es[i].1[j]) by {
        assert(held(from, es[i].1[j]));
    }
}

/// Filling an entry with blocks that were in `from` keeps the entries within
/// `from`.
pub proof fn lemma_held_fill(
    es: Seq<(Seq<u8>, Seq<Block>)>,
    key: Seq<u8>,
    extra: Seq<Block>,
    from: Seq<(Seq<u8>, Seq<Block>)>,
)
    requires
        held_within(es, from),
        forall|j: int| 0 <= j < extra.len() ==> held(from, #[trigger] extra[j]),
    ensures
        held_within(fill_entry(es, key, extra), from),
{
    let f = fill_entry(es, key, extra);
    assert forall|k: int, j: int| 0 <= k < f.len() && 0 <= j < f[k].1.len() implies held(
        from,
        #[trigger] f[k].1[j],
    ) by {
        if has_key(es, key) {
            let i = key_index(es, key);
            if k == i {
                if j < es[i].1.len() {
                    assert(f[k].1[j] == es[i].1[j]);
                    assert(held(from, es[i].1[j]));
                } else {
                    assert(f[k].1[j] == extra[j - es[i].1.len()]);
                }
            } else {
                assert(f[k] == es[k]);
                assert(held(from, es[k].1[j]));
            }
        } else {
            if k < es.len() {
                assert(f[k] == es[k]);
                assert(held(from, es[k].1[j]));
            } else {
                assert(f[k].1[j] == extra[j]);
            }
        }
    }
}

proof fn false_when_absent(es: Seq<(Seq<u8>, Seq<Block>)>, k: Seq<u8>, n: int)
    requires
        n == es.len(),
        forall|j: int| 0 <= j < n ==> es[j].0 != k,
    ensures
        !has_key(es, k),
{
}

} // verus!
