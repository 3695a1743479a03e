use vstd::prelude::*;
use std::collections::VecDeque;
use crate::crypto::{hash_eq, hash_views, Hash32Type};

verus! {

/// The hashes remembered after `h` is recorded: appended, and the oldest
/// forgotten when there are more than `capacity`.
pub open spec fn remember(seen: Seq<Seq<u8>>, h: Seq<u8>, capacity: nat) -> Seq<Seq<u8>> {
    if seen.len() + 1 > capacity {
        seen.push(h).drop_first()
    } else {
        seen.push(h)
    }
}

/// The most recent distinct hashes, oldest first, at most `capacity` of them.
#[derive(Debug)]
pub struct RecentHashes {
    order: VecDeque<Hash32Type>,
    capacity: usize,
}

impl RecentHashes {
    /// The remembered hashes, oldest first.
    pub closed spec fn hashes(&self) -> Seq<Seq<u8>> {
        hash_views(self.order@)
    }

    /// How many hashes are kept at most.
    pub closed spec fn capacity(&self) -> nat {
        self.capacity as nat
    }

    /// Within capacity, and no hash twice.
    pub open spec fn wf(&self) -> bool {
        &&& self.hashes().len() <= self.capacity()
        &&& self.hashes().no_duplicates()
    }

    pub fn new(capacity: usize) -> (res: Self)
        requires
            capacity >= 1,
        ensures
            res.wf(),
            res.hashes() == Seq::<Seq<u8>>::empty(),
            res.capacity() == capacity,
    {
        let res = RecentHashes { order: VecDeque::new(), capacity };
        assert(res.hashes() =~= Seq::<Seq<u8>>::empty());
        res
    }

    pub fn contains(&self, h: &Hash32Type) -> (res: bool)
        ensures
            res == self.hashes().contains(h@),
    {
        let n = self.order.len();
        let mut i: usize = 0;
        while i < n
            invariant
                n == self.order@.len(),
                0 <= i <= n,
                forall|j: int| 0 <= j < i ==> self.order@[j]@ != h@,
            decreases n - i,
        {
            if hash_eq(&self.order[i], h) {
                assert(self.hashes()[i as int] == h@);
                return true;
            }
            i = i + 1;
        }
        assert(!self.hashes().contains(h@)) by {
            if self.hashes().contains(h@) {
                let k = choose|k: int| 0 <= k < self.hashes().len() && self.hashes()[k] == h@;
                assert(self.order@[k]@ == h@);
            }
        }
        false
    }

    /// Records `h` unless it is already remembered; reports whether it was new.
    pub fn insert(&mut self, h: Hash32Type) -> (res: bool)
        requires
            old(self).wf(),
            old(self).capacity() >= 1,
        ensures
            final(self).wf(),
            final(self).capacity() == old(self).capacity(),
            res == !old(self).hashes().contains(h@),
            res ==> final(self).hashes() == remember(old(self).hashes(), h@, old(self).capacity()),
            !res ==> final(self).hashes() == old(self).hashes(),
    {
        if self.contains(&h) {
            return false;
        }
        let ghost old_seen = self.hashes();
        self.order.push_back(h);
        assert(self.hashes() =~= old_seen.push(h@));
        if self.order.len() > self.capacity {
            let _ = self.order.pop_front();
            assert(self.hashes() =~= old_seen.push(h@).drop_first());
        }
        proof {
            let s = old_seen.push(h@);
            assert(s.no_duplicates()) by {
                assert forall|a: int, b: int|
                    0 <= a < s.len() && 0 <= b < s.len() && a != b implies s[a] != s[b] by {
                    if a < old_seen.len() && b < old_seen.len() {
                    } else if a == old_seen.len() {
                        assert(s[b] == old_seen[b]);
                        assert(old_seen[b] != h@);
                    } else {
                        assert(s[a] == old_seen[a]);
                        assert(old_seen[a] != h@);
                    }
                }
            }
        }
        true
    }
}

} // verus!
