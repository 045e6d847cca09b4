//! The mathematical model of the cache: two finite maps, a capacity, and a
//! count of flips.

use vstd::prelude::*;

verus! {

/// What a cache holds, as mathematics.
#[verifier::reject_recursive_types(K)]
pub struct CacheState<K, V> {
    /// Entries written or promoted since the last flip.
    pub current: Map<K, V>,
    /// Entries of the generation that was current before the last flip.
    pub previous: Map<K, V>,
    /// The size at which the current generation is full.
    pub capacity: nat,
    /// Flips since creation or the last reset.
    pub flips: nat,
}

/// One use of a cache: a write of a value under a key, or a read of a key.
pub enum Access<K, V> {
    Write(K, V),
    Read(K),
}

impl<K, V> Access<K, V> {
    /// The key that the access is about.
    pub open spec fn key(self) -> K {
        match self {
            Access::Write(k, _) => k,
            Access::Read(k) => k,
        }
    }
}

impl<K, V> CacheState<K, V> {
    /// The cache of the given capacity that holds nothing.
    pub open spec fn empty(capacity: nat) -> Self {
        CacheState { current: Map::empty(), previous: Map::empty(), capacity, flips: 0 }
    }

    /// Both generations are finite, neither exceeds the capacity, and no key
    /// lives in both.
    pub open spec fn wf(self) -> bool {
        &&& self.capacity > 0
        &&& self.current.dom().finite()
        &&& self.previous.dom().finite()
        &&& self.current.len() <= self.capacity
        &&& self.previous.len() <= self.capacity
        &&& self.current.dom().disjoint(self.previous.dom())
    }

    /// The value held for `k`, in whichever generation it lives.
    pub open spec fn lookup(self, k: K) -> Option<V> {
        if self.current.contains_key(k) {
            Some(self.current[k])
        } else if self.previous.contains_key(k) {
            Some(self.previous[k])
        } else {
            None
        }
    }

    /// The number of entries that are guaranteed to be held.
    pub open spec fn len(self) -> nat {
        if self.current.len() + self.previous.len() <= self.capacity {
            self.current.len() + self.previous.len()
        } else {
            self.capacity
        }
    }

    /// Neither generation holds an entry.
    pub open spec fn is_empty(self) -> bool {
        self.current.len() == 0 && self.previous.len() == 0
    }

    /// The current generation has no room for another write.
    pub open spec fn full(self) -> bool {
        self.current.len() == self.capacity
    }

    /// The flip: the current generation becomes the previous one, whose old
    /// entries are dropped, and the current generation starts empty.
    pub open spec fn flip(self) -> Self {
        CacheState {
            current: Map::empty(),
            previous: self.current,
            capacity: self.capacity,
            flips: self.flips + 1,
        }
    }

    /// The state in which a write lands: flipped if the current generation is
    /// full, unchanged otherwise.
    pub open spec fn make_room(self) -> Self {
        if self.full() {
            self.flip()
        } else {
            self
        }
    }

    /// The state after writing `v` under `k`.
    pub open spec fn put(self, k: K, v: V) -> Self {
        let s = self.make_room();
        CacheState {
            current: s.current.insert(k, v),
            previous: s.previous.remove(k),
            capacity: s.capacity,
            flips: s.flips,
        }
    }

    /// The value that a write under `k` displaces: the one held for `k` once
    /// room has been made.
    pub open spec fn replaced(self, k: K) -> Option<V> {
        self.make_room().lookup(k)
    }

    /// A read of `k` finds it only in the previous generation.
    pub open spec fn promotes(self, k: K) -> bool {
        !self.current.contains_key(k) && self.previous.contains_key(k)
    }

    /// The state after reading `k`: an entry found only in the previous
    /// generation is written to the current one; otherwise nothing changes.
    pub open spec fn promote(self, k: K) -> Self {
        if self.promotes(k) {
            self.put(k, self.previous[k])
        } else {
            self
        }
    }

    /// The state with the value under `k` in the current generation set to `v`.
    pub open spec fn with_value(self, k: K, v: V) -> Self {
        CacheState {
            current: self.current.insert(k, v),
            previous: self.previous,
            capacity: self.capacity,
            flips: self.flips,
        }
    }

    /// The state after the writes of `ws`, first to last.
    pub open spec fn put_all(self, ws: Seq<(K, V)>) -> Self
        decreases ws.len(),
    {
        if ws.len() == 0 {
            self
        } else {
            self.put_all(ws.drop_last()).put(ws.last().0, ws.last().1)
        }
    }

    /// The state after one access.
    pub open spec fn apply(self, a: Access<K, V>) -> Self {
        match a {
            Access::Write(k, v) => self.put(k, v),
            Access::Read(k) => self.promote(k),
        }
    }

    /// The state after the accesses of `ops`, first to last.
    pub open spec fn apply_all(self, ops: Seq<Access<K, V>>) -> Self
        decreases ops.len(),
    {
        if ops.len() == 0 {
            self
        } else {
            self.apply_all(ops.drop_last()).apply(ops.last())
        }
    }

    /// The state with the flip count back at zero.
    pub open spec fn reset(self) -> Self {
        CacheState {
            current: self.current,
            previous: self.previous,
            capacity: self.capacity,
            flips: 0,
        }
    }
}

} // verus!
