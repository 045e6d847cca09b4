//! The cache itself: two hash maps, a capacity and a flip count, with each
//! operation's effect stated over the model.

use crate::model::CacheState;
use crate::table::{take_entry, value_mut};
use core::hash::Hash;
use std::collections::HashMap;
use vstd::prelude::*;
use vstd::std_specs::hash::*;

verus! {

broadcast use vstd::std_specs::hash::group_hash_axioms;

/// A cache of two hash-map generations. It holds at least the `cap` entries
/// written or read last, and up to `2 * cap` entries in all.
pub struct LruCache<K, V> {
    l1_map: HashMap<K, V>,
    l2_map: HashMap<K, V>,
    cap: usize,
    flips: usize,
}

impl<K, V> View for LruCache<K, V> {
    type V = CacheState<K, V>;

    closed spec fn view(&self) -> CacheState<K, V> {
        CacheState {
            current: self.l1_map@,
            previous: self.l2_map@,
            capacity: self.cap as nat,
            flips: self.flips as nat,
        }
    }
}

impl<K: Hash + Eq, V> LruCache<K, V> {
    /// The state obeys the model's invariant, and `K` is a sound hash-map key:
    /// its hash is deterministic and its `==` holds of identical keys only.
    pub open spec fn wf(&self) -> bool {
        self@.wf() && obeys_key_model::<K>()
    }

    /// Creates an empty cache whose generations hold `cap` entries each.
    /// A capacity of zero is rejected.
    pub fn new(cap: usize) -> (r: Option<Self>)
        requires
            obeys_key_model::<K>(),
        ensures
            r is None <==> cap == 0,
            r matches Some(c) ==> c.wf() && c@ == CacheState::<K, V>::empty(cap as nat),
    {
        if cap == 0 {
            return None;
        }
        let c = LruCache {
            l1_map: HashMap::with_capacity(cap),
            l2_map: HashMap::with_capacity(cap),
            cap,
            flips: 0,
        };
        Some(c)
    }

    /// Reads the value held for `k`. An entry found only in the previous
    /// generation is first moved to the current one, as `put` would write it,
    /// so a read changes the cache and can flip it.
    pub fn get<'a>(&'a mut self, k: &K) -> (r: Option<&'a V>)
        requires
            old(self).wf(),
            old(self)@.promotes(*k) && old(self)@.full() ==> old(self)@.flips < usize::MAX,
        ensures
            final(self).wf(),
            final(self)@ == old(self)@.promote(*k),
            match r {
                Some(v) => old(self)@.lookup(*k) == Some(*v),
                None => old(self)@.lookup(*k) is None,
            },
    {
        if self.l1_map.contains_key(k) {
            return self.l1_map.get(k);
        }
        match take_entry(&mut self.l2_map, k) {
            Some((rk, rv)) => {
                assert(self@.put(rk, rv) == old(self)@.put(rk, rv)) by {
                    assert(self@.previous.remove(rk) == old(self)@.previous.remove(rk));
                }
                self.put(rk, rv);
                self.l1_map.get(k)
            },
            None => {
                assert(self@.previous == old(self)@.previous);
                None
            },
        }
    }

    /// Reads the value held for `k`, for the caller to change in place. The
    /// entry is moved to the current generation as in `get`; whatever the
    /// caller leaves in the reference is the value held afterwards.
    pub fn get_mut<'a>(&'a mut self, k: &K) -> (r: Option<&'a mut V>)
        requires
            old(self).wf(),
            old(self)@.promotes(*k) && old(self)@.full() ==> old(self)@.flips < usize::MAX,
        ensures
            final(self).wf(),
            match r {
                Some(v) => old(self)@.lookup(*k) == Some(*v) && final(self)@ == old(
                    self,
                )@.promote(*k).with_value(*k, *final(v)),
                None => old(self)@.lookup(*k) is None && final(self)@ == old(self)@,
            },
    {
        if self.l1_map.contains_key(k) {
            return value_mut(&mut self.l1_map, k);
        }
        match take_entry(&mut self.l2_map, k) {
            Some((rk, rv)) => {
                assert(self@.put(rk, rv) == old(self)@.put(rk, rv)) by {
                    assert(self@.previous.remove(rk) == old(self)@.previous.remove(rk));
                }
                self.put(rk, rv);
                value_mut(&mut self.l1_map, k)
            },
            None => {
                assert(self@.previous == old(self)@.previous);
                None
            },
        }
    }

    /// Writes `v` under `k` in the current generation. If that generation is
    /// full, the cache flips first: the full generation becomes the previous
    /// one, whose old entries are dropped. Returns the value held for `k` once
    /// room was made, from whichever generation held it.
    ///
    /// The flip count must have room for one more flip if there is to be one.
    pub fn put(&mut self, k: K, v: V) -> (r: Option<V>)
        requires
            old(self).wf(),
            old(self)@.full() ==> old(self)@.flips < usize::MAX,
        ensures
            final(self).wf(),
            final(self)@ == old(self)@.put(k, v),
            r == old(self)@.replaced(k),
    {
        if self.l1_map.len() == self.cap {
            core::mem::swap(&mut self.l2_map, &mut self.l1_map);
            self.l1_map = HashMap::with_capacity(self.cap);
            self.flips += 1;
        }
        let ov = self.l2_map.remove(&k);
        match self.l1_map.insert(k, v) {
            Some(l1_v) => Some(l1_v),
            None => ov,
        }
    }

    /// The capacity of one generation, fixed at creation.
    pub fn cap(&self) -> (r: usize)
        requires
            self.wf(),
        ensures
            r == self@.capacity,
            r > 0,
    {
        self.cap
    }

    /// The number of entries that the cache is guaranteed to hold: those of
    /// both generations, counted up to the capacity.
    pub fn len(&self) -> (r: usize)
        requires
            self.wf(),
        ensures
            r == self@.len(),
            r <= self@.capacity,
    {
        let current: usize = self.l1_map.len();
        let previous: usize = self.l2_map.len();
        if previous >= self.cap - current {
            self.cap
        } else {
            current + previous
        }
    }

    /// Whether both generations are empty.
    pub fn is_empty(&self) -> (r: bool)
        requires
            self.wf(),
        ensures
            r == self@.is_empty(),
    {
        self.l1_map.len() == 0 && self.l2_map.len() == 0
    }

    /// The number of flips since creation or the last `reset`.
    pub fn get_flips(&self) -> (r: usize)
        ensures
            r == self@.flips,
    {
        self.flips
    }

    /// Sets the flip count back to zero. The entries stay as they are.
    pub fn reset(&mut self)
        ensures
            final(self)@ == old(self)@.reset(),
            old(self).wf() ==> final(self).wf(),
    {
        self.flips = 0;
    }
}

} // verus!
