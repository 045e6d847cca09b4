//! What holds of every cache, proved over the model.

use crate::model::{Access, CacheState};
use vstd::prelude::*;
use vstd::set_lib::*;

verus! {

/// The length never exceeds the capacity.
pub proof fn law_len_within_capacity<K, V>(s: CacheState<K, V>)
    ensures
        s.len() <= s.capacity,
{
}

/// A write keeps the invariant, so the length stays within the capacity.
pub proof fn law_put_keeps_invariant<K, V>(s: CacheState<K, V>, k: K, v: V)
    requires
        s.wf(),
    ensures
        s.put(k, v).wf(),
        s.put(k, v).len() <= s.capacity,
        s.put(k, v).capacity == s.capacity,
{
}

/// A read keeps the invariant.
pub proof fn law_promote_keeps_invariant<K, V>(s: CacheState<K, V>, k: K)
    requires
        s.wf(),
    ensures
        s.promote(k).wf(),
        s.promote(k).len() <= s.capacity,
        s.promote(k).capacity == s.capacity,
{
}

/// Any sequence of writes keeps the invariant, so the length is within the
/// capacity after each of them.
pub proof fn law_writes_keep_invariant<K, V>(s: CacheState<K, V>, ws: Seq<(K, V)>)
    requires
        s.wf(),
    ensures
        s.put_all(ws).wf(),
        s.put_all(ws).len() <= s.capacity,
        s.put_all(ws).capacity == s.capacity,
    decreases ws.len(),
{
    if ws.len() > 0 {
        law_writes_keep_invariant(s, ws.drop_last());
        law_put_keeps_invariant(s.put_all(ws.drop_last()), ws.last().0, ws.last().1);
    }
}

/// A write is what the next write under the same key displaces.
pub proof fn law_put_returns_previous_write<K, V>(s: CacheState<K, V>, k: K, v: V)
    requires
        s.wf(),
    ensures
        s.put(k, v).lookup(k) == Some(v),
        s.put(k, v).replaced(k) == Some(v),
{
}

/// A write under a key that the cache does not hold displaces nothing.
pub proof fn law_put_new_key_returns_none<K, V>(s: CacheState<K, V>, k: K)
    requires
        s.wf(),
        s.lookup(k) is None,
    ensures
        s.replaced(k) is None,
{
}

/// A write displaces the value that the cache holds for its key, unless the
/// key lives only in the previous generation and the write flips the cache.
pub proof fn law_put_returns_held_value<K, V>(s: CacheState<K, V>, k: K)
    requires
        s.wf(),
        s.current.contains_key(k) || !s.full(),
    ensures
        s.replaced(k) == s.lookup(k),
{
}

/// A read that finds its key leaves it in the current generation, where a
/// second read finds the same value and changes nothing.
pub proof fn law_promotion_idempotent<K, V>(s: CacheState<K, V>, k: K)
    requires
        s.wf(),
        s.lookup(k) is Some,
    ensures
        s.promote(k).current.contains_key(k),
        s.promote(k).lookup(k) == s.lookup(k),
        s.promote(k).promote(k) == s.promote(k),
{
}

/// A read that misses changes nothing.
pub proof fn law_miss_changes_nothing<K, V>(s: CacheState<K, V>, k: K)
    requires
        s.lookup(k) is None,
    ensures
        s.promote(k) == s,
{
}

/// A write that flips the cache drops every entry of the previous generation
/// but the one under the key that it writes.
pub proof fn law_flip_drops_previous<K, V>(s: CacheState<K, V>, k: K, x: K, v: V)
    requires
        s.wf(),
        s.full(),
        s.previous.contains_key(k),
        k != x,
    ensures
        s.put(x, v).lookup(k) is None,
{
}

/// A write keeps every entry of the current generation: in place, or in the
/// previous generation if the write flips the cache.
pub proof fn law_put_keeps_current<K, V>(s: CacheState<K, V>, k: K, x: K, v: V)
    requires
        s.wf(),
        s.current.contains_key(k),
        k != x,
    ensures
        s.put(x, v).lookup(k) == Some(s.current[k]),
{
}

/// Resetting the flip count leaves every entry where it is.
pub proof fn law_reset_keeps_entries<K, V>(s: CacheState<K, V>, k: K)
    ensures
        s.reset().lookup(k) == s.lookup(k),
        s.reset().len() == s.len(),
        s.reset().flips == 0,
{
}

/// The keys of the writes at the positions after `j` and before `n`.
pub open spec fn keys_written_between<K, V>(ws: Seq<(K, V)>, j: int, n: int) -> Set<K> {
    Set::new(|k: K| exists|i: int| j < i < n && (#[trigger] ws[i]).0 == k)
}

/// No two writes of `ws` are under the same key.
pub open spec fn distinct_keys<K, V>(ws: Seq<(K, V)>) -> bool {
    forall|i: int, j: int| 0 <= i < j < ws.len() ==> (#[trigger] ws[i]).0 != (#[trigger] ws[j]).0
}

/// The entry `(x, v)` is held, or at least `capacity` of the keys in `later`
/// are distinct. An entry in the previous generation is held only while the
/// current one consists of keys in `later`.
spec fn retained<K, V>(t: CacheState<K, V>, x: K, v: V, later: Set<K>) -> bool {
    ||| t.current.contains_key(x) && t.current[x] == v
    ||| !t.current.contains_key(x) && t.previous.contains_key(x) && t.previous[x] == v
        && t.current.dom().subset_of(later)
    ||| later.len() >= t.capacity
}

proof fn lemma_retained_step<K, V>(t: CacheState<K, V>, x: K, v: V, later: Set<K>, y: K, w: V)
    requires
        t.wf(),
        later.finite(),
        retained(t, x, v, later),
        y != x,
    ensures
        retained(t.put(y, w), x, v, later.insert(y)),
{
    if !t.current.contains_key(x) && t.full() && later.len() < t.capacity {
        // The entry is in the previous generation, which this write drops:
        // but then the full current generation consists of keys in `later`.
        lemma_len_subset(t.current.dom(), later);
    }
}

proof fn lemma_retained_prefix<K, V>(s: CacheState<K, V>, ws: Seq<(K, V)>, j: int, n: int)
    requires
        s.wf(),
        0 <= j < n <= ws.len(),
        forall|i: int| j < i < n ==> (#[trigger] ws[i]).0 != ws[j].0,
    ensures
        s.put_all(ws.take(n)).wf(),
        keys_written_between(ws, j, n).finite(),
        keys_written_between(ws, j, n).len() <= n - 1 - j,
        retained(s.put_all(ws.take(n)), ws[j].0, ws[j].1, keys_written_between(ws, j, n)),
    decreases n - j,
{
    let before = s.put_all(ws.take(n - 1));
    assert(ws.take(n).drop_last() == ws.take(n - 1));
    law_writes_keep_invariant(s, ws.take(n - 1));
    law_writes_keep_invariant(s, ws.take(n));
    if n == j + 1 {
        assert(keys_written_between(ws, j, n) == Set::<K>::empty());
    } else {
        lemma_retained_prefix(s, ws, j, n - 1);
        let later = keys_written_between(ws, j, n - 1);
        assert(keys_written_between(ws, j, n) == later.insert(ws[n - 1].0)) by {
            assert forall|k: K| later.insert(ws[n - 1].0).contains(k) implies keys_written_between(
                ws,
                j,
                n,
            ).contains(k) by {
                if k == ws[n - 1].0 {
                    assert(ws[n - 1].0 == k);
                } else {
                    let i = choose|i: int| j < i < n - 1 && (#[trigger] ws[i]).0 == k;
                    assert(ws[i].0 == k);
                }
            }
        }
        lemma_retained_step(before, ws[j].0, ws[j].1, later, ws[n - 1].0, ws[n - 1].1);
    }
}

/// A write stays readable, and is what a write under the same key displaces,
/// for as long as fewer than `capacity` distinct keys have been written after
/// it.
pub proof fn law_recent_write_retained<K, V>(s: CacheState<K, V>, ws: Seq<(K, V)>, j: int)
    requires
        s.wf(),
        0 <= j < ws.len(),
        forall|i: int| j < i < ws.len() ==> (#[trigger] ws[i]).0 != ws[j].0,
        keys_written_between(ws, j, ws.len() as int).len() < s.capacity,
    ensures
        s.put_all(ws).lookup(ws[j].0) == Some(ws[j].1),
        s.put_all(ws).replaced(ws[j].0) == Some(ws[j].1),
{
    lemma_retained_prefix(s, ws, j, ws.len() as int);
    assert(ws.take(ws.len() as int) == ws);
    law_writes_keep_invariant(s, ws);
    let t = s.put_all(ws);
    if !t.current.contains_key(ws[j].0) && t.full() {
        lemma_len_subset(t.current.dom(), keys_written_between(ws, j, ws.len() as int));
    }
}

/// After writes under pairwise distinct keys, each of the last `capacity`
/// writes is readable.
pub proof fn law_last_writes_retained<K, V>(s: CacheState<K, V>, ws: Seq<(K, V)>, j: int)
    requires
        s.wf(),
        distinct_keys(ws),
        0 <= j < ws.len(),
        ws.len() - j <= s.capacity,
    ensures
        s.put_all(ws).lookup(ws[j].0) == Some(ws[j].1),
{
    lemma_retained_prefix(s, ws, j, ws.len() as int);
    law_recent_write_retained(s, ws, j);
}

/// The keys other than `x` of the first `n` accesses of `ops`.
pub open spec fn other_keys_accessed<K, V>(ops: Seq<Access<K, V>>, x: K, n: int) -> Set<K> {
    Set::new(|k: K| k != x && exists|i: int| 0 <= i < n && (#[trigger] ops[i]).key() == k)
}

/// None of the accesses of `ops` is a write under `x`.
pub open spec fn never_written<K, V>(ops: Seq<Access<K, V>>, x: K) -> bool {
    forall|i: int| 0 <= i < ops.len() ==> !((#[trigger] ops[i]) is Write && ops[i].key() == x)
}

/// Any sequence of reads and writes keeps the invariant.
pub proof fn law_accesses_keep_invariant<K, V>(s: CacheState<K, V>, ops: Seq<Access<K, V>>)
    requires
        s.wf(),
    ensures
        s.apply_all(ops).wf(),
        s.apply_all(ops).len() <= s.capacity,
        s.apply_all(ops).capacity == s.capacity,
    decreases ops.len(),
{
    if ops.len() > 0 {
        law_accesses_keep_invariant(s, ops.drop_last());
    }
}

proof fn lemma_retained_access<K, V>(
    t: CacheState<K, V>,
    x: K,
    v: V,
    later: Set<K>,
    a: Access<K, V>,
)
    requires
        t.wf(),
        later.finite(),
        !later.contains(x),
        retained(t, x, v, later),
        !(a is Write && a.key() == x),
    ensures
        a.key() == x ==> retained(t.apply(a), x, v, later),
        a.key() != x ==> retained(t.apply(a), x, v, later.insert(a.key())),
{
    match a {
        Access::Write(y, w) => {
            lemma_retained_step(t, x, v, later, y, w);
        },
        Access::Read(y) => {
            if y != x && t.promotes(y) {
                lemma_retained_step(t, x, v, later, y, t.previous[y]);
            }
        },
    }
}

proof fn lemma_retained_accesses<K, V>(
    s: CacheState<K, V>,
    ops: Seq<Access<K, V>>,
    x: K,
    v: V,
    n: int,
)
    requires
        s.wf(),
        s.current.contains_key(x),
        s.current[x] == v,
        never_written(ops, x),
        0 <= n <= ops.len(),
    ensures
        s.apply_all(ops.take(n)).wf(),
        other_keys_accessed(ops, x, n).finite(),
        retained(s.apply_all(ops.take(n)), x, v, other_keys_accessed(ops, x, n)),
    decreases n,
{
    if n == 0 {
        assert(other_keys_accessed(ops, x, n) == Set::<K>::empty());
    } else {
        let before = s.apply_all(ops.take(n - 1));
        let a = ops[n - 1];
        assert(ops.take(n).drop_last() == ops.take(n - 1));
        lemma_retained_accesses(s, ops, x, v, n - 1);
        law_accesses_keep_invariant(s, ops.take(n));
        let later = other_keys_accessed(ops, x, n - 1);
        lemma_retained_access(before, x, v, later, a);
        if a.key() == x {
            assert(other_keys_accessed(ops, x, n) == later) by {
                assert forall|k: K| other_keys_accessed(ops, x, n).contains(k) implies later.contains(
                    k,
                ) by {
                    let i = choose|i: int| 0 <= i < n && (#[trigger] ops[i]).key() == k;
                    assert(i < n - 1);
                }
            }
        } else {
            assert(other_keys_accessed(ops, x, n) == later.insert(a.key())) by {
                assert forall|k: K| later.insert(a.key()).contains(k) implies other_keys_accessed(
                    ops,
                    x,
                    n,
                ).contains(k) by {
                    if k == a.key() {
                        assert(ops[n - 1].key() == k);
                    } else {
                        let i = choose|i: int| 0 <= i < n - 1 && (#[trigger] ops[i]).key() == k;
                        assert(ops[i].key() == k);
                    }
                }
            }
        }
    }
}

/// An entry of the current generation, which is where a write or a read that
/// finds its key leaves it, stays readable through reads and writes for as
/// long as its key is not written again and fewer than `capacity` distinct
/// other keys are read or written.
pub proof fn law_recent_entry_retained<K, V>(
    s: CacheState<K, V>,
    ops: Seq<Access<K, V>>,
    x: K,
    v: V,
)
    requires
        s.wf(),
        s.current.contains_key(x),
        s.current[x] == v,
        never_written(ops, x),
        other_keys_accessed(ops, x, ops.len() as int).len() < s.capacity,
    ensures
        s.apply_all(ops).lookup(x) == Some(v),
{
    lemma_retained_accesses(s, ops, x, v, ops.len() as int);
    assert(ops.take(ops.len() as int) == ops);
    law_accesses_keep_invariant(s, ops);
}

} // verus!
