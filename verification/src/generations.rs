//! Exactly where writes under distinct keys land: which generation holds
//! which of them, and when the first of them is dropped.

use crate::laws::{
    distinct_keys, law_flip_drops_previous, law_put_keeps_invariant, law_writes_keep_invariant,
};
use crate::model::CacheState;
use vstd::prelude::*;

verus! {

/// The map that the writes of `ws` build, a later write winning over an
/// earlier one under the same key.
pub open spec fn entries<K, V>(ws: Seq<(K, V)>) -> Map<K, V>
    decreases ws.len(),
{
    if ws.len() == 0 {
        Map::empty()
    } else {
        entries(ws.drop_last()).insert(ws.last().0, ws.last().1)
    }
}

/// The keys of `entries(ws)` are those of the writes, finitely many.
pub proof fn lemma_entries_keys<K, V>(ws: Seq<(K, V)>)
    ensures
        entries(ws).dom().finite(),
        entries(ws).len() <= ws.len(),
        forall|k: K|
            entries(ws).contains_key(k) <==> exists|i: int|
                0 <= i < ws.len() && (#[trigger] ws[i]).0 == k,
    decreases ws.len(),
{
    if ws.len() > 0 {
        let front = ws.drop_last();
        lemma_entries_keys(front);
        assert forall|k: K|
            entries(ws).contains_key(k) <==> exists|i: int|
                0 <= i < ws.len() && (#[trigger] ws[i]).0 == k by {
            if entries(ws).contains_key(k) && k != ws.last().0 {
                let i = choose|i: int| 0 <= i < front.len() && (#[trigger] front[i]).0 == k;
                assert(ws[i].0 == k);
            }
            if exists|i: int| 0 <= i < ws.len() && (#[trigger] ws[i]).0 == k {
                let i = choose|i: int| 0 <= i < ws.len() && (#[trigger] ws[i]).0 == k;
                if i < ws.len() - 1 {
                    assert(front[i].0 == k);
                }
            }
        }
    }
}

/// Under pairwise distinct keys, `entries(ws)` holds each write of `ws`.
pub proof fn lemma_entries_distinct<K, V>(ws: Seq<(K, V)>)
    requires
        distinct_keys(ws),
    ensures
        entries(ws).len() == ws.len(),
        forall|i: int|
            0 <= i < ws.len() ==> entries(ws).contains_key((#[trigger] ws[i]).0) && entries(
                ws,
            )[ws[i].0] == ws[i].1,
    decreases ws.len(),
{
    if ws.len() > 0 {
        let front = ws.drop_last();
        lemma_distinct_subrange(ws, 0, ws.len() - 1);
        lemma_entries_distinct(front);
        lemma_entries_keys(front);
        assert(!entries(front).contains_key(ws.last().0)) by {
            if entries(front).contains_key(ws.last().0) {
                let i = choose|i: int|
                    0 <= i < front.len() && (#[trigger] front[i]).0 == ws.last().0;
                assert(ws[i].0 != ws[ws.len() - 1].0);
            }
        }
        assert forall|i: int| 0 <= i < ws.len() implies entries(ws).contains_key(
            (#[trigger] ws[i]).0,
        ) && entries(ws)[ws[i].0] == ws[i].1 by {
            if i < ws.len() - 1 {
                assert(front[i] == ws[i]);
            }
        }
    }
}

/// Writing `a` and then `b` is writing `a + b`.
pub proof fn lemma_put_all_concat<K, V>(s: CacheState<K, V>, a: Seq<(K, V)>, b: Seq<(K, V)>)
    ensures
        s.put_all(a + b) == s.put_all(a).put_all(b),
    decreases b.len(),
{
    if b.len() == 0 {
        assert(a + b == a);
    } else {
        lemma_put_all_concat(s, a, b.drop_last());
        assert((a + b).drop_last() == a + b.drop_last());
    }
}

/// While the current generation has room, writes under pairwise distinct
/// keys that it does not hold land in it without a flip, and take from the
/// previous generation nothing but their own keys.
pub proof fn law_writes_fill_current<K, V>(s: CacheState<K, V>, ws: Seq<(K, V)>)
    requires
        s.wf(),
        distinct_keys(ws),
        forall|i: int| 0 <= i < ws.len() ==> !s.current.contains_key((#[trigger] ws[i]).0),
        s.current.len() + ws.len() <= s.capacity,
    ensures
        s.put_all(ws).current == s.current.union_prefer_right(entries(ws)),
        s.put_all(ws).previous == s.previous.remove_keys(entries(ws).dom()),
        s.put_all(ws).flips == s.flips,
        s.put_all(ws).capacity == s.capacity,
        s.put_all(ws).current.len() == s.current.len() + ws.len(),
    decreases ws.len(),
{
    if ws.len() > 0 {
        let front = ws.drop_last();
        let k = ws.last().0;
        lemma_distinct_subrange(ws, 0, ws.len() - 1);
        assert forall|i: int| 0 <= i < front.len() implies !s.current.contains_key(
            (#[trigger] front[i]).0,
        ) by {
            assert(front[i] == ws[i]);
        }
        law_writes_fill_current(s, front);
        law_writes_keep_invariant(s, front);
        lemma_entries_keys(front);
        let t = s.put_all(front);
        assert(!t.current.contains_key(k)) by {
            if entries(front).contains_key(k) {
                let i = choose|i: int| 0 <= i < front.len() && (#[trigger] front[i]).0 == k;
                assert(ws[i].0 != ws[ws.len() - 1].0);
            }
        }
    }
}

/// The writes of `a + b` build what those of `a` build, overridden by what
/// those of `b` build.
pub proof fn lemma_entries_concat<K, V>(a: Seq<(K, V)>, b: Seq<(K, V)>)
    ensures
        entries(a + b) == entries(a).union_prefer_right(entries(b)),
    decreases b.len(),
{
    if b.len() == 0 {
        assert(a + b == a);
    } else {
        lemma_entries_concat(a, b.drop_last());
        assert((a + b).drop_last() == a + b.drop_last());
    }
}

/// Any part of a sequence of writes under pairwise distinct keys is one.
pub proof fn lemma_distinct_subrange<K, V>(ws: Seq<(K, V)>, lo: int, hi: int)
    requires
        distinct_keys(ws),
        0 <= lo <= hi <= ws.len(),
    ensures
        distinct_keys(ws.subrange(lo, hi)),
{
    let part = ws.subrange(lo, hi);
    assert forall|i: int, j: int| 0 <= i < j < part.len() implies (#[trigger] part[i]).0 != (
    #[trigger] part[j]).0 by {
        assert(ws[lo + i].0 != ws[lo + j].0);
    }
}

/// A full cache flips at the next write, and that write and those after it,
/// up to `capacity` of them under pairwise distinct keys, make up the new
/// current generation. The old current generation is the previous one, less
/// the keys written.
pub proof fn law_writes_after_flip<K, V>(s: CacheState<K, V>, ws: Seq<(K, V)>)
    requires
        s.wf(),
        s.full(),
        distinct_keys(ws),
        0 < ws.len() <= s.capacity,
    ensures
        s.put_all(ws).current == entries(ws),
        s.put_all(ws).previous == s.current.remove_keys(entries(ws).dom()),
        s.put_all(ws).flips == s.flips + 1,
        s.put_all(ws).capacity == s.capacity,
        s.put_all(ws).current.len() == ws.len(),
{
    let first = ws.take(1);
    let rest = ws.skip(1);
    let t = s.put(ws[0].0, ws[0].1);
    assert(ws == first + rest);
    assert(s.put_all(first) == t) by {
        assert(s.put_all(first.drop_last()) == s);
    }
    assert(entries(first) == Map::<K, V>::empty().insert(ws[0].0, ws[0].1)) by {
        assert(entries(first.drop_last()) == Map::<K, V>::empty());
    }
    law_put_keeps_invariant(s, ws[0].0, ws[0].1);
    lemma_distinct_subrange(ws, 1, ws.len() as int);
    assert(t.current.len() == 1) by {
        assert(t.current.dom() == Set::<K>::empty().insert(ws[0].0));
    }
    assert forall|i: int| 0 <= i < rest.len() implies !t.current.contains_key(
        (#[trigger] rest[i]).0,
    ) by {
        assert(ws[0].0 != ws[i + 1].0);
    }
    law_writes_fill_current(t, rest);
    lemma_put_all_concat(s, first, rest);
    lemma_entries_concat(first, rest);
    assert(s.current.remove(ws[0].0).remove_keys(entries(rest).dom()) == s.current.remove_keys(
        entries(ws).dom(),
    ));
}

/// Into an empty cache of capacity `c`, write `2c` entries under pairwise
/// distinct keys. The cache has then flipped once: the first `c` writes are
/// the previous generation, the last `c` the current one, which is full, and
/// every one of the writes is readable.
pub proof fn law_two_generations<K, V>(c: nat, ws: Seq<(K, V)>)
    requires
        c > 0,
        ws.len() == 2 * c,
        distinct_keys(ws),
    ensures
        CacheState::<K, V>::empty(c).put_all(ws).wf(),
        CacheState::<K, V>::empty(c).put_all(ws).previous == entries(ws.take(c as int)),
        CacheState::<K, V>::empty(c).put_all(ws).current == entries(ws.skip(c as int)),
        CacheState::<K, V>::empty(c).put_all(ws).flips == 1,
        CacheState::<K, V>::empty(c).put_all(ws).full(),
        forall|i: int|
            0 <= i < ws.len() ==> CacheState::<K, V>::empty(c).put_all(ws).lookup(
                (#[trigger] ws[i]).0,
            ) == Some(ws[i].1),
{
    let s = CacheState::<K, V>::empty(c);
    let older = ws.take(c as int);
    let newer = ws.skip(c as int);
    assert(ws == older + newer);
    lemma_distinct_subrange(ws, 0, c as int);
    lemma_distinct_subrange(ws, c as int, ws.len() as int);
    law_writes_fill_current(s, older);
    law_writes_keep_invariant(s, older);
    let mid = s.put_all(older);
    law_writes_after_flip(mid, newer);
    lemma_put_all_concat(s, older, newer);
    law_writes_keep_invariant(s, ws);
    let t = s.put_all(ws);
    lemma_entries_keys(older);
    lemma_entries_keys(newer);
    lemma_entries_distinct(older);
    lemma_entries_distinct(newer);
    assert(t.previous == entries(older)) by {
        assert forall|k: K| entries(older).contains_key(k) implies !entries(newer).contains_key(
            k,
        ) by {
            if entries(newer).contains_key(k) {
                let i = choose|i: int| 0 <= i < older.len() && (#[trigger] older[i]).0 == k;
                let j = choose|j: int| 0 <= j < newer.len() && (#[trigger] newer[j]).0 == k;
                assert(ws[i].0 != ws[c + j].0);
            }
        }
    }
    assert forall|i: int| 0 <= i < ws.len() implies t.lookup((#[trigger] ws[i]).0) == Some(
        ws[i].1,
    ) by {
        if i < c {
            assert(older[i] == ws[i]);
        } else {
            assert(newer[i - c] == ws[i]);
        }
    }
}

/// After `2c` writes under pairwise distinct keys into an empty cache of
/// capacity `c`, one more write flips the cache a second time and drops each
/// of the first `c` writes, but one under its own key.
pub proof fn law_third_generation_drops_first<K, V>(c: nat, ws: Seq<(K, V)>, k: K, v: V, i: int)
    requires
        c > 0,
        ws.len() == 2 * c,
        distinct_keys(ws),
        0 <= i < c,
        ws[i].0 != k,
    ensures
        CacheState::<K, V>::empty(c).put_all(ws).put(k, v).lookup(ws[i].0) is None,
        CacheState::<K, V>::empty(c).put_all(ws).put(k, v).flips == 2,
{
    law_two_generations(c, ws);
    let t = CacheState::<K, V>::empty(c).put_all(ws);
    lemma_distinct_subrange(ws, 0, c as int);
    lemma_entries_distinct(ws.take(c as int));
    assert(ws.take(c as int)[i] == ws[i]);
    law_flip_drops_previous(t, ws[i].0, k, v);
}

/// After `2c` writes under pairwise distinct keys into an empty cache of
/// capacity `c`, a read of one of the first `c` writes finds it, flips the
/// cache a second time and so drops the others of the first `c`.
pub proof fn law_read_drops_rest_of_first<K, V>(c: nat, ws: Seq<(K, V)>, i: int, j: int)
    requires
        c > 0,
        ws.len() == 2 * c,
        distinct_keys(ws),
        0 <= i < c,
        0 <= j < c,
        i != j,
    ensures
        CacheState::<K, V>::empty(c).put_all(ws).lookup(ws[i].0) == Some(ws[i].1),
        CacheState::<K, V>::empty(c).put_all(ws).promote(ws[i].0).lookup(ws[i].0) == Some(
            ws[i].1,
        ),
        CacheState::<K, V>::empty(c).put_all(ws).promote(ws[i].0).lookup(ws[j].0) is None,
        CacheState::<K, V>::empty(c).put_all(ws).promote(ws[i].0).flips == 2,
{
    law_two_generations(c, ws);
    let t = CacheState::<K, V>::empty(c).put_all(ws);
    let older = ws.take(c as int);
    lemma_distinct_subrange(ws, 0, c as int);
    lemma_entries_distinct(older);
    assert(t.previous.contains_key(older[i].0));
    assert(t.previous.contains_key(older[j].0));
    assert(ws[i].0 != ws[j].0) by {
        if i < j {
            assert(ws[i].0 != ws[j].0);
        } else {
            assert(ws[j].0 != ws[i].0);
        }
    }
    law_flip_drops_previous(t, ws[j].0, ws[i].0, ws[i].1);
}

} // verus!
