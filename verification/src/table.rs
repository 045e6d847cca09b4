//! The two operations of `std::collections::HashMap` that the cache needs and
//! that come without a contract. Nothing here is proved: each contract states
//! what the standard library documents, over the map's view.

use core::hash::Hash;
use std::collections::HashMap;
use vstd::prelude::*;
use vstd::std_specs::hash::*;

verus! {

/// `HashMap::remove_entry`: removes the entry under `k`, if there is one, and
/// hands back its stored key and value. Assumed, for a key type whose hash is
/// deterministic and whose `==` holds of identical keys only: the map
/// afterwards is the map before without `k`; the result is `None` exactly
/// when `k` was absent, and otherwise holds the stored key, which is then
/// identical to `k`, and the value that was stored.
#[verifier::external_body]
pub(crate) fn take_entry<K: Hash + Eq, V>(m: &mut HashMap<K, V>, k: &K) -> (r: Option<(K, V)>)
    ensures
        obeys_key_model::<K>() ==> final(m)@ == old(m)@.remove(*k),
        obeys_key_model::<K>() ==> match r {
            Some((rk, rv)) => old(m)@.contains_key(*k) && rk == *k && rv == old(m)@[*k],
            None => !old(m)@.contains_key(*k),
        },
{
    m.remove_entry(k)
}

/// `HashMap::get_mut`: a mutable reference to the value under `k`, if there is
/// one. Assumed, for such a key type: the result is `None` exactly when `k` is
/// absent, and then the map is unchanged; otherwise the reference starts at
/// the stored value, and the map ends as the map before with `k` mapped to
/// whatever the reference holds when the borrow ends.
#[verifier::external_body]
pub(crate) fn value_mut<'a, K: Hash + Eq, V>(m: &'a mut HashMap<K, V>, k: &K) -> (r: Option<
    &'a mut V,
>)
    ensures
        obeys_key_model::<K>() ==> match r {
            Some(v) => old(m)@.contains_key(*k) && *v == old(m)@[*k] && final(m)@ == old(
                m,
            )@.insert(*k, *final(v)),
            None => !old(m)@.contains_key(*k) && final(m)@ == old(m)@,
        },
{
    m.get_mut(k)
}

} // verus!
