//! Hash maps with the Fx hasher, keyed by words.

use std::collections::HashMap;
use vstd::prelude::*;
use rustc_hash::FxBuildHasher;

verus! {

/// `rustc_hash::FxBuildHasher`, which has no state.
#[verifier::external_type_specification]
#[verifier::external_body]
pub struct ExFxBuildHasher(rustc_hash::FxBuildHasher);

/// `HashMap::with_capacity_and_hasher` with an `FxBuildHasher`: an empty map. The capacity stays
/// far below any at which it could panic.
#[verifier::external_body]
pub(crate) fn fx_with_capacity<V>(capacity: usize) -> (m: HashMap<u32, V, FxBuildHasher>)
    requires
        capacity <= 0x10000,
    ensures
        m@.dom() == Set::<u32>::empty(),
{
    HashMap::with_capacity_and_hasher(capacity, FxBuildHasher)
}

/// `HashMap::get`: the value stored under a key, if there is one.
#[verifier::external_body]
pub(crate) fn fx_get<V>(m: &HashMap<u32, V, FxBuildHasher>, key: u32) -> (r: Option<&V>)
    ensures
        r is Some == m@.contains_key(key),
        r matches Some(v) ==> *v == m@[key],
{
    m.get(&key)
}

/// `HashMap::insert`: stores a value under a key in place of any earlier one.
#[verifier::external_body]
pub(crate) fn fx_insert<V>(m: &mut HashMap<u32, V, FxBuildHasher>, key: u32, value: V)
    ensures
        final(m)@ == old(m)@.insert(key, value),
{
    m.insert(key, value);
}

/// `HashMap::clear`: removes every entry.
#[verifier::external_body]
pub(crate) fn fx_clear<V>(m: &mut HashMap<u32, V, FxBuildHasher>)
    ensures
        final(m)@.dom() == Set::<u32>::empty(),
{
    m.clear();
}

/// `HashMap::keys`: every key once, in no particular order.
#[verifier::external_body]
pub(crate) fn fx_keys<V>(m: &HashMap<u32, V, FxBuildHasher>) -> (keys: Vec<u32>)
    ensures
        keys@.no_duplicates(),
        forall|k: u32| #[trigger] keys@.contains(k) == m@.contains_key(k),
{
    m.keys().copied().collect()
}

/// How many items a set has, if finitely many.
pub open spec fn size(s: Set<u32>) -> Option<nat> {
    if s.finite() {
        Some(s.len())
    } else {
        None
    }
}

/// `HashMap::len`: the number of entries, of which a map has finitely many.
#[verifier::external_body]
pub(crate) fn fx_len<V>(m: &HashMap<u32, V, FxBuildHasher>) -> (n: usize)
    ensures
        size(m@.dom()) == Some(n as nat),
{
    m.len()
}

} // verus!
