//! The sparse set of block heights whose one-shot notification flag is
//! set, kept in an `intmap::IntMap` keyed by height.

use vstd::prelude::*;

verus! {

/// The integer-keyed map of the `intmap` crate, declared so that its
/// values can be carried in verified code.
#[verifier::external_type_specification]
#[verifier::external_body]
#[verifier::reject_recursive_types(V)]
pub struct ExIntMap<V>(intmap::IntMap<V>);

/// The set of heights the map holds. What a given map holds is defined
/// by the `intmap` crate; the wrappers below state how each call
/// changes it.
pub uninterp spec fn notified_set(m: intmap::IntMap<()>) -> Set<u64>;

/// Relies on intmap::IntMap::new: a fresh map holds no keys.
#[verifier::external_body]
pub(crate) fn notified_new() -> (r: intmap::IntMap<()>)
    ensures
        notified_set(r) == Set::<u64>::empty(),
{
    intmap::IntMap::new()
}

/// Relies on intmap::IntMap::contains_key: whether the key is held.
#[verifier::external_body]
pub(crate) fn notified_contains(m: &intmap::IntMap<()>, key: u64) -> (r: bool)
    ensures
        r == notified_set(*m).contains(key),
{
    m.contains_key(key)
}

/// Relies on intmap::IntMap::insert: adds the key if absent and says
/// whether it did; a held key is left as it is.
#[verifier::external_body]
pub(crate) fn notified_insert(m: &mut intmap::IntMap<()>, key: u64) -> (r: bool)
    ensures
        notified_set(*final(m)) == notified_set(*old(m)).insert(key),
        r == !notified_set(*old(m)).contains(key),
{
    m.insert(key, ())
}

/// Relies on intmap::IntMap::remove: drops the key and says whether it
/// was held.
#[verifier::external_body]
pub(crate) fn notified_remove(m: &mut intmap::IntMap<()>, key: u64) -> (r: bool)
    ensures
        notified_set(*final(m)) == notified_set(*old(m)).remove(key),
        r == notified_set(*old(m)).contains(key),
{
    m.remove(key).is_some()
}

} // verus!
