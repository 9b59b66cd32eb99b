//! The hash set that answers whether a chunk key is stale, and what is taken
//! on trust about it.
use ahash::AHashSet;
use vstd::prelude::*;

verus! {

#[verifier::external_type_specification]
#[verifier::external_body]
#[verifier::reject_recursive_types(T)]
#[verifier::reject_recursive_types(S)]
pub struct ExAHashSet<T, S>(AHashSet<T, S>);

/// A set of chunk keys.
pub type KeySet = AHashSet<u64>;

/// The keys that a set holds.
pub uninterp spec fn key_set(s: KeySet) -> Set<u64>;

/// `AHashSet::new`: a set that holds nothing.
#[verifier::external_body]
pub(crate) fn key_set_new() -> (s: KeySet)
    ensures
        key_set(s) == Set::<u64>::empty(),
{
    AHashSet::new()
}

/// `HashSet::insert`, reached through the set's `DerefMut`: afterwards the
/// set holds `key`; the result says whether it did not before.
#[verifier::external_body]
pub(crate) fn key_set_insert(s: &mut KeySet, key: u64) -> (r: bool)
    ensures
        r == !key_set(*old(s)).contains(key),
        key_set(*final(s)) == key_set(*old(s)).insert(key),
{
    s.insert(key)
}

/// `HashSet::remove`, reached through the set's `DerefMut`: afterwards the
/// set does not hold `key`; the result says whether it did before.
#[verifier::external_body]
pub(crate) fn key_set_remove(s: &mut KeySet, key: u64) -> (r: bool)
    ensures
        r == key_set(*old(s)).contains(key),
        key_set(*final(s)) == key_set(*old(s)).remove(key),
{
    s.remove(&key)
}

/// `HashSet::contains`, reached through the set's `Deref`: whether the set
/// holds `key`.
#[verifier::external_body]
pub(crate) fn key_set_contains(s: &KeySet, key: u64) -> (r: bool)
    ensures
        r == key_set(*s).contains(key),
{
    s.contains(&key)
}

/// `HashSet::clear`, reached through the set's `DerefMut`: afterwards the
/// set holds nothing.
#[verifier::external_body]
pub(crate) fn key_set_clear(s: &mut KeySet)
    ensures
        key_set(*final(s)) == Set::<u64>::empty(),
{
    s.clear();
}

} // verus!
