//! The hash collections of `bevy_platform`, with the contracts this library relies on.
use crate::id::Entity;
use vstd::prelude::*;

verus! {

/// The hash map of `bevy_platform::collections`.
#[verifier::external_type_specification]
#[verifier::external_body]
#[verifier::reject_recursive_types(K)]
#[verifier::reject_recursive_types(V)]
#[verifier::reject_recursive_types(S)]
pub struct ExHashMap<K, V, S>(bevy_platform::collections::HashMap<K, V, S>);

/// The hash set of `bevy_platform::collections`.
#[verifier::external_type_specification]
#[verifier::external_body]
#[verifier::reject_recursive_types(T)]
#[verifier::reject_recursive_types(S)]
pub struct ExHashSet<T, S>(bevy_platform::collections::HashSet<T, S>);

/// The default hasher of `bevy_platform`'s collections.
#[verifier::external_type_specification]
#[verifier::external_body]
pub struct ExFixedHasher(bevy_platform::hash::FixedHasher);

/// A map from component to the effects listed under it.
pub type EntityLists = bevy_platform::collections::HashMap<u64, Vec<Entity>, bevy_platform::hash::FixedHasher>;

/// A set of entity identifiers.
pub type EntityBits = bevy_platform::collections::HashSet<u64, bevy_platform::hash::FixedHasher>;

/// What a map of entity lists holds: its keys, and the list under each.
pub uninterp spec fn listed(lists: EntityLists) -> Map<u64, Seq<Entity>>;

/// What a set of entity identifiers holds.
pub uninterp spec fn members(bits: EntityBits) -> Set<u64>;

/// Calls `HashMap::default`: the new map holds nothing.
#[verifier::external_body]
pub(crate) fn lists_default() -> (lists: EntityLists)
    ensures
        listed(lists).dom() == Set::<u64>::empty(),
{
    EntityLists::default()
}

/// Calls `HashMap::get`: the list under `key`, if there is one.
#[verifier::external_body]
pub(crate) fn lists_get<'a>(lists: &'a EntityLists, key: u64) -> (list: Option<&'a Vec<Entity>>)
    ensures
        list is Some <==> listed(*lists).contains_key(key),
        list matches Some(l) ==> l@ == listed(*lists)[key],
{
    lists.get(&key)
}

/// Calls `HashMap::get_mut`: hands out the list under `key`, if there is one, to be changed in
/// place. Every other key keeps its list.
#[verifier::external_body]
pub(crate) fn lists_get_mut<'a>(lists: &'a mut EntityLists, key: u64) -> (list: Option<&'a mut Vec<Entity>>)
    ensures
        list is Some <==> listed(*old(lists)).contains_key(key),
        match list {
            Some(l) => {
                &&& l@ == listed(*old(lists))[key]
                &&& listed(*final(lists)) == listed(*old(lists)).insert(key, final(l)@)
            },
            None => listed(*final(lists)) == listed(*old(lists)),
        },
{
    lists.get_mut(&key)
}

/// Calls `HashMap::entry` and `Entry::or_default`: hands out the list under `key` to be changed
/// in place, after putting an empty one there if the key was absent. Every other key keeps its
/// list.
#[verifier::external_body]
pub(crate) fn lists_entry_or_default<'a>(lists: &'a mut EntityLists, key: u64) -> (list: &'a mut Vec<Entity>)
    ensures
        list@ == (if listed(*old(lists)).contains_key(key) {
            listed(*old(lists))[key]
        } else {
            Seq::<Entity>::empty()
        }),
        listed(*final(lists)) == listed(*old(lists)).insert(key, final(list)@),
{
    lists.entry(key).or_default()
}

/// Calls `HashMap::iter`: hands out every key with its list, each key once, in an order that is
/// left open.
#[verifier::external_body]
pub(crate) fn lists_iter<'a>(lists: &'a EntityLists) -> (entries: Vec<(u64, &'a Vec<Entity>)>)
    ensures
        forall|i: int| 0 <= i < entries@.len() ==> {
            &&& listed(*lists).contains_key((#[trigger] entries@[i]).0)
            &&& listed(*lists)[entries@[i].0] == entries@[i].1@
        },
        forall|i: int, j: int|
            0 <= i < j < entries@.len() ==> (#[trigger] entries@[i]).0 != (#[trigger] entries@[j]).0,
        forall|key: u64|
            #[trigger] listed(*lists).contains_key(key) ==> exists|i: int|
                0 <= i < entries@.len() && (#[trigger] entries@[i]).0 == key,
{
    lists.iter().map(|entry| (*entry.0, entry.1)).collect()
}

/// Calls `HashSet::default`: the new set holds nothing.
#[verifier::external_body]
pub(crate) fn bits_default() -> (bits: EntityBits)
    ensures
        members(bits) == Set::<u64>::empty(),
{
    EntityBits::default()
}

/// Calls `HashSet::insert`: adds `id`, and tells whether it was absent before.
#[verifier::external_body]
pub(crate) fn bits_insert(bits: &mut EntityBits, id: u64) -> (added: bool)
    ensures
        added == !members(*old(bits)).contains(id),
        members(*final(bits)) == members(*old(bits)).insert(id),
{
    bits.insert(id)
}

/// Calls `HashSet::clear`: nothing is left in the set.
#[verifier::external_body]
pub(crate) fn bits_clear(bits: &mut EntityBits)
    ensures
        members(*final(bits)) == Set::<u64>::empty(),
{
    bits.clear()
}

} // verus!
