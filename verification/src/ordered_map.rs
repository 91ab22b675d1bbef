//! The insertion-ordered map that holds the posts, and what is taken on
//! trust about it.

use linked_hash_map::LinkedHashMap;
use vstd::prelude::*;
use crate::post::{Post, PostView};

verus! {

#[verifier::external_type_specification]
#[verifier::external_body]
#[verifier::reject_recursive_types(K)]
#[verifier::reject_recursive_types(V)]
#[verifier::reject_recursive_types(S)]
pub struct ExLinkedHashMap<K, V, S>(LinkedHashMap<K, V, S>);

/// The entries of a map, oldest insertion first: each key with the view of
/// its post.
pub uninterp spec fn entries(map: LinkedHashMap<usize, Post>) -> Seq<(usize, PostView)>;

/// Whether some entry has the given key.
pub open spec fn has_key(e: Seq<(usize, PostView)>, key: usize) -> bool {
    exists|i: int| 0 <= i < e.len() && (#[trigger] e[i]).0 == key
}

/// Calls `LinkedHashMap::new`. Trusted: the new map has no entries.
#[verifier::external_body]
pub(crate) fn map_new() -> (map: LinkedHashMap<usize, Post>)
    ensures
        entries(map) == Seq::<(usize, PostView)>::empty(),
{
    LinkedHashMap::new()
}

/// Calls `LinkedHashMap::len`. Trusted: it is the number of entries.
#[verifier::external_body]
pub(crate) fn map_len(map: &LinkedHashMap<usize, Post>) -> (n: usize)
    ensures
        n == entries(*map).len(),
{
    map.len()
}

/// Calls `LinkedHashMap::insert`. Trusted: a new key is appended after all
/// entries and nothing is returned; an existing key has its entry taken out,
/// appended again with the new value, and the old value returned.
#[verifier::external_body]
pub(crate) fn map_insert(
    map: &mut LinkedHashMap<usize, Post>,
    key: usize,
    value: Post,
) -> (prev: Option<Post>)
    ensures
        match prev {
            None => !has_key(entries(*old(map)), key) && entries(*final(map)) == entries(
                *old(map),
            ).push((key, value@)),
            Some(p) => exists|i: int|
                0 <= i < entries(*old(map)).len() && #[trigger] entries(*old(map))[i] == (key, p@)
                    && entries(*final(map)) == entries(*old(map)).remove(i).push((key, value@)),
        },
{
    map.insert(key, value)
}

/// Calls `LinkedHashMap::get`. Trusted: it finds the value of the entry with
/// that key, and nothing where no entry has it.
#[verifier::external_body]
pub(crate) fn map_get(map: &LinkedHashMap<usize, Post>, key: usize) -> (found: Option<&Post>)
    ensures
        match found {
            None => !has_key(entries(*map), key),
            Some(p) => exists|i: int|
                0 <= i < entries(*map).len() && #[trigger] entries(*map)[i] == (key, p@),
        },
{
    map.get(&key)
}

/// Calls `LinkedHashMap::get_mut`. Trusted: it finds the value of the entry
/// with that key, which keeps its key and its place whatever is written
/// through the reference; where no entry has the key the map stays as it is.
#[verifier::external_body]
pub(crate) fn map_get_mut(
    map: &mut LinkedHashMap<usize, Post>,
    key: usize,
) -> (found: Option<&mut Post>)
    ensures
        match found {
            None => !has_key(entries(*old(map)), key) && entries(*final(map)) == entries(*old(map)),
            Some(p) => exists|i: int|
                0 <= i < entries(*old(map)).len() && #[trigger] entries(*old(map))[i] == (
                    key,
                    (*p)@,
                ) && entries(*final(map)) == entries(*old(map)).update(i, (key, (*final(p))@)),
        },
{
    map.get_mut(&key)
}

/// Calls `LinkedHashMap::remove`. Trusted: the entry with that key leaves,
/// the others keep their order, and the value that left is returned; where
/// no entry has the key the map stays as it is.
#[verifier::external_body]
pub(crate) fn map_remove(
    map: &mut LinkedHashMap<usize, Post>,
    key: usize,
) -> (removed: Option<Post>)
    ensures
        match removed {
            None => !has_key(entries(*old(map)), key) && entries(*final(map)) == entries(*old(map)),
            Some(p) => exists|i: int|
                0 <= i < entries(*old(map)).len() && #[trigger] entries(*old(map))[i] == (key, p@)
                    && entries(*final(map)) == entries(*old(map)).remove(i),
        },
{
    map.remove(&key)
}

/// Calls `LinkedHashMap::values` and collects the references. Trusted: the
/// values come in the order of the entries, one for each.
#[verifier::external_body]
pub(crate) fn map_values(map: &LinkedHashMap<usize, Post>) -> (values: Vec<&Post>)
    ensures
        values@.len() == entries(*map).len(),
        forall|i: int| 0 <= i < values@.len() ==> (#[trigger] values@[i])@ == entries(*map)[i].1,
{
    map.values().collect()
}

} // verus!
