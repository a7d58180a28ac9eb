//! The insertion-ordered map in which the registry keeps its currencies.
//!
//! The map itself is `indexmap::IndexMap`. Nothing in this file is proved:
//! each function states, for one method of the map, what that method does to
//! the sequence of key-value pairs the map holds. Everything the registry does
//! with the map is proved from these statements.

use vstd::prelude::*;
use indexmap::IndexMap;
use crate::currency::Currency;

verus! {

/// `indexmap::IndexMap`, taken as it is: nothing of its inside is visible to
/// the proofs.
#[verifier::external_type_specification]
#[verifier::external_body]
#[verifier::reject_recursive_types(K)]
#[verifier::reject_recursive_types(V)]
#[verifier::reject_recursive_types(S)]
pub struct ExIndexMap<K, V, S>(IndexMap<K, V, S>);

/// The key-value pairs of `map`, in the order in which the map walks them:
/// the order in which their keys were first inserted.
pub uninterp spec fn entries(map: IndexMap<String, Currency>) -> Seq<(Seq<char>, Currency)>;

/// Whether none of `pairs` has the key `key`.
pub open spec fn lacks_key(pairs: Seq<(Seq<char>, Currency)>, key: Seq<char>) -> bool {
    forall|i: int| 0 <= i < pairs.len() ==> (#[trigger] pairs[i]).0 != key
}

/// `IndexMap::new`: a map that holds nothing.
#[verifier::external_body]
pub(crate) fn map_new() -> (map: IndexMap<String, Currency>)
    ensures
        entries(map) == Seq::<(Seq<char>, Currency)>::empty(),
{
    IndexMap::new()
}

/// `IndexMap::len`: the number of pairs held.
#[verifier::external_body]
pub(crate) fn map_len(map: &IndexMap<String, Currency>) -> (n: usize)
    ensures
        n == entries(*map).len(),
{
    map.len()
}

/// `IndexMap::insert`. Where a pair with an equal key is held, that pair keeps
/// its place, its value is replaced and the old value is returned. Where none
/// is held, the new pair goes to the end and `None` is returned.
#[verifier::external_body]
pub(crate) fn map_insert(
    map: &mut IndexMap<String, Currency>,
    key: String,
    value: Currency,
) -> (displaced: Option<Currency>)
    ensures
        match displaced {
            Some(previous) => exists|i: int|
                0 <= i < entries(*old(map)).len() && #[trigger] entries(*old(map))[i] == (
                    key@,
                    previous,
                ) && entries(*final(map)) == entries(*old(map)).update(i, (key@, value)),
            None => lacks_key(entries(*old(map)), key@) && entries(*final(map)) == entries(
                *old(map),
            ).push((key@, value)),
        },
{
    map.insert(key, value)
}

/// `IndexMap::get`: the value of a pair whose key equals `key`, or `None`
/// where no pair has that key.
#[verifier::external_body]
pub(crate) fn map_get<'a>(map: &'a IndexMap<String, Currency>, key: &str) -> (found: Option<
    &'a Currency,
>)
    ensures
        match found {
            Some(value) => exists|i: int|
                0 <= i < entries(*map).len() && #[trigger] entries(*map)[i] == (key@, *value),
            None => lacks_key(entries(*map), key@),
        },
{
    map.get(key)
}

/// `IndexMap::get_mut`: as `get`, but the value is handed out for writing.
/// What the caller leaves in it is what the pair holds afterwards; the key,
/// the place of the pair and all other pairs stay as they are. The call only
/// hashes and compares strings, so it never panics.
#[verifier::external_body]
pub(crate) fn map_get_mut<'a>(map: &'a mut IndexMap<String, Currency>, key: &str) -> (found:
    Option<&'a mut Currency>)
    ensures
        match found {
            Some(value) => exists|i: int|
                0 <= i < entries(*old(map)).len() && #[trigger] entries(*old(map))[i] == (
                    key@,
                    *value,
                ) && entries(*final(map)) == entries(*old(map)).update(i, (key@, *final(value))),
            None => lacks_key(entries(*old(map)), key@) && entries(*final(map)) == entries(
                *old(map),
            ),
        },
    no_unwind
{
    map.get_mut(key)
}

/// `IndexMap::get_index`: the pair at place `index`, or `None` where `index`
/// is not below the number of pairs.
#[verifier::external_body]
pub(crate) fn map_get_index<'a>(map: &'a IndexMap<String, Currency>, index: usize) -> (found:
    Option<(&'a String, &'a Currency)>)
    ensures
        match found {
            Some((key, value)) => index < entries(*map).len() && entries(*map)[index as int] == (
                key@,
                *value,
            ),
            None => index >= entries(*map).len(),
        },
{
    map.get_index(index)
}

} // verus!
