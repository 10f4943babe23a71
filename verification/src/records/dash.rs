//! Concurrent maps and sets, from the `dashmap` crate.

use dashmap::{DashMap, DashSet};
use std::collections::hash_map::RandomState;
use vstd::prelude::*;
use crate::records::row::{Record, RecordModel, copied_record};
use crate::text::chars::texts;

verus! {

#[verifier::external_type_specification]
#[verifier::external_body]
#[verifier::reject_recursive_types(K)]
#[verifier::reject_recursive_types(V)]
#[verifier::reject_recursive_types(S)]
pub struct ExDashMap<K, V, S>(dashmap::DashMap<K, V, S>);

#[verifier::external_type_specification]
#[verifier::external_body]
#[verifier::reject_recursive_types(K)]
#[verifier::reject_recursive_types(S)]
pub struct ExDashSet<K, S>(dashmap::DashSet<K, S>);

/// The records that a map holds, under their keys.
pub uninterp spec fn map_rows(map: DashMap<String, Record, RandomState>) -> Map<
    Seq<char>,
    RecordModel,
>;

/// The texts that a set holds.
pub uninterp spec fn set_texts(set: DashSet<String, RandomState>) -> Set<Seq<char>>;

/// `DashMap::new`: an empty map.
#[verifier::external_body]
pub(crate) fn new_map() -> (r: DashMap<String, Record, RandomState>)
    ensures
        map_rows(r).dom() == Set::<Seq<char>>::empty(),
{
    DashMap::new()
}

/// `DashMap::len`: the number of keys.
#[verifier::external_body]
pub(crate) fn map_len(map: &DashMap<String, Record, RandomState>) -> (r: usize)
    ensures
        r == map_rows(*map).dom().len(),
{
    map.len()
}

/// `DashMap::contains_key`: whether there is a value under the key.
#[verifier::external_body]
pub(crate) fn map_contains(map: &DashMap<String, Record, RandomState>, key: &String) -> (r: bool)
    ensures
        r == map_rows(*map).dom().contains(key@),
{
    map.contains_key(key)
}

/// `DashMap::insert`: sets the value under the key, and leaves the others.
#[verifier::external_body]
pub(crate) fn map_insert(
    map: &mut DashMap<String, Record, RandomState>,
    key: String,
    value: Record,
)
    ensures
        map_rows(*final(map)) == map_rows(*old(map)).insert(key@, value@),
{
    map.insert(key, value);
}

/// `DashMap::get`: the value under the key, copied.
#[verifier::external_body]
pub(crate) fn map_get(map: &DashMap<String, Record, RandomState>, key: &String) -> (r: Option<
    Record,
>)
    ensures
        match r {
            Some(v) => map_rows(*map).dom().contains(key@) && v@ == map_rows(*map)[key@],
            None => !map_rows(*map).dom().contains(key@),
        },
{
    map.get(key).map(|r| copied_record(r.value()))
}

/// `DashMap::remove`: removes the key, and tells whether it was there.
#[verifier::external_body]
pub(crate) fn map_remove(map: &mut DashMap<String, Record, RandomState>, key: &String) -> (r: bool)
    ensures
        map_rows(*final(map)) == map_rows(*old(map)).remove(key@),
        r == map_rows(*old(map)).dom().contains(key@),
{
    map.remove(key).is_some()
}

/// The entries are those of the map, each once.
pub open spec fn are_entries(
    entries: Seq<(Seq<char>, RecordModel)>,
    rows: Map<Seq<char>, RecordModel>,
) -> bool {
    &&& forall|i: int|
        0 <= i < entries.len() ==> rows.dom().contains((#[trigger] entries[i]).0)
            && rows[entries[i].0] == entries[i].1
    &&& forall|i: int, j: int|
        0 <= i < j < entries.len() ==> (#[trigger] entries[i]).0 != (#[trigger] entries[j]).0
    &&& forall|k: Seq<char>| #[trigger]
        rows.dom().contains(k) ==> exists|i: int|
            0 <= i < entries.len() && (#[trigger] entries[i]).0 == k
}

pub open spec fn entry_views(entries: Seq<(String, Record)>) -> Seq<(Seq<char>, RecordModel)> {
    entries.map_values(|e: (String, Record)| (e.0@, e.1@))
}

/// `DashMap::iter`: every entry once, copied. Their order is left open.
#[verifier::external_body]
pub(crate) fn map_entries(map: &DashMap<String, Record, RandomState>) -> (r: Vec<(String, Record)>)
    ensures
        are_entries(entry_views(r@), map_rows(*map)),
{
    map.iter().map(|e| (e.key().clone(), copied_record(e.value()))).collect()
}

/// `DashSet::new`: an empty set.
#[verifier::external_body]
pub(crate) fn new_set() -> (r: DashSet<String, RandomState>)
    ensures
        set_texts(r) == Set::<Seq<char>>::empty(),
{
    DashSet::new()
}

/// `DashSet::insert`: adds the text.
#[verifier::external_body]
pub(crate) fn set_insert(set: &mut DashSet<String, RandomState>, text: String)
    ensures
        set_texts(*final(set)) == set_texts(*old(set)).insert(text@),
{
    set.insert(text);
}

/// `DashSet::remove`: removes the text.
#[verifier::external_body]
pub(crate) fn set_remove(set: &mut DashSet<String, RandomState>, text: &String)
    ensures
        set_texts(*final(set)) == set_texts(*old(set)).remove(text@),
{
    set.remove(text);
}

/// `DashSet::contains`: whether the text is there.
#[verifier::external_body]
pub(crate) fn set_contains(set: &DashSet<String, RandomState>, text: &String) -> (r: bool)
    ensures
        r == set_texts(*set).contains(text@),
{
    set.contains(text)
}

/// `DashSet::iter`: every text once, copied. Their order is left open.
#[verifier::external_body]
pub(crate) fn set_list(set: &DashSet<String, RandomState>) -> (r: Vec<String>)
    ensures
        texts(r@).to_set() == set_texts(*set),
        texts(r@).no_duplicates(),
{
    set.iter().map(|e| e.key().clone()).collect()
}

} // verus!
