//! Insertion-ordered sets and maps.
//!
//! The collections themselves are `indexmap`'s. Verus sees them as opaque
//! values whose contents are named by the uninterpreted functions below; each
//! wrapper states, over those names, what the wrapped method is documented to
//! do. Nothing in this file is proved: it is the boundary to the outside crate.

use indexmap::IndexMap;
use indexmap::IndexSet;
use vstd::prelude::*;

verus! {

#[verifier::external_type_specification]
#[verifier::external_body]
#[verifier::reject_recursive_types(T)]
#[verifier::reject_recursive_types(S)]
pub struct ExIndexSet<T, S>(IndexSet<T, S>);

#[verifier::external_type_specification]
#[verifier::external_body]
#[verifier::reject_recursive_types(K)]
#[verifier::reject_recursive_types(V)]
#[verifier::reject_recursive_types(S)]
pub struct ExIndexMap<K, V, S>(IndexMap<K, V, S>);

/// Whether `index` is the one position of `items` that holds `value`.
pub open spec fn holds_once<T>(items: Seq<T>, value: T, index: int) -> bool {
    &&& 0 <= index < items.len()
    &&& items[index] == value
    &&& forall|other: int| 0 <= other < items.len() && items[other] == value ==> other == index
}

/// The items of a set of indices, in insertion order.
pub uninterp spec fn index_set_items(set: IndexSet<usize>) -> Seq<usize>;

/// The entries of a map from indices to indices.
pub uninterp spec fn index_map_entries(map: IndexMap<usize, usize>) -> Map<usize, usize>;

/// The items of a set of names, in insertion order.
pub uninterp spec fn name_set_items(set: IndexSet<String>) -> Seq<Seq<char>>;

/// `IndexSet::new`: a set without items.
#[verifier::external_body]
pub(crate) fn index_set_new() -> (created: IndexSet<usize>)
    ensures
        index_set_items(created) == Seq::<usize>::empty(),
{
    IndexSet::new()
}

/// `IndexSet::len`: the number of items.
#[verifier::external_body]
pub(crate) fn index_set_len(set: &IndexSet<usize>) -> (len: usize)
    ensures
        len == index_set_items(*set).len(),
{
    set.len()
}

/// `IndexSet::get_index_of`: the position of an item that is present, which
/// is the only position that holds it, and `None` for one that is absent.
#[verifier::external_body]
pub(crate) fn index_set_get_index_of(set: &IndexSet<usize>, value: usize) -> (found: Option<usize>)
    ensures
        match found {
            Some(index) => holds_once(index_set_items(*set), value, index as int),
            None => !index_set_items(*set).contains(value),
        },
{
    set.get_index_of(&value)
}

/// `IndexSet::get_index`: the item at a position, if the position is in range.
#[verifier::external_body]
pub(crate) fn index_set_get_index(set: &IndexSet<usize>, index: usize) -> (item: Option<usize>)
    ensures
        match item {
            Some(value) => index < index_set_items(*set).len() && value == index_set_items(
                *set,
            )[index as int],
            None => index >= index_set_items(*set).len(),
        },
{
    set.get_index(index).copied()
}

/// `IndexSet::insert_full`: an item that is present stays where it is and its
/// position, the only one that holds it, comes back with `false`; an absent
/// one is appended and its position comes back with `true`.
#[verifier::external_body]
pub(crate) fn index_set_insert_full(set: &mut IndexSet<usize>, value: usize) -> (placed: (usize, bool))
    ensures
        placed.1 == !index_set_items(*old(set)).contains(value),
        placed.1 ==> index_set_items(*final(set)) == index_set_items(*old(set)).push(value)
            && placed.0 == index_set_items(*old(set)).len(),
        !placed.1 ==> index_set_items(*final(set)) == index_set_items(*old(set)) && holds_once(
            index_set_items(*old(set)),
            value,
            placed.0 as int,
        ),
{
    set.insert_full(value)
}

/// `IndexMap::new`: a map without entries.
#[verifier::external_body]
pub(crate) fn index_map_new() -> (created: IndexMap<usize, usize>)
    ensures
        index_map_entries(created).dom() == Set::<usize>::empty(),
{
    IndexMap::new()
}

/// `IndexMap::get`: the value stored under a key, if the key is present.
#[verifier::external_body]
pub(crate) fn index_map_get(map: &IndexMap<usize, usize>, key: usize) -> (value: Option<usize>)
    ensures
        match value {
            Some(v) => index_map_entries(*map).contains_key(key) && index_map_entries(*map)[key]
                == v,
            None => !index_map_entries(*map).contains_key(key),
        },
{
    map.get(&key).copied()
}

/// `IndexMap::insert`: the key holds the new value afterwards, other keys
/// are untouched, and the value that the key held before comes back.
#[verifier::external_body]
pub(crate) fn index_map_insert(map: &mut IndexMap<usize, usize>, key: usize, value: usize) -> (previous: Option<usize>)
    ensures
        index_map_entries(*final(map)) == index_map_entries(*old(map)).insert(key, value),
        match previous {
            Some(v) => index_map_entries(*old(map)).contains_key(key) && index_map_entries(
                *old(map),
            )[key] == v,
            None => !index_map_entries(*old(map)).contains_key(key),
        },
{
    map.insert(key, value)
}

/// The items of a set of index triples, in insertion order.
pub uninterp spec fn triple_set_items(set: IndexSet<(i32, i32, i32)>) -> Seq<(i32, i32, i32)>;

/// `IndexSet::new`: a set without items.
#[verifier::external_body]
pub(crate) fn triple_set_new() -> (created: IndexSet<(i32, i32, i32)>)
    ensures
        triple_set_items(created).len() == 0,
{
    IndexSet::new()
}

/// `IndexSet::insert_full`: a triple that is present stays where it is and
/// its position, the only one that holds it, comes back with `false`; an
/// absent one is appended and its position comes back with `true`.
#[verifier::external_body]
pub(crate) fn triple_set_insert_full(set: &mut IndexSet<(i32, i32, i32)>, triple: (i32, i32, i32)) -> (placed: (
    usize,
    bool,
))
    ensures
        placed.1 == !triple_set_items(*old(set)).contains(triple),
        placed.1 ==> triple_set_items(*final(set)) == triple_set_items(*old(set)).push(triple)
            && placed.0 == triple_set_items(*old(set)).len(),
        !placed.1 ==> triple_set_items(*final(set)) == triple_set_items(*old(set)) && holds_once(
            triple_set_items(*old(set)),
            triple,
            placed.0 as int,
        ),
{
    set.insert_full(triple)
}

/// `IndexSet::new`: a set without items.
#[verifier::external_body]
pub(crate) fn name_set_new() -> (created: IndexSet<String>)
    ensures
        name_set_items(created) == Seq::<Seq<char>>::empty(),
{
    IndexSet::new()
}

/// `IndexSet::len`: the number of items.
#[verifier::external_body]
pub(crate) fn name_set_len(set: &IndexSet<String>) -> (len: usize)
    ensures
        len == name_set_items(*set).len(),
{
    set.len()
}

/// `IndexSet::get_index_of`: the position of a name that is present, which
/// is the only position that holds it, and `None` for one that is absent.
#[verifier::external_body]
pub(crate) fn name_set_get_index_of(set: &IndexSet<String>, name: &str) -> (found: Option<usize>)
    ensures
        match found {
            Some(index) => holds_once(name_set_items(*set), name@, index as int),
            None => !name_set_items(*set).contains(name@),
        },
{
    set.get_index_of(name)
}

/// `IndexSet::get_index`: the name at a position, if the position is in range.
#[verifier::external_body]
pub(crate) fn name_set_get_index(set: &IndexSet<String>, index: usize) -> (name: Option<&String>)
    ensures
        match name {
            Some(n) => index < name_set_items(*set).len() && n@ == name_set_items(*set)[index as int],
            None => index >= name_set_items(*set).len(),
        },
{
    set.get_index(index)
}

/// `IndexSet::insert_full`: a name that is present stays where it is and its
/// position, the only one that holds it, comes back with `false`; an absent
/// one is appended and its position comes back with `true`.
#[verifier::external_body]
pub(crate) fn name_set_insert_full(set: &mut IndexSet<String>, name: String) -> (placed: (usize, bool))
    ensures
        placed.1 == !name_set_items(*old(set)).contains(name@),
        placed.1 ==> name_set_items(*final(set)) == name_set_items(*old(set)).push(name@)
            && placed.0 == name_set_items(*old(set)).len(),
        !placed.1 ==> name_set_items(*final(set)) == name_set_items(*old(set)) && holds_once(
            name_set_items(*old(set)),
            name@,
            placed.0 as int,
        ),
{
    set.insert_full(name)
}

/// `IndexSet::shift_remove_index`: the name at a position in range is taken
/// out and those behind it move up by one; out of range, nothing changes.
#[verifier::external_body]
pub(crate) fn name_set_shift_remove_index(set: &mut IndexSet<String>, index: usize) -> (removed: Option<String>)
    ensures
        match removed {
            Some(n) => index < name_set_items(*old(set)).len() && n@ == name_set_items(
                *old(set),
            )[index as int] && name_set_items(*final(set)) == name_set_items(*old(set)).remove(
                index as int,
            ),
            None => index >= name_set_items(*old(set)).len() && name_set_items(*final(set))
                == name_set_items(*old(set)),
        },
{
    set.shift_remove_index(index)
}

} // verus!
