//! The insertion-ordered collections of the `indexmap` crate, as the contracts
//! see them.
use indexmap::{IndexMap, IndexSet};
use vstd::prelude::*;

verus! {

/// The set type of the `indexmap` crate. Nothing is known of it but its name.
#[verifier::external_type_specification]
#[verifier::external_body]
#[verifier::reject_recursive_types(T)]
#[verifier::reject_recursive_types(S)]
pub struct ExIndexSet<T, S>(indexmap::IndexSet<T, S>);

/// The map type of the `indexmap` crate. Nothing is known of it but its name.
#[verifier::external_type_specification]
#[verifier::external_body]
#[verifier::reject_recursive_types(K)]
#[verifier::reject_recursive_types(V)]
#[verifier::reject_recursive_types(S)]
pub struct ExIndexMap<K, V, S>(indexmap::IndexMap<K, V, S>);

/// The windows that a set holds, in the set's order.
pub uninterp spec fn window_items(set: IndexSet<isize>) -> Seq<isize>;

/// The hotkey numbers that a set holds, in the set's order.
pub uninterp spec fn hotkey_items(set: IndexSet<u32>) -> Seq<u32>;

/// The entries of a map from text to text, in the map's order.
pub uninterp spec fn text_entries(map: IndexMap<String, String>) -> Seq<(Seq<char>, Seq<char>)>;

/// `items` after `id` was taken out by moving the last item into its place.
pub open spec fn swap_removed(items: Seq<isize>, id: isize) -> Seq<isize> {
    if items.contains(id) {
        items.update(items.index_of(id), items.last()).drop_last()
    } else {
        items
    }
}

/// `IndexSet::new`: a set without items.
#[verifier::external_body]
pub(crate) fn new_window_set() -> (set: IndexSet<isize>)
    ensures
        window_items(set) == Seq::<isize>::empty(),
{
    IndexSet::new()
}

/// `IndexSet::insert`: an item that is not there yet goes to the end; one that is
/// there leaves the set as it was.
#[verifier::external_body]
pub(crate) fn insert_window(set: &mut IndexSet<isize>, id: isize)
    ensures
        window_items(*final(set)) == (if window_items(*old(set)).contains(id) {
            window_items(*old(set))
        } else {
            window_items(*old(set)).push(id)
        }),
{
    set.insert(id);
}

/// `IndexSet::contains`: whether the item is there.
#[verifier::external_body]
pub(crate) fn has_window(set: &IndexSet<isize>, id: isize) -> (found: bool)
    ensures
        found == window_items(*set).contains(id),
{
    set.contains(&id)
}

/// `IndexSet::swap_remove`: the item is swapped with the last one and popped off;
/// a set that lacks the item stays as it was.
#[verifier::external_body]
pub(crate) fn swap_remove_window(set: &mut IndexSet<isize>, id: isize)
    ensures
        window_items(*final(set)) == swap_removed(window_items(*old(set)), id),
{
    set.swap_remove(&id);
}

/// `IndexSet::into_iter`: hands out the items in the set's order.
#[verifier::external_body]
pub(crate) fn windows_of_set(set: IndexSet<isize>) -> (ids: Vec<isize>)
    ensures
        ids@ == window_items(set),
{
    set.into_iter().collect()
}

/// `IndexSet::new`: a set without items.
#[verifier::external_body]
pub(crate) fn new_hotkey_set() -> (set: IndexSet<u32>)
    ensures
        hotkey_items(set) == Seq::<u32>::empty(),
{
    IndexSet::new()
}

/// `IndexSet::insert`: an item that is not there yet goes to the end; one that is
/// there leaves the set as it was.
#[verifier::external_body]
pub(crate) fn insert_hotkey(set: &mut IndexSet<u32>, id: u32)
    ensures
        hotkey_items(*final(set)) == (if hotkey_items(*old(set)).contains(id) {
            hotkey_items(*old(set))
        } else {
            hotkey_items(*old(set)).push(id)
        }),
{
    set.insert(id);
}

/// `IndexSet::into_iter`: hands out the items in the set's order.
#[verifier::external_body]
pub(crate) fn hotkeys_of_set(set: IndexSet<u32>) -> (ids: Vec<u32>)
    ensures
        ids@ == hotkey_items(set),
{
    set.into_iter().collect()
}

/// `IndexMap::get_index`: the entry at a place of the map's order, if there is one.
#[verifier::external_body]
pub(crate) fn text_entry(map: &IndexMap<String, String>, index: usize) -> (entry: Option<
    (&String, &String),
>)
    ensures
        match entry {
            Some((key, value)) => index < text_entries(*map).len() && (key@, value@)
                == text_entries(*map)[index as int],
            None => index >= text_entries(*map).len(),
        },
{
    map.get_index(index)
}

/// `IndexMap::clone`: a map with the same entries in the same order.
#[verifier::external_body]
pub(crate) fn clone_text_map(map: &IndexMap<String, String>) -> (copy: IndexMap<String, String>)
    ensures
        text_entries(copy) == text_entries(*map),
{
    map.clone()
}

} // verus!
