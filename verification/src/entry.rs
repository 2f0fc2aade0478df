//! What a row type has to offer to be shown in the list.

use crate::sort_key::SortKey;
use crate::sorting::sort_by_keys;
use crate::stable_order::{key_views, sorted_rows};
use vstd::prelude::*;

verus! {

/// A row of the list. The list asks an entry for what it shows and for how it
/// ranks, field by field, under the field's title.
pub trait DetailListEntry: Clone {
    /// The text to show for this entry under the field `title`, if it has any.
    fn get_field_entry(&self, title: &str) -> Option<String>;

    /// Writes an edited value back into the field `title`, and tells whether
    /// that succeeded. The list itself never calls this: it is for the host's
    /// own editing, which may offer it for fields marked editable.
    fn write_field(&mut self, title: &str, input_value: String) -> bool;

    /// The key by which this entry ranks when the list is sorted by the field
    /// `title`. For a field without an order, return `SortKey::Absent`.
    fn sort_key(&self, title: &str) -> SortKey;
}

/// `text` is what `entry` gave as its text under a field titled `title`.
pub open spec fn is_field_entry<T: DetailListEntry>(
    entry: T,
    title: Seq<char>,
    text: Option<String>,
) -> bool {
    exists|name: &str| name@ == title && call_ensures(T::get_field_entry, (&entry, name), text)
}

/// `keys` are what the rows gave as their sort keys under one and the same
/// field titled `title`, row by row.
pub open spec fn are_sort_keys<T: DetailListEntry>(
    rows: Seq<T>,
    title: Seq<char>,
    keys: Seq<SortKey>,
) -> bool {
    exists|name: &str| #[trigger] are_sort_keys_under(rows, name, keys) && name@ == title
}

/// `keys` are what the rows gave as their sort keys when asked under `name`.
pub open spec fn are_sort_keys_under<T: DetailListEntry>(
    rows: Seq<T>,
    name: &str,
    keys: Seq<SortKey>,
) -> bool {
    &&& keys.len() == rows.len()
    &&& forall|i: int|
        0 <= i < rows.len() ==> call_ensures(T::sort_key, (&rows[i], name), #[trigger] keys[i])
}

/// Asks every row for its sort key under the field `title`, once, first row
/// first.
pub fn collect_sort_keys<T: DetailListEntry>(rows: &[T], title: &str) -> (keys: Vec<SortKey>)
    ensures
        are_sort_keys_under(rows@, title, keys@),
        are_sort_keys(rows@, title@, keys@),
{
    let mut keys: Vec<SortKey> = Vec::new();
    let mut i: usize = 0;
    while i < rows.len()
        invariant
            i <= rows@.len(),
            keys@.len() == i,
            forall|j: int|
                0 <= j < i ==> call_ensures(T::sort_key, (&rows@[j], title), #[trigger] keys@[j]),
        decreases rows@.len() - i,
    {
        let key = rows[i].sort_key(title);
        keys.push(key);
        i += 1;
    }
    keys
}

/// `after` holds the rows of `before`, sorted stably by the keys that they
/// gave under the field titled `title`.
pub open spec fn sorted_by_field<T: DetailListEntry>(
    before: Seq<T>,
    after: Seq<T>,
    title: Seq<char>,
    descending: bool,
) -> bool {
    exists|keys: Seq<SortKey>| #[trigger]
        are_sort_keys(before, title, keys) && after == sorted_rows(
            before,
            key_views(keys),
            descending,
        )
}

/// Sorts the rows stably by their keys under the field `title`: ascending, or
/// descending where `descending` is set. Every row is asked for its key
/// once, before any row moves; rows with equal keys, and so all rows without
/// a key, keep their relative order.
pub fn sort_by_field<T: DetailListEntry>(rows: &mut [T], title: &str, descending: bool)
    ensures
        sorted_by_field(old(rows)@, final(rows)@, title@, descending),
{
    let keys = collect_sort_keys(rows, title);
    sort_by_keys(rows, keys.as_slice(), descending);
}

} // verus!
