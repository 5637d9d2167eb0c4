//! Looking up the shifts of a cell.
//!
//! A key that is not in the table stands for a cell that the survey does not
//! cover. That is an ordinary answer, `None`, never a fault. The empty key is
//! never looked for.

use crate::key::{grid_key, grid_key_spec, index_in_range};
use crate::table::{
    dataset, distinct_keys, has_key, lemma_record_is_held, record_entries, Shift, ShiftRecord,
    ShiftTable,
};
use vstd::prelude::*;

verus! {

/// What a lookup of `key` gives in a table that holds `contents`.
pub open spec fn lookup_spec(contents: Map<Seq<char>, ShiftRecord>, key: Seq<char>) -> Option<
    ShiftRecord,
> {
    if key.len() > 0 && contents.contains_key(key) {
        Some(contents[key])
    } else {
        None
    }
}

/// What a lookup of the cell `(easting, northing)` gives in a table that holds
/// `contents`: what is stored under the cell's key, where it has a key.
pub open spec fn cell_lookup_spec(
    contents: Map<Seq<char>, ShiftRecord>,
    easting: int,
    northing: int,
) -> Option<ShiftRecord> {
    if index_in_range(easting) && index_in_range(northing) {
        lookup_spec(contents, grid_key_spec(easting, northing))
    } else {
        None
    }
}

/// The eastings, northings and height shifts stored under `key`, in
/// thousandths of a metre, or `None` where the table has no such key.
///
/// The key is the northing and the easting of a kilometre-grid cell, each as
/// three lowercase hexadecimal digits. It is compared as it is given. For the
/// empty key the answer is `None` whatever the table holds.
pub fn ostn02_lookup(table: &ShiftTable, key: &str) -> (found: Option<(i16, i16, i16)>)
    ensures
        found == lookup_spec(table@, key@),
        key@.len() == 0 ==> found.is_none(),
        !table@.contains_key(key@) ==> found.is_none(),
{
    if key.is_empty() {
        return None;
    }
    table.find(key)
}

/// The shifts stored for the kilometre-grid cell `(easting, northing)`, or
/// `None` where the survey does not cover the cell.
///
/// A cell with an index below zero or above `0xfff` has no key and so no
/// shifts. The answer depends on what the table holds and on the cell alone:
/// asked twice, the same cell has the same shifts. What is returned is the
/// stored record; a caller that wants metres divides by a thousand and adds
/// the smallest shift of each axis.
pub fn get_shifts(table: &ShiftTable, cell: (i16, i16)) -> (found: Option<(i16, i16, i16)>)
    ensures
        found == cell_lookup_spec(table@, cell.0 as int, cell.1 as int),
{
    match grid_key(cell.0, cell.1) {
        Some(key) => ostn02_lookup(table, key.as_str()),
        None => None,
    }
}

/// A lookup of the key of a record gives the shifts of that record, unchanged,
/// where the records have distinct keys and the key is not empty.
pub proof fn lemma_lookup_finds_record(records: Seq<Shift>, index: int)
    requires
        distinct_keys(record_entries(records)),
        0 <= index < records.len(),
        records[index].key@.len() > 0,
    ensures
        lookup_spec(dataset(records), records[index].key@) == Some(
            (records[index].eastings, records[index].northings, records[index].height),
        ),
{
    lemma_record_is_held(records, index);
}

/// A lookup of the empty key gives nothing, whatever the table holds.
pub proof fn lemma_empty_key_not_found(contents: Map<Seq<char>, ShiftRecord>)
    ensures
        lookup_spec(contents, Seq::<char>::empty()).is_none(),
{
}

/// A lookup of a key that no record has gives nothing.
pub proof fn lemma_absent_key_not_found(records: Seq<Shift>, key: Seq<char>)
    requires
        !has_key(record_entries(records), key),
    ensures
        lookup_spec(dataset(records), key).is_none(),
{
}

} // verus!
