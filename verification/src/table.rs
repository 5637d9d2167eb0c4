//! The shift table and how it is built.
//!
//! A table is built once from the records of a survey and never changes
//! afterwards. Building fails as a whole where two records claim one key.

use crate::perfect::{
    entries_view, key_slot, phf_assemble, phf_entries, phf_generate, phf_get, phf_hash, HashParams,
    MAX_ENTRIES,
};
use vstd::hash_set::StringHashSet;
use vstd::prelude::*;
use vstd::relations::injective_on;
use vstd::seq_lib::to_multiset_contains;
use vstd::set_lib::{lemma_int_range, lemma_map_size, lemma_subset_equality, set_int_range};

verus! {

/// The three stored shifts of a cell: eastings, northings, height, each in
/// thousandths of a metre above the smallest shift of its axis.
pub type ShiftRecord = (i16, i16, i16);

/// One record of the survey: the key of a cell and its three shifts.
#[derive(Debug, Clone)]
pub struct Shift {
    pub key: String,
    pub eastings: i16,
    pub northings: i16,
    pub height: i16,
}

/// A key with its shifts, as plain values.
pub type Entry = (Seq<char>, ShiftRecord);

/// Why no table was built.
#[derive(Debug, PartialEq, Eq, Clone, Copy)]
pub enum BuildError {
    /// There are more than [`MAX_ENTRIES`] records.
    TooManyRecords,
    /// The record at this index has the key of an earlier record, and it is the
    /// first record that does.
    DuplicateKey(usize),
}

/// The records as entries, in their order.
pub open spec fn record_entries(records: Seq<Shift>) -> Seq<Entry> {
    Seq::new(
        records.len(),
        |i: int| (records[i].key@, (records[i].eastings, records[i].northings, records[i].height)),
    )
}

/// Whether no two of the entries have the same key.
pub open spec fn distinct_keys(entries: Seq<Entry>) -> bool {
    forall|i: int, j: int| 0 <= i < j < entries.len() ==> entries[i].0 != entries[j].0
}

/// Whether some entry has `key`.
pub open spec fn has_key(entries: Seq<Entry>, key: Seq<char>) -> bool {
    exists|i: int| 0 <= i < entries.len() && entries[i].0 == key
}

/// Whether `index` is the first entry that has the key of an earlier one.
pub open spec fn first_repeat(entries: Seq<Entry>, index: int) -> bool {
    &&& 0 <= index < entries.len()
    &&& has_key(entries.take(index), entries[index].0)
    &&& distinct_keys(entries.take(index))
}

/// The map that the entries stand for: each key with the shifts of the entry
/// that has it. Where two entries have one key this picks either; a table is
/// built only from distinct keys.
pub open spec fn as_map(entries: Seq<Entry>) -> Map<Seq<char>, ShiftRecord> {
    Map::new(
        |key: Seq<char>| has_key(entries, key),
        |key: Seq<char>| entries[choose|i: int| 0 <= i < entries.len() && entries[i].0 == key].1,
    )
}

/// What the records of a survey say: each key with its shifts.
pub open spec fn dataset(records: Seq<Shift>) -> Map<Seq<char>, ShiftRecord> {
    as_map(record_entries(records))
}

/// Whether `hash` sends the key of every entry to the entry's own slot.
pub open spec fn perfect(entries: Seq<Entry>, hash: HashParams) -> bool {
    forall|j: int|
        0 <= j < entries.len() ==> key_slot((#[trigger] entries[j]).0, hash, entries.len()) == j
}

/// Entries of which one repeats an earlier key do not have distinct keys.
pub proof fn lemma_repeat_is_duplicate(entries: Seq<Entry>, index: int)
    requires
        first_repeat(entries, index),
    ensures
        !distinct_keys(entries),
{
    let earlier = entries.take(index);
    let i = choose|i: int| 0 <= i < earlier.len() && earlier[i].0 == entries[index].0;
    assert(entries[i].0 == entries[index].0);
}

/// Records with distinct keys hold each record's shifts under its key.
pub proof fn lemma_record_is_held(records: Seq<Shift>, index: int)
    requires
        distinct_keys(record_entries(records)),
        0 <= index < records.len(),
    ensures
        dataset(records).contains_key(records[index].key@),
        dataset(records)[records[index].key@] == (
            records[index].eastings,
            records[index].northings,
            records[index].height,
        ),
{
    let entries = record_entries(records);
    let key = records[index].key@;
    assert(entries[index].0 == key);
    let chosen = choose|i: int| 0 <= i < entries.len() && entries[i].0 == key;
    if chosen < index {
        assert(entries[chosen].0 != entries[index].0);
    } else if index < chosen {
        assert(entries[index].0 != entries[chosen].0);
    }
}

/// The order of the records does not matter: records with distinct keys say
/// the same in any order.
pub proof fn lemma_order_is_irrelevant(records: Seq<Shift>, shuffled: Seq<Shift>)
    requires
        distinct_keys(record_entries(records)),
        shuffled.to_multiset() == records.to_multiset(),
    ensures
        dataset(shuffled) == dataset(records),
{
    let first = record_entries(records);
    let second = record_entries(shuffled);
    assert forall|i: int| 0 <= i < records.len() implies exists|j: int|
        0 <= j < shuffled.len() && shuffled[j] == #[trigger] records[i] by {
        to_multiset_contains(records, records[i]);
        to_multiset_contains(shuffled, records[i]);
        assert(records.contains(records[i]));
    }
    assert forall|j: int| 0 <= j < shuffled.len() implies exists|i: int|
        0 <= i < records.len() && records[i] == #[trigger] shuffled[j] by {
        to_multiset_contains(records, shuffled[j]);
        to_multiset_contains(shuffled, shuffled[j]);
        assert(shuffled.contains(shuffled[j]));
    }
    assert forall|key: Seq<char>| has_key(second, key) == has_key(first, key) by {
        if has_key(second, key) {
            let j = choose|j: int| 0 <= j < second.len() && second[j].0 == key;
            let i = choose|i: int| 0 <= i < records.len() && records[i] == shuffled[j];
            assert(first[i].0 == key);
        }
        if has_key(first, key) {
            let i = choose|i: int| 0 <= i < first.len() && first[i].0 == key;
            let j = choose|j: int| 0 <= j < shuffled.len() && shuffled[j] == records[i];
            assert(second[j].0 == key);
        }
    }
    assert forall|key: Seq<char>| has_key(second, key) implies as_map(second)[key] == as_map(
        first,
    )[key] by {
        let j = choose|j: int| 0 <= j < second.len() && second[j].0 == key;
        let i = choose|i: int| 0 <= i < first.len() && first[i].0 == key;
        let k = choose|k: int| 0 <= k < records.len() && records[k] == shuffled[j];
        assert(first[k].0 == key);
        if k < i {
            assert(first[k].0 != first[i].0);
        } else if i < k {
            assert(first[i].0 != first[k].0);
        }
    }
    assert(as_map(second) =~= as_map(first));
}

/// Every slot is taken where each of `n` keys has a slot below `n` and `order`
/// leads from that slot back to the key: `order` then holds each key once.
proof fn lemma_slots_cover(slots: Seq<int>, order: Seq<usize>)
    requires
        order.len() == slots.len(),
        forall|i: int|
            0 <= i < slots.len() ==> 0 <= #[trigger] slots[i] < slots.len() && order[slots[i]] == i,
    ensures
        forall|j: int|
            0 <= j < slots.len() ==> 0 <= #[trigger] order[j] < slots.len()
                && slots[order[j] as int] == j,
{
    let n = slots.len() as int;
    let all = set_int_range(0, n);
    let slot_of = |i: int| slots[i];
    let taken = all.map(slot_of);
    lemma_int_range(0, n);
    assert(injective_on(slot_of, all)) by {
        assert forall|a: int, b: int|
            all.contains(a) && all.contains(b) && #[trigger] slot_of(a) == #[trigger] slot_of(
                b,
            ) implies a == b by {
            assert(order[slots[a]] == a);
            assert(order[slots[b]] == b);
        }
    }
    lemma_map_size(all, taken, slot_of);
    assert(taken.subset_of(all)) by {
        assert forall|j: int| taken.contains(j) implies all.contains(j) by {
            let i = choose|i: int| all.contains(i) && j == slot_of(i);
            assert(0 <= slots[i] < n);
        }
    }
    lemma_subset_equality(taken, all);
    assert forall|j: int| 0 <= j < n implies 0 <= #[trigger] order[j] < n && slots[order[j] as int]
        == j by {
        assert(all.contains(j));
        assert(taken.contains(j));
        let i = choose|i: int| all.contains(i) && j == slot_of(i);
        assert(order[slots[i]] == i);
    }
}

/// Entries that are the records in another order stand for the same map.
proof fn lemma_rearranged(
    records: Seq<Entry>,
    entries: Seq<Entry>,
    slots: Seq<int>,
    order: Seq<usize>,
)
    requires
        distinct_keys(records),
        entries.len() == records.len(),
        order.len() == records.len(),
        slots.len() == records.len(),
        forall|i: int|
            0 <= i < records.len() ==> 0 <= #[trigger] slots[i] < records.len() && order[slots[i]]
                == i,
        forall|j: int|
            0 <= j < records.len() ==> 0 <= #[trigger] order[j] < records.len() && entries[j]
                == records[order[j] as int],
    ensures
        as_map(entries) == as_map(records),
{
    assert forall|key: Seq<char>| has_key(entries, key) == has_key(records, key) by {
        if has_key(entries, key) {
            let j = choose|j: int| 0 <= j < entries.len() && entries[j].0 == key;
            assert(records[order[j] as int].0 == key);
        }
        if has_key(records, key) {
            let i = choose|i: int| 0 <= i < records.len() && records[i].0 == key;
            assert(entries[slots[i]] == records[order[slots[i]] as int]);
        }
    }
    assert forall|key: Seq<char>| has_key(entries, key) implies as_map(entries)[key] == as_map(
        records,
    )[key] by {
        let j = choose|j: int| 0 <= j < entries.len() && entries[j].0 == key;
        let i = choose|i: int| 0 <= i < records.len() && records[i].0 == key;
        let k = order[j] as int;
        assert(records[k].0 == key);
        assert(k == i) by {
            if k < i {
                assert(records[k].0 != records[i].0);
            } else if i < k {
                assert(records[i].0 != records[k].0);
            }
        }
    }
    assert(as_map(entries) =~= as_map(records));
}

/// An immutable table from the keys of cells to their shifts.
///
/// The table is a perfect-hash map: a key is hashed to the one slot where it
/// can stand, and is found by a single probe.
pub struct ShiftTable {
    map: phf::Map<&'static str, ShiftRecord>,
}

impl View for ShiftTable {
    type V = Map<Seq<char>, ShiftRecord>;

    /// The keys of the table, each with its shifts.
    closed spec fn view(&self) -> Map<Seq<char>, ShiftRecord> {
        as_map(phf_entries(self.map))
    }
}

impl ShiftTable {
    /// The hash fits the entries: it sends each stored key to its own slot.
    #[verifier::type_invariant]
    spec fn well_formed(&self) -> bool {
        let entries = phf_entries(self.map);
        let hash = phf_hash(self.map);
        &&& entries.len() <= MAX_ENTRIES
        &&& hash.1.len() <= entries.len()
        &&& entries.len() > 0 ==> hash.1.len() > 0
        &&& perfect(entries, hash)
    }

    /// Builds the table of the given records.
    ///
    /// Fails, and builds nothing, where two records have the same key or where
    /// there are more than [`MAX_ENTRIES`] records. The table lives for the rest
    /// of the process: its storage is never given back.
    pub fn build(records: &[Shift]) -> (built: Result<ShiftTable, BuildError>)
        ensures
            built.is_ok() <==> records.len() <= MAX_ENTRIES && distinct_keys(
                record_entries(records@),
            ),
            match built {
                Ok(table) => {
                    &&& table@ == dataset(records@)
                    &&& forall|i: int|
                        #![trigger records[i]]
                        0 <= i < records.len() ==> table@.contains_key(records[i].key@)
                            && table@[records[i].key@] == (
                            records[i].eastings,
                            records[i].northings,
                            records[i].height,
                        )
                },
                Err(BuildError::TooManyRecords) => records.len() > MAX_ENTRIES,
                Err(BuildError::DuplicateKey(index)) => {
                    &&& records.len() <= MAX_ENTRIES
                    &&& first_repeat(record_entries(records@), index as int)
                },
            },
    {
        if records.len() > MAX_ENTRIES {
            return Err(BuildError::TooManyRecords);
        }
        let keys = match distinct_keys_of(records) {
            Ok(keys) => keys,
            Err(index) => {
                proof {
                    lemma_repeat_is_duplicate(record_entries(records@), index as int);
                }
                return Err(BuildError::DuplicateKey(index));
            },
        };
        proof {
            let all = record_entries(records@);
            assert forall|i: int, j: int| 0 <= i < j < keys.len() implies keys@[i]@
                != keys@[j]@ by {
                assert(all[i].0 != all[j].0);
            }
        }
        let state = phf_generate(&keys);
        let ghost hash: HashParams = (state.seed, state.disps@);
        let ghost slots = Seq::new(
            records.len() as nat,
            |i: int| key_slot(records[i].key@, hash, records.len() as nat),
        );
        proof {
            assert forall|i: int| 0 <= i < slots.len() implies 0 <= #[trigger] slots[i]
                < slots.len() && state.order@[slots[i]] == i by {
                assert(keys@[i]@ == records[i].key@);
            }
            lemma_slots_cover(slots, state.order@);
        }
        let entries = arrange(records, &state.order);
        proof {
            lemma_rearranged(record_entries(records@), entries_view(entries@), slots, state.order@);
            assert forall|j: int| 0 <= j < entries.len() implies key_slot(
                (#[trigger] entries_view(entries@)[j]).0,
                hash,
                entries.len() as nat,
            ) == j by {
                assert(slots[state.order@[j] as int] == j);
            }
        }
        proof {
            assert forall|i: int| 0 <= i < records.len() implies dataset(records@).contains_key(
                #[trigger] records[i].key@,
            ) && dataset(records@)[records[i].key@] == (
                records[i].eastings,
                records[i].northings,
                records[i].height,
            ) by {
                lemma_record_is_held(records@, i);
            }
        }
        let map = phf_assemble(state.seed, state.disps, entries);
        Ok(ShiftTable { map })
    }

    /// The shifts stored under `key`, if the table has the key.
    pub(crate) fn find(&self, key: &str) -> (found: Option<ShiftRecord>)
        ensures
            found == if self@.contains_key(key@) {
                Some(self@[key@])
            } else {
                None
            },
    {
        proof {
            use_type_invariant(self);
        }
        let found = phf_get(&self.map, key);
        proof {
            let entries = phf_entries(self.map);
            let hash = phf_hash(self.map);
            let slot = key_slot(key@, hash, entries.len());
            if has_key(entries, key@) {
                let j = choose|j: int| 0 <= j < entries.len() && entries[j].0 == key@;
                assert(key_slot(entries[j].0, hash, entries.len()) == j);
                assert(slot == j);
            }
        }
        found
    }
}

/// The keys of the records, in their order, where they are all different;
/// otherwise the index of the first record that repeats an earlier key.
fn distinct_keys_of(records: &[Shift]) -> (scanned: Result<Vec<String>, usize>)
    ensures
        match scanned {
            Ok(keys) => {
                &&& distinct_keys(record_entries(records@))
                &&& keys.len() == records.len()
                &&& forall|i: int|
                    0 <= i < records.len() ==> (#[trigger] keys@[i])@ == records[i].key@
            },
            Err(index) => first_repeat(record_entries(records@), index as int),
        },
{
    let ghost all = record_entries(records@);
    let mut seen = StringHashSet::new();
    let mut keys: Vec<String> = Vec::new();
    let mut i: usize = 0;
    while i < records.len()
        invariant
            0 <= i <= records.len(),
            all == record_entries(records@),
            keys.len() == i,
            forall|a: int| 0 <= a < i ==> (#[trigger] keys@[a])@ == records[a].key@,
            forall|key: Seq<char>| seen@.contains(key) <==> has_key(all.take(i as int), key),
            distinct_keys(all.take(i as int)),
        decreases records.len() - i,
    {
        let fresh = seen.insert(records[i].key.clone());
        if !fresh {
            return Err(i);
        }
        keys.push(records[i].key.clone());
        proof {
            let before = all.take(i as int);
            let after = all.take(i + 1);
            assert forall|key: Seq<char>| seen@.contains(key) <==> has_key(after, key) by {
                if has_key(before, key) {
                    let a = choose|a: int| 0 <= a < before.len() && before[a].0 == key;
                    assert(after[a].0 == key);
                }
                if key == all[i as int].0 {
                    assert(after[i as int].0 == key);
                }
                if has_key(after, key) {
                    let a = choose|a: int| 0 <= a < after.len() && after[a].0 == key;
                    if a < i {
                        assert(before[a].0 == key);
                    }
                }
            }
            assert forall|a: int, b: int| 0 <= a < b < after.len() implies after[a].0
                != after[b].0 by {
                if b < i {
                    assert(before[a].0 != before[b].0);
                } else if after[a].0 == after[b].0 {
                    assert(before[a].0 == all[i as int].0);
                    assert(has_key(before, all[i as int].0));
                }
            }
        }
        i += 1;
    }
    assert(all.take(i as int) =~= all);
    Ok(keys)
}

/// The records as entries, the one named by `order[j]` in place `j`.
fn arrange(records: &[Shift], order: &Vec<usize>) -> (entries: Vec<(String, ShiftRecord)>)
    requires
        order.len() == records.len(),
        forall|j: int| 0 <= j < order.len() ==> #[trigger] order[j] < records.len(),
    ensures
        entries.len() == records.len(),
        forall|j: int|
            0 <= j < entries.len() ==> #[trigger] entries_view(entries@)[j] == record_entries(
                records@,
            )[order[j] as int],
{
    let mut entries: Vec<(String, ShiftRecord)> = Vec::new();
    let mut j: usize = 0;
    while j < order.len()
        invariant
            0 <= j <= order.len(),
            order.len() == records.len(),
            forall|a: int| 0 <= a < order.len() ==> #[trigger] order[a] < records.len(),
            entries.len() == j,
            forall|a: int|
                0 <= a < j ==> #[trigger] entries_view(entries@)[a] == record_entries(
                    records@,
                )[order[a] as int],
        decreases order.len() - j,
    {
        let record = &records[order[j]];
        let ghost before = entries@;
        entries.push((record.key.clone(), (record.eastings, record.northings, record.height)));
        proof {
            assert forall|a: int| 0 <= a < j + 1 implies #[trigger] entries_view(entries@)[a]
                == record_entries(records@)[order[a] as int] by {
                if a < j {
                    assert(entries_view(before)[a] == record_entries(records@)[order[a] as int]);
                    assert(entries@[a] == before[a]);
                }
            }
        }
        j += 1;
    }
    entries
}

} // verus!
