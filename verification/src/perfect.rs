//! The perfect-hash map that holds the table, and what is taken on trust of it.
//!
//! `phf::Map` keeps its entries in one slice and finds a key by hashing it to a
//! slot of that slice. `phf_generator` chooses the hash for a given set of keys
//! and says which key belongs in which slot. Nothing in this file is proved: each
//! item states what the named function of those crates does.

use crate::table::ShiftRecord;
use vstd::prelude::*;

verus! {

/// A hash as `phf` holds it: the seed and the displacements.
pub type HashParams = (u64, Seq<(u32, u32)>);

/// What the generator chooses for a set of keys.
pub(crate) struct Generated {
    /// The seed under which the keys are hashed.
    pub(crate) seed: u64,
    /// One pair of displacements for each bucket of keys.
    pub(crate) disps: Vec<(u32, u32)>,
    /// For each slot, the index of the key that stands in it.
    pub(crate) order: Vec<usize>,
}

/// The most keys a hash is generated for. The generator counts its buckets as
/// `(n + 2) / 3` in `usize`, and slots are reduced modulo `n` as a `u32`.
pub const MAX_ENTRIES: usize = 0xffff_fffd;

/// `phf::Map`. Its fields stay unread here; what a map holds goes by the names
/// [`phf_entries`] and [`phf_hash`].
#[verifier::external_type_specification]
#[verifier::external_body]
#[verifier::reject_recursive_types(K)]
#[verifier::reject_recursive_types(V)]
pub struct ExPhfMap<K: 'static, V: 'static>(phf::Map<K, V>);

/// What a map holds: its entries in the order of its slots, each key by its
/// characters.
pub uninterp spec fn phf_entries(map: phf::Map<&'static str, ShiftRecord>) -> Seq<
    (Seq<char>, ShiftRecord),
>;

/// The hash that a map was made with: its seed and its displacements.
pub uninterp spec fn phf_hash(map: phf::Map<&'static str, ShiftRecord>) -> HashParams;

/// What `phf_shared::hash` makes of `key` under `seed`: the three hashes
/// `g`, `f1` and `f2`, in this order.
pub uninterp spec fn phf_hashes(key: Seq<char>, seed: u64) -> (u32, u32, u32);

/// `phf_shared::displace`: `d2 + f1 * d1 + f2` in wrapping 32-bit arithmetic.
pub open spec fn displace(f1: u32, f2: u32, d1: u32, d2: u32) -> int {
    (d2 + f1 * d1 + f2) % 0x1_0000_0000
}

/// `phf_shared::get_index`: the slot of a key with the given hashes among `len`
/// slots. `g` picks a pair of displacements, and these displace `f1` and `f2`.
pub open spec fn slot_of(hashes: (u32, u32, u32), disps: Seq<(u32, u32)>, len: nat) -> int
    recommends
        disps.len() > 0,
        len > 0,
{
    let pair = disps[hashes.0 as int % disps.len() as int];
    displace(hashes.1, hashes.2, pair.0, pair.1) % (len as int)
}

/// The slot of `key` in a map of `len` slots with the hash `hash`.
pub open spec fn key_slot(key: Seq<char>, hash: HashParams, len: nat) -> int {
    slot_of(phf_hashes(key, hash.0), hash.1, len)
}

/// What a probe of `entries` at `slot` finds for `key`: the shifts stored there,
/// if the key stored there is this very key.
pub open spec fn entry_at(
    entries: Seq<(Seq<char>, ShiftRecord)>,
    slot: int,
    key: Seq<char>,
) -> Option<ShiftRecord> {
    if 0 <= slot < entries.len() && entries[slot].0 == key {
        Some(entries[slot].1)
    } else {
        None
    }
}

/// Keys and shifts as plain values.
pub open spec fn entries_view(entries: Seq<(String, ShiftRecord)>) -> Seq<
    (Seq<char>, ShiftRecord),
> {
    Seq::new(entries.len(), |i: int| (entries[i].0@, entries[i].1))
}

/// `phf_generator::generate_hash`, for keys that are all different: a seed,
/// one pair of displacements per bucket of three keys, and for each slot the
/// index of the key that stands there. Each key stands in the slot that it
/// hashes to.
///
/// With a key that occurs twice the generator finds no hash and does not
/// return, so such keys are not admitted.
#[verifier::external_body]
pub(crate) fn phf_generate(keys: &Vec<String>) -> (state: Generated)
    requires
        keys.len() <= MAX_ENTRIES,
        forall|i: int, j: int| 0 <= i < j < keys.len() ==> keys@[i]@ != keys@[j]@,
    ensures
        state.disps.len() == (keys.len() + 2) / 3,
        state.order.len() == keys.len(),
        forall|i: int|
            #![trigger keys@[i]]
            0 <= i < keys.len() ==> state.order@[slot_of(
                phf_hashes(keys@[i]@, state.seed),
                state.disps@,
                keys.len() as nat,
            )] == i,
{
    let state = phf_generator::generate_hash(keys.as_slice());
    Generated { seed: state.key, disps: state.disps, order: state.map }
}

/// A `phf::Map` with the given seed, displacements and entries, its fields
/// filled as generated code fills them. The map is meant to stay for the life
/// of the process: keys and slices are leaked to make them `'static`.
#[verifier::external_body]
pub(crate) fn phf_assemble(
    seed: u64,
    disps: Vec<(u32, u32)>,
    entries: Vec<(String, ShiftRecord)>,
) -> (map: phf::Map<&'static str, ShiftRecord>)
    ensures
        phf_hash(map) == (seed, disps@),
        phf_entries(map) == entries_view(entries@),
{
    let entries: Vec<(&'static str, ShiftRecord)> =
        entries.into_iter().map(|(key, shifts)| (&*key.leak(), shifts)).collect();
    phf::Map { key: seed, disps: disps.leak(), entries: entries.leak() }
}

/// `phf::Map::get`: `None` where the map has no displacements; otherwise the
/// value in the slot that `key` hashes to, where the key stored there equals
/// `key`, and `None` where it does not.
#[verifier::external_body]
pub(crate) fn phf_get(map: &phf::Map<&'static str, ShiftRecord>, key: &str) -> (found: Option<
    ShiftRecord,
>)
    requires
        phf_entries(*map).len() <= u32::MAX,
        phf_hash(*map).1.len() <= u32::MAX,
        phf_hash(*map).1.len() > 0 ==> phf_entries(*map).len() > 0,
    ensures
        phf_hash(*map).1.len() == 0 ==> found.is_none(),
        phf_hash(*map).1.len() > 0 ==> found == entry_at(
            phf_entries(*map),
            slot_of(phf_hashes(key@, phf_hash(*map).0), phf_hash(*map).1, phf_entries(*map).len()),
            key@,
        ),
{
    map.get(key).copied()
}

} // verus!
