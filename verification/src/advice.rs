//! The advice map: secret inputs keyed by a 32-byte digest, with unique
//! keys, built from hex-keyed lists of integers.

use vstd::prelude::*;

use crate::codec::{all_hex, decode_hex_key, hex_bytes};
use crate::errors::ParseError;
use crate::field::{is_felt, FIELD_MODULUS};
use crate::merkle::{
    item_builds_nodes, item_faulty, item_provided, parse_merkle_store, MerkleData, MerkleStore,
};
use crate::stack::{parse_field_values, spec_parse_felts, strings_view};

verus! {

/// One advice-map entry: a 32-byte key and its ordered field elements.
pub struct AdviceMapEntry {
    pub key: Vec<u8>,
    pub values: Vec<u64>,
}

impl AdviceMapEntry {
    /// The key has digest length and every value is a field element.
    pub open spec fn wf(&self) -> bool {
        self.key@.len() == 32 && forall|i: int|
            0 <= i < self.values@.len() ==> is_felt(#[trigger] self.values@[i])
    }
}

/// A mapping from 32-byte digest keys to ordered sequences of field
/// elements. Keys are unique by construction.
pub struct AdviceMap {
    pub entries: Vec<AdviceMapEntry>,
}

impl AdviceMap {
    /// All entries are well-formed and no two entries share a key.
    pub open spec fn wf(&self) -> bool {
        (forall|i: int| 0 <= i < self.entries@.len() ==> (#[trigger] self.entries@[i]).wf())
            && (forall|i: int, j: int|
            0 <= i < j < self.entries@.len() ==> self.entries@[i].key@ != self.entries@[j].key@)
    }

    /// The entries as plain values: pairs of key bytes and element values.
    pub open spec fn model(&self) -> Seq<(Seq<u8>, Seq<u64>)> {
        self.entries@.map_values(|e: AdviceMapEntry| (e.key@, e.values@))
    }

    /// The empty map.
    pub fn new() -> (r: AdviceMap)
        ensures
            r.wf(),
            r.model() =~= Seq::<(Seq<u8>, Seq<u64>)>::empty(),
    {
        AdviceMap { entries: Vec::new() }
    }
}

/// Whether two byte strings are equal.
fn keys_equal(a: &Vec<u8>, b: &Vec<u8>) -> (r: bool)
    ensures
        r <==> a@ == b@,
{
    if a.len() != b.len() {
        return false;
    }
    let mut i: usize = 0;
    while i < a.len()
        invariant
            i <= a.len(),
            a@.len() == b@.len(),
            forall|k: int| 0 <= k < i ==> a@[k] == b@[k],
        decreases a.len() - i,
    {
        if a[i] != b[i] {
            return false;
        }
        i += 1;
    }
    proof {
        assert(a@ =~= b@);
    }
    true
}

/// Whether the map already holds an entry with this key.
fn contains_key(entries: &Vec<AdviceMapEntry>, key: &Vec<u8>) -> (r: bool)
    ensures
        r <==> exists|j: int| 0 <= j < entries@.len() && (#[trigger] entries@[j]).key@ == key@,
{
    let mut i: usize = 0;
    while i < entries.len()
        invariant
            i <= entries.len(),
            forall|j: int| 0 <= j < i ==> (#[trigger] entries@[j]).key@ != key@,
        decreases entries.len() - i,
    {
        if keys_equal(&entries[i].key, key) {
            return true;
        }
        i += 1;
    }
    false
}

/// The index of the first value that is not a field element, if any.
fn find_bad_value(values: &Vec<u64>) -> (r: Option<usize>)
    ensures
        match r {
            Some(i) => i < values@.len() && !is_felt(values@[i as int]),
            None => forall|i: int| 0 <= i < values@.len() ==> is_felt(#[trigger] values@[i]),
        },
{
    let mut i: usize = 0;
    while i < values.len()
        invariant
            i <= values.len(),
            forall|k: int| 0 <= k < i ==> is_felt(#[trigger] values@[k]),
        decreases values.len() - i,
    {
        if values[i] >= FIELD_MODULUS {
            return Some(i);
        }
        i += 1;
    }
    None
}

/// Processes advice-map entries left to right against the keys already
/// accepted: a malformed hex key fails with `InvalidHexLength`, a key
/// already accepted fails with `DuplicateMapKey`, and a value at or above
/// the field modulus fails with `FieldOverflow`.
pub open spec fn spec_advice_map_rec(
    entries: Seq<(Seq<char>, Seq<u64>)>,
    acc: Seq<(Seq<u8>, Seq<u64>)>,
) -> Result<Seq<(Seq<u8>, Seq<u64>)>, ParseError>
    decreases entries.len(),
{
    if entries.len() == 0 {
        Ok(acc)
    } else {
        let k = entries[0].0;
        let vals = entries[0].1;
        if !(k.len() == 64 && all_hex(k)) {
            Err(ParseError::InvalidHexLength)
        } else if exists|j: int| 0 <= j < acc.len() && (#[trigger] acc[j]).0 == hex_bytes(k) {
            Err(ParseError::DuplicateMapKey)
        } else if exists|j: int| 0 <= j < vals.len() && !is_felt(#[trigger] vals[j]) {
            Err(ParseError::FieldOverflow)
        } else {
            spec_advice_map_rec(entries.drop_first(), acc.push((hex_bytes(k), vals)))
        }
    }
}

/// The advice map described by a sequence of (hex key, values) entries.
pub open spec fn spec_parse_advice_map(entries: Seq<(Seq<char>, Seq<u64>)>) -> Result<
    Seq<(Seq<u8>, Seq<u64>)>,
    ParseError,
> {
    spec_advice_map_rec(entries, Seq::empty())
}

/// The character/value view of the textual entries.
pub open spec fn advice_entries_view(entries: Seq<(String, Vec<u64>)>) -> Seq<
    (Seq<char>, Seq<u64>),
> {
    entries.map_values(|e: (String, Vec<u64>)| (e.0@, e.1@))
}

/// Builds the advice map from textual entries, in order.
///
/// Each key must be a 64-hex-char string; it is decoded to 32 raw bytes
/// and is not required to be a canonical word. Each value must be a
/// canonical field element. Two entries whose keys decode to the same
/// bytes fail with `DuplicateMapKey`: the map never silently overwrites.
pub fn parse_advice_map(entries: &Vec<(String, Vec<u64>)>) -> (r: Result<AdviceMap, ParseError>)
    ensures
        match r {
            Ok(m) => m.wf() && spec_parse_advice_map(advice_entries_view(entries@)) == Ok::<
                Seq<(Seq<u8>, Seq<u64>)>,
                ParseError,
            >(m.model()),
            Err(e) => spec_parse_advice_map(advice_entries_view(entries@)) == Err::<
                Seq<(Seq<u8>, Seq<u64>)>,
                ParseError,
            >(e),
        },
{
    let ghost ev = advice_entries_view(entries@);
    let mut map = AdviceMap::new();
    let mut i: usize = 0;
    proof {
        assert(ev.skip(0) =~= ev);
    }
    while i < entries.len()
        invariant
            i <= entries.len(),
            ev == advice_entries_view(entries@),
            ev.len() == entries@.len(),
            map.wf(),
            map.model().len() == i,
            spec_parse_advice_map(ev) == spec_advice_map_rec(ev.skip(i as int), map.model()),
        decreases entries.len() - i,
    {
        proof {
            assert(ev.skip(i as int)[0] == ev[i as int]);
            assert(ev.skip(i as int).drop_first() =~= ev.skip(i as int + 1));
            assert(ev[i as int] == (entries@[i as int].0@, entries@[i as int].1@));
        }
        let key = match decode_hex_key(&entries[i].0) {
            Ok(k) => k,
            Err(e) => {
                return Err(e);
            },
        };
        if contains_key(&map.entries, &key) {
            proof {
                let bad = choose|j: int|
                    0 <= j < map.entries@.len() && (#[trigger] map.entries@[j]).key@ == key@;
                assert(map.model()[bad].0 == key@);
            }
            return Err(ParseError::DuplicateMapKey);
        }
        if find_bad_value(&entries[i].1).is_some() {
            return Err(ParseError::FieldOverflow);
        }
        proof {
            assert(forall|j: int|
                0 <= j < map.model().len() ==> (#[trigger] map.model()[j]).0 == map.entries@[j].key@);
        }
        let ghost model0 = map.model();
        let values = clone_values(&entries[i].1);
        map.entries.push(AdviceMapEntry { key, values });
        proof {
            assert(map.model() =~= model0.push((hex_bytes(ev[i as int].0), ev[i as int].1)));
        }
        i += 1;
    }
    proof {
        assert(ev.skip(i as int) =~= Seq::<(Seq<char>, Seq<u64>)>::empty());
    }
    Ok(map)
}

/// A copy of the value list.
fn clone_values(values: &Vec<u64>) -> (r: Vec<u64>)
    ensures
        r@ == values@,
{
    let mut out: Vec<u64> = Vec::new();
    let mut i: usize = 0;
    while i < values.len()
        invariant
            i <= values.len(),
            out@ =~= values@.subrange(0, i as int),
        decreases values.len() - i,
    {
        out.push(values[i]);
        proof {
            assert(out@ =~= values@.subrange(0, i as int + 1));
        }
        i += 1;
    }
    proof {
        assert(out@ =~= values@);
    }
    out
}


/// The composite advice subsystem handed to the engine: the value tape,
/// the digest-keyed map, and the merged Merkle node store.
pub struct AdviceProvider {
    pub stack: Vec<u64>,
    pub map: AdviceMap,
    pub store: MerkleStore,
}

impl AdviceProvider {
    /// Tape values are field elements; map and store are well-formed.
    pub open spec fn wf(&self) -> bool {
        (forall|i: int| 0 <= i < self.stack@.len() ==> is_felt(#[trigger] self.stack@[i]))
            && self.map.wf() && self.store.wf()
    }

    /// The empty provider.
    pub fn empty() -> (r: AdviceProvider)
        ensures
            r.wf(),
            r.stack@ =~= Seq::<u64>::empty(),
            r.map.model() =~= Seq::<(Seq<u8>, Seq<u64>)>::empty(),
            r.store.nodes@ =~= Seq::<crate::merkle::MerkleNode>::empty(),
    {
        AdviceProvider { stack: Vec::new(), map: AdviceMap::new(), store: MerkleStore::new() }
    }
}

/// Composes the advice subsystem from its three parsed parts: the tape,
/// then the map, then the Merkle store. Any sub-step failure aborts the
/// whole build.
pub fn build_advice_provider(
    stack_values: &Vec<String>,
    map_entries: &Vec<(String, Vec<u64>)>,
    merkle_items: &Vec<MerkleData>,
) -> (r: Result<AdviceProvider, ParseError>)
    ensures
        match r {
            Ok(p) => p.wf() && spec_parse_felts(strings_view(stack_values@)) == Ok::<
                Seq<u64>,
                ParseError,
            >(p.stack@) && spec_parse_advice_map(advice_entries_view(map_entries@)) == Ok::<
                Seq<(Seq<u8>, Seq<u64>)>,
                ParseError,
            >(p.map.model()) && forall|i: int|
                0 <= i < merkle_items@.len() ==> item_provided(#[trigger] merkle_items@[i], p.store),
            Err(e) => spec_parse_felts(strings_view(stack_values@)) == Err::<Seq<u64>, ParseError>(
                e,
            ) || (spec_parse_felts(strings_view(stack_values@)) is Ok && spec_parse_advice_map(
                advice_entries_view(map_entries@),
            ) == Err::<Seq<(Seq<u8>, Seq<u64>)>, ParseError>(e)) || (spec_parse_felts(
                strings_view(stack_values@),
            ) is Ok && spec_parse_advice_map(advice_entries_view(map_entries@)) is Ok && ((e
                == ParseError::MerkleStoreConflict && exists|i: int|
                0 <= i < merkle_items@.len() && item_builds_nodes(#[trigger] merkle_items@[i]))
                || exists|i: int|
                0 <= i < merkle_items@.len() && item_faulty(#[trigger] merkle_items@[i], e))),
        },
{
    let stack = parse_field_values(stack_values)?;
    let map = parse_advice_map(map_entries)?;
    let store = parse_merkle_store(merkle_items)?;
    Ok(AdviceProvider { stack, map, store })
}

} // verus!
