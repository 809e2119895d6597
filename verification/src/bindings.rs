//! The bookkeeping that tells apart local variables of the same name: how
//! often each name has been bound in the function at hand, the hash that
//! identifies one binding, and the hash of each binding that was seen.

use crate::text_range::TextRange;
use rustc_hash::FxHashMap;
use std::collections::hash_map::DefaultHasher;
use std::hash::Hasher;
use vstd::bytes::{spec_u32_to_le_bytes, u32_to_le_bytes};
use vstd::prelude::*;
use vstd::std_specs::hash::DefaultHasherAdditionalSpecFns;

verus! {

/// `rustc_hash::FxHasher`, the hasher of the maps and sets of this library.
/// Nothing is known of what is inside.
#[verifier::external_type_specification]
#[verifier::external_body]
pub struct ExFxHasher(rustc_hash::FxHasher);

/// `core::hash::BuildHasherDefault`, which makes the hasher of a map anew
/// for each key. Nothing is known of what is inside.
#[verifier::external_type_specification]
#[verifier::external_body]
#[verifier::reject_recursive_types(H)]
pub struct ExBuildHasherDefault<H>(core::hash::BuildHasherDefault<H>);

/// What a `rustc_hash::FxHashMap` from names to counts holds: for each name
/// that is a key, the count that is held for it.
pub uninterp spec fn counts_of(map: FxHashMap<String, u32>) -> Map<Seq<char>, u32>;

/// The counts of no name at all.
pub open spec fn no_counts() -> Map<Seq<char>, u32> {
    Map::empty()
}

/// `FxHashMap::default`, which is `HashMap::default` with the hasher of
/// `rustc_hash`: the new map holds nothing.
#[verifier::external_body]
fn counts_new() -> (map: FxHashMap<String, u32>)
    ensures
        counts_of(map) == no_counts(),
{
    FxHashMap::default()
}

/// `HashMap::clear` on a `FxHashMap`: the map holds nothing afterwards.
#[verifier::external_body]
fn counts_clear(map: &mut FxHashMap<String, u32>)
    ensures
        counts_of(*final(map)) == no_counts(),
{
    map.clear()
}

/// `HashMap::get` on a `FxHashMap`: the count that is held for the key
/// `name`, and nothing if `name` is no key. Keys are the same where their
/// characters are.
#[verifier::external_body]
fn counts_get(map: &FxHashMap<String, u32>, name: &str) -> (count: Option<u32>)
    ensures
        count == if counts_of(*map).contains_key(name@) {
            Some(counts_of(*map)[name@])
        } else {
            None
        },
{
    map.get(name).copied()
}

/// `HashMap::insert` on a `FxHashMap`: the key `name` holds `count`
/// afterwards, whether it was a key or not, and every other key what it
/// held.
#[verifier::external_body]
fn counts_insert(map: &mut FxHashMap<String, u32>, name: &str, count: u32)
    ensures
        counts_of(*final(map)) == counts_of(*old(map)).insert(name@, count),
{
    map.insert(name.to_owned(), count);
}

/// What a `rustc_hash::FxHashMap` from places to hashes holds: for each
/// place that is a key, given by its start and its end, the hash that is
/// held for it.
pub uninterp spec fn hashes_of(map: FxHashMap<(u32, u32), u64>) -> Map<(u32, u32), u64>;

/// The hashes of no place at all.
pub open spec fn no_hashes() -> Map<(u32, u32), u64> {
    Map::empty()
}

/// `FxHashMap::default`, which is `HashMap::default` with the hasher of
/// `rustc_hash`: the new map holds nothing.
#[verifier::external_body]
fn hashes_new() -> (map: FxHashMap<(u32, u32), u64>)
    ensures
        hashes_of(map) == no_hashes(),
{
    FxHashMap::default()
}

/// `HashMap::get` on a `FxHashMap`: the hash that is held for the key
/// `place`, and nothing if `place` is no key. Keys are the same where both
/// their numbers are.
#[verifier::external_body]
fn hashes_get(map: &FxHashMap<(u32, u32), u64>, place: (u32, u32)) -> (hash: Option<u64>)
    ensures
        hash == if hashes_of(*map).contains_key(place) {
            Some(hashes_of(*map)[place])
        } else {
            None
        },
{
    map.get(&place).copied()
}

/// `HashMap::insert` on a `FxHashMap`: the key `place` holds `hash`
/// afterwards, whether it was a key or not, and every other key what it
/// held.
#[verifier::external_body]
fn hashes_insert(map: &mut FxHashMap<(u32, u32), u64>, place: (u32, u32), hash: u64)
    ensures
        hashes_of(*final(map)) == hashes_of(*old(map)).insert(place, hash),
{
    map.insert(place, hash);
}

/// For each name, how many local variables of that name have been bound so
/// far in the function at hand; and for each local that was bound so far,
/// by the place of its declaration, the hash that it was given.
pub struct ShadowCounts {
    map: FxHashMap<String, u32>,
    given: FxHashMap<(u32, u32), u64>,
}

impl View for ShadowCounts {
    type V = Map<Seq<char>, u32>;

    closed spec fn view(&self) -> Map<Seq<char>, u32> {
        counts_of(self.map)
    }
}

/// The count that `counts` holds for `name`: zero for a name it does not know.
pub open spec fn count_of(counts: Map<Seq<char>, u32>, name: Seq<char>) -> u32 {
    if counts.contains_key(name) {
        counts[name]
    } else {
        0
    }
}

impl ShadowCounts {
    /// The hash that each local bound so far was given, by the place of its
    /// declaration.
    pub closed spec fn hashes(&self) -> Map<TextRange, u64> {
        Map::new(
            |place: TextRange| hashes_of(self.given).contains_key((place.start, place.end)),
            |place: TextRange| hashes_of(self.given)[(place.start, place.end)],
        )
    }

    pub fn new() -> (counts: ShadowCounts)
        ensures
            counts@ == Map::<Seq<char>, u32>::empty(),
            counts.hashes() == Map::<TextRange, u64>::empty(),
    {
        let counts = ShadowCounts { map: counts_new(), given: hashes_new() };
        assert(counts.hashes() =~= Map::<TextRange, u64>::empty());
        counts
    }

    /// Forgets the counts of all names, as is done where a function starts.
    /// The hashes of the locals that were bound are kept.
    pub fn clear(&mut self)
        ensures
            final(self)@ == Map::<Seq<char>, u32>::empty(),
            final(self).hashes() == old(self).hashes(),
    {
        counts_clear(&mut self.map);
    }

    /// The count of `name`: zero for a name that is not known.
    pub fn peek(&self, name: &str) -> (count: u32)
        ensures
            count == count_of(self@, name@),
    {
        match counts_get(&self.map, name) {
            Some(count) => count,
            None => 0,
        }
    }

    /// The count of `name`, which is entered with zero if it was not known.
    pub fn get_or_enter(&mut self, name: &str) -> (count: u32)
        ensures
            count == count_of(old(self)@, name@),
            final(self)@ == old(self)@.insert(name@, count),
            final(self).hashes() == old(self).hashes(),
    {
        match counts_get(&self.map, name) {
            Some(count) => {
                assert(self@.insert(name@, count) =~= self@);
                count
            },
            None => {
                counts_insert(&mut self.map, name, 0);
                0
            },
        }
    }

    /// Counts one more binding of `name`, and returns the new count.
    pub fn bump(&mut self, name: &str) -> (count: u32)
        requires
            count_of(old(self)@, name@) < u32::MAX,
        ensures
            count == count_of(old(self)@, name@) + 1,
            final(self)@ == old(self)@.insert(name@, count),
            final(self).hashes() == old(self).hashes(),
    {
        let count = match counts_get(&self.map, name) {
            Some(count) => count + 1,
            None => 1,
        };
        counts_insert(&mut self.map, name, count);
        count
    }

    /// The hash that the local declared at `place` was given, if it was
    /// bound so far.
    pub fn hash_at(&self, place: TextRange) -> (hash: Option<u64>)
        ensures
            hash == if self.hashes().contains_key(place) {
                Some(self.hashes()[place])
            } else {
                None
            },
    {
        hashes_get(&self.given, (place.start(), place.end()))
    }

    /// Notes that the local declared at `place` was given `hash`.
    pub fn record(&mut self, place: TextRange, hash: u64)
        ensures
            final(self)@ == old(self)@,
            final(self).hashes() == old(self).hashes().insert(place, hash),
    {
        hashes_insert(&mut self.given, (place.start(), place.end()), hash);
        assert(self.hashes() =~= old(self).hashes().insert(place, hash));
    }
}

/// The hash that identifies the binding of `name` which is the
/// `shadow_count`-th of that name: the hash of the name's bytes followed by
/// those of the count.
pub open spec fn binding_hash(name: Seq<char>, shadow_count: u32) -> u64 {
    DefaultHasher::spec_finish(
        seq![vstd::utf8::encode_utf8(name), spec_u32_to_le_bytes(shadow_count)],
    )
}

pub fn calc_binding_hash(name: &str, shadow_count: u32) -> (hash: u64)
    ensures
        hash == binding_hash(name@, shadow_count),
{
    let mut hasher = DefaultHasher::new();
    hasher.write(name.as_bytes());
    let count_bytes = u32_to_le_bytes(shadow_count);
    hasher.write(count_bytes.as_slice());
    assert(hasher@ =~= seq![vstd::utf8::encode_utf8(name@), spec_u32_to_le_bytes(shadow_count)]);
    hasher.finish()
}

} // verus!
