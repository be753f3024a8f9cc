//! The caches that a worker hands to the evaluation: one for pawn
//! structures, one for material.

use vstd::prelude::*;
use crate::score::Value;

verus! {

/// One place of a cache.
#[derive(Clone, Copy, PartialEq, Eq, Debug)]
pub struct CacheEntry {
    /// The key under which the value was stored.
    pub key: u64,
    /// The value.
    pub value: Value,
    /// Whether anything was stored at this place.
    pub used: bool,
}

/// The place of a key in a cache of `len` places.
pub open spec fn cache_slot(len: int, key: u64) -> int {
    key as int % len
}

/// What a cache holds for a key: the value at the key's place, if that
/// place was filled under this very key.
pub open spec fn cached(entries: Seq<CacheEntry>, key: u64) -> Option<Value> {
    let e = entries[cache_slot(entries.len() as int, key)];
    if e.used && e.key == key {
        Some(e.value)
    } else {
        None
    }
}

/// The cache after a value is stored under a key.
pub open spec fn stored(entries: Seq<CacheEntry>, key: u64, value: Value) -> Seq<CacheEntry> {
    entries.update(
        cache_slot(entries.len() as int, key),
        CacheEntry { key, value, used: true },
    )
}

/// What was stored under a key is found under it, and a key with another
/// place is found as before.
pub proof fn lemma_stored_then_cached(
    entries: Seq<CacheEntry>,
    key: u64,
    value: Value,
    other: u64,
)
    requires
        entries.len() > 0,
    ensures
        cached(stored(entries, key, value), key) == Some(value),
        cache_slot(entries.len() as int, other) != cache_slot(entries.len() as int, key)
            ==> cached(stored(entries, key, value), other) == cached(entries, other),
{
}

/// A cache of values by key with one place for each residue of the key.
/// A value stays until another key with the same place is stored.
#[derive(Debug)]
pub struct EvalCache {
    entries: Vec<CacheEntry>,
}

impl View for EvalCache {
    type V = Seq<CacheEntry>;

    closed spec fn view(&self) -> Seq<CacheEntry> {
        self.entries@
    }
}

impl EvalCache {
    /// The cache has a place.
    pub open spec fn wf(&self) -> bool {
        self@.len() > 0
    }

    /// A cache of `size` places, all unused.
    pub fn new(size: usize) -> (cache: EvalCache)
        requires
            size > 0,
        ensures
            cache.wf(),
            cache@.len() == size,
            forall|i: int| 0 <= i < size ==> !(#[trigger] cache@[i]).used,
    {
        let mut entries: Vec<CacheEntry> = Vec::new();
        let mut i: usize = 0;
        while i < size
            invariant
                i <= size,
                entries@.len() == i,
                forall|k: int| 0 <= k < i ==> !(#[trigger] entries@[k]).used,
            decreases size - i,
        {
            entries.push(CacheEntry { key: 0, value: 0, used: false });
            i += 1;
        }
        EvalCache { entries }
    }

    /// Returns the number of places.
    pub fn size(&self) -> (n: usize)
        ensures
            n == self@.len(),
    {
        self.entries.len()
    }

    /// Returns the value stored under a key, if it is still there.
    pub fn get(&self, key: u64) -> (r: Option<Value>)
        requires
            self.wf(),
        ensures
            r == cached(self@, key),
    {
        let slot: usize = (key % (self.entries.len() as u64)) as usize;
        let e = self.entries[slot];
        if e.used && e.key == key {
            Some(e.value)
        } else {
            None
        }
    }

    /// Stores a value under a key.
    pub fn put(&mut self, key: u64, value: Value)
        requires
            old(self).wf(),
        ensures
            final(self).wf(),
            final(self)@ == stored(old(self)@, key, value),
    {
        let slot: usize = (key % (self.entries.len() as u64)) as usize;
        self.entries[slot] = CacheEntry { key, value, used: true };
    }

    /// Empties the cache.
    pub fn clear(&mut self)
        ensures
            final(self)@.len() == old(self)@.len(),
            forall|i: int| 0 <= i < final(self)@.len() ==> !(#[trigger] final(self)@[i]).used,
    {
        let mut i: usize = 0;
        while i < self.entries.len()
            invariant
                i <= self.entries@.len(),
                self.entries@.len() == old(self).entries@.len(),
                forall|k: int| 0 <= k < i ==> !(#[trigger] self.entries@[k]).used,
            decreases self.entries@.len() - i,
        {
            self.entries[i] = CacheEntry { key: 0, value: 0, used: false };
            i += 1;
        }
    }
}

/// The cache of pawn structure scores.
#[derive(Debug)]
pub struct PawnTable {
    pub cache: EvalCache,
}

impl PawnTable {
    /// A table of `size` places, all unused.
    pub fn new(size: usize) -> (table: PawnTable)
        requires
            size > 0,
        ensures
            table.cache.wf(),
            table.cache@.len() == size,
    {
        PawnTable { cache: EvalCache::new(size) }
    }
}

/// The cache of material scores.
#[derive(Debug)]
pub struct Material {
    pub cache: EvalCache,
}

impl Material {
    /// A table of `size` places, all unused.
    pub fn new(size: usize) -> (table: Material)
        requires
            size > 0,
        ensures
            table.cache.wf(),
            table.cache@.len() == size,
    {
        Material { cache: EvalCache::new(size) }
    }
}

} // verus!
