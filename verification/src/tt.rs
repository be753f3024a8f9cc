//! The transposition table: a cache of search results by position key.
//!
//! The table is an array of buckets of three entries. The low bits of a
//! position's key pick the bucket, the top sixteen bits are kept in the
//! entry to tell positions apart. An entry whose kept bits are zero counts
//! as empty. A generation counter, bumped for every new search, ages the
//! entries: when a bucket is full, the entry that goes is the one of least
//! worth, where depth adds to the worth and every generation of age takes
//! eight plies off it, and of two entries of the same aged depth the one
//! with an exact bound is worth more.

use vstd::prelude::*;
use crate::piece_move::BitMove;
use crate::score::finite;

verus! {

/// Entries in a bucket.
pub const CLUSTER_SIZE: usize = 3;

/// Bytes that a bucket is counted as when the table is sized.
pub const CLUSTER_BYTES: usize = 32;

/// Buckets that fit into one megabyte.
pub const CLUSTERS_PER_MB: usize = 32768;

/// The largest table size, in megabytes.
pub const MAX_TT_SIZE: usize = 16384;

/// Number of generations before the counter wraps.
pub const GENERATIONS: u8 = 64;

/// What a stored score says about the true value of its position.
#[derive(Clone, Copy, PartialEq, Eq, Structural, Debug)]
pub enum NodeBound {
    /// Nothing.
    NoBound,
    /// The value is at least the score.
    LowerBound,
    /// The value is at most the score.
    UpperBound,
    /// The value is the score.
    Exact,
}

impl NodeBound {
    /// The two bits that stand for the bound: bit 0 for lower, bit 1 for upper.
    pub open spec fn code(self) -> int {
        match self {
            NodeBound::NoBound => 0,
            NodeBound::LowerBound => 1,
            NodeBound::UpperBound => 2,
            NodeBound::Exact => 3,
        }
    }

    /// The bound that two bits stand for.
    pub open spec fn of_code(code: int) -> NodeBound {
        if code % 4 == 0 {
            NodeBound::NoBound
        } else if code % 4 == 1 {
            NodeBound::LowerBound
        } else if code % 4 == 2 {
            NodeBound::UpperBound
        } else {
            NodeBound::Exact
        }
    }

    /// Whether the score bounds the value from below.
    pub open spec fn is_lower(self) -> bool {
        self == NodeBound::LowerBound || self == NodeBound::Exact
    }

    /// Whether the score bounds the value from above.
    pub open spec fn is_upper(self) -> bool {
        self == NodeBound::UpperBound || self == NodeBound::Exact
    }

    /// Returns the two bits that stand for the bound.
    pub fn to_bits(self) -> (b: u8)
        ensures
            b == self.code(),
    {
        match self {
            NodeBound::NoBound => 0,
            NodeBound::LowerBound => 1,
            NodeBound::UpperBound => 2,
            NodeBound::Exact => 3,
        }
    }

    /// Returns the bound that the low two bits of a byte stand for.
    pub fn from_bits(b: u8) -> (bound: NodeBound)
        ensures
            bound == NodeBound::of_code(b as int),
    {
        let low = b % 4;
        if low == 0 {
            NodeBound::NoBound
        } else if low == 1 {
            NodeBound::LowerBound
        } else if low == 2 {
            NodeBound::UpperBound
        } else {
            NodeBound::Exact
        }
    }
}

/// The sixteen bits of a position key that an entry keeps.
pub open spec fn partial_key_of(zob: u64) -> u16 {
    (zob as int / 0x1_0000_0000_0000) as u16
}

/// One stored search result.
#[derive(Clone, Copy, PartialEq, Eq, Debug)]
pub struct Entry {
    /// The top sixteen bits of the position key; zero in an empty entry.
    pub partial_key: u16,
    /// The best move found, or the null move.
    pub best_move: BitMove,
    /// The score of the search.
    pub score: i16,
    /// The static evaluation; zero where none was stored.
    pub eval: i16,
    /// Plies that the search had left below the position.
    pub depth: u8,
    /// The generation, times four, plus the two bits of the bound.
    pub time_node_bound: u8,
}

impl Entry {
    /// The entry that stands for nothing stored.
    pub open spec fn vacant() -> Entry {
        Entry {
            partial_key: 0,
            best_move: BitMove::spec_null(),
            score: 0,
            eval: 0,
            depth: 0,
            time_node_bound: 0,
        }
    }

    /// The bound of the stored score.
    pub open spec fn bound(self) -> NodeBound {
        NodeBound::of_code(self.time_node_bound as int)
    }

    /// The generation in which the entry was last written or found.
    pub open spec fn generation(self) -> int {
        self.time_node_bound as int / 4
    }

    /// Score and evaluation are finite.
    pub open spec fn wf(self) -> bool {
        finite(self.score as int) && finite(self.eval as int)
    }

    /// The entry with its generation replaced.
    pub open spec fn with_generation(self, generation: u8) -> Entry {
        Entry {
            time_node_bound: (generation * 4 + self.time_node_bound % 4) as u8,
            ..self
        }
    }

    /// How many generations ago the entry was last written or found, as
    /// seen in generation `now`.
    pub open spec fn age(self, now: u8) -> int {
        (64 + now - self.generation()) % 64
    }

    /// The worth of the entry when a victim is picked.
    pub open spec fn worth(self, now: u8) -> int {
        2 * (self.depth - 8 * self.age(now)) + if self.bound() == NodeBound::Exact {
            1int
        } else {
            0int
        }
    }

    /// An entry that stands for nothing stored.
    pub fn empty() -> (e: Entry)
        ensures
            e == Entry::vacant(),
            e.wf(),
    {
        Entry {
            partial_key: 0,
            best_move: BitMove::null(),
            score: 0,
            eval: 0,
            depth: 0,
            time_node_bound: 0,
        }
    }

    /// Returns the bound of the stored score.
    pub fn node_type(&self) -> (b: NodeBound)
        ensures
            b == self.bound(),
    {
        NodeBound::from_bits(self.time_node_bound)
    }

    /// Returns the generation in which the entry was last written or found.
    pub fn time(&self) -> (g: u8)
        ensures
            g == self.generation(),
    {
        self.time_node_bound / 4
    }

    /// Returns the worth of the entry as seen in generation `now`.
    pub fn time_value(&self, now: u8) -> (w: i32)
        requires
            now < 64,
        ensures
            w == self.worth(now),
    {
        let age: i32 = (64 + now as i32 - (self.time_node_bound / 4) as i32) % 64;
        let exact: i32 = if self.time_node_bound % 4 == 3 {
            1
        } else {
            0
        };
        2 * (self.depth as i32 - 8 * age) + exact
    }
}

/// The content of a table: its entries, bucket after bucket, and the
/// current generation.
pub struct TtView {
    pub entries: Seq<Entry>,
    pub generation: u8,
}

/// What a probe finds.
pub struct Probe {
    /// Whether the position was found.
    pub hit: bool,
    /// The place of the entry found or, on a miss, of the entry to fill.
    pub slot: int,
    /// The table after the probe.
    pub table: TtView,
}

/// Whether a number is a power of two.
pub open spec fn is_power_of_two(n: int) -> bool
    decreases n,
{
    if n <= 0 {
        false
    } else if n == 1 {
        true
    } else {
        n % 2 == 0 && is_power_of_two(n / 2)
    }
}

impl TtView {
    /// The number of buckets.
    pub open spec fn clusters(self) -> int {
        self.entries.len() as int / 3
    }

    /// The table holds a power of two of whole buckets, the generation is
    /// in range, and every stored score and evaluation is finite.
    pub open spec fn wf(self) -> bool {
        &&& self.entries.len() == 3 * self.clusters()
        &&& is_power_of_two(self.clusters())
        &&& self.generation < 64
        &&& forall|i: int| 0 <= i < self.entries.len() ==> (#[trigger] self.entries[i]).wf()
    }

    /// The place of the first entry of the bucket of a position.
    pub open spec fn base(self, zob: u64) -> int {
        (zob as int % self.clusters()) * 3
    }

    /// The place, counted inside the bucket, of the entry of least worth;
    /// of several the first.
    pub open spec fn victim(self, base: int) -> int {
        let w0 = self.entries[base].worth(self.generation);
        let w1 = self.entries[base + 1].worth(self.generation);
        let w2 = self.entries[base + 2].worth(self.generation);
        let first = if w1 < w0 {
            1int
        } else {
            0int
        };
        let least = if w1 < w0 {
            w1
        } else {
            w0
        };
        if w2 < least {
            2
        } else {
            first
        }
    }

    /// What a probe finds at an entry that is empty or holds the position:
    /// a miss at an empty entry, else a hit that brings the entry's
    /// generation up to date.
    pub open spec fn claimed(self, slot: int) -> Probe {
        let e = self.entries[slot];
        if e.partial_key != 0 {
            Probe {
                hit: true,
                slot,
                table: TtView {
                    entries: self.entries.update(slot, e.with_generation(self.generation)),
                    generation: self.generation,
                },
            }
        } else {
            Probe { hit: false, slot, table: self }
        }
    }

    /// What a probe for a position finds: the first entry of its bucket
    /// that is empty or holds the position, or else the bucket's victim.
    pub open spec fn probe(self, zob: u64) -> Probe {
        let key = partial_key_of(zob);
        let base = self.base(zob);
        if self.entries[base].partial_key == 0 || self.entries[base].partial_key == key {
            self.claimed(base)
        } else if self.entries[base + 1].partial_key == 0 || self.entries[base + 1].partial_key
            == key {
            self.claimed(base + 1)
        } else if self.entries[base + 2].partial_key == 0 || self.entries[base + 2].partial_key
            == key {
            self.claimed(base + 2)
        } else {
            Probe { hit: false, slot: base + self.victim(base), table: self }
        }
    }

    /// The table after a result is stored at a place.
    pub open spec fn place(
        self,
        slot: int,
        zob: u64,
        best_move: BitMove,
        score: i16,
        eval: i16,
        depth: u8,
        bound: NodeBound,
    ) -> TtView {
        TtView {
            entries: self.entries.update(
                slot,
                Entry {
                    partial_key: partial_key_of(zob),
                    best_move,
                    score,
                    eval,
                    depth,
                    time_node_bound: (self.generation * 4 + bound.code()) as u8,
                },
            ),
            generation: self.generation,
        }
    }
}

/// A probe of a sound table names a place in the bucket of the position
/// and leaves the table sound; and it is a hit exactly where the entry at
/// that place holds the position's key bits and these are not all zero.
pub proof fn lemma_probe(table: TtView, zob: u64)
    requires
        table.wf(),
    ensures
        0 <= table.probe(zob).slot < table.entries.len(),
        table.base(zob) <= table.probe(zob).slot < table.base(zob) + 3,
        table.probe(zob).table.wf(),
        table.probe(zob).table.entries.len() == table.entries.len(),
        table.probe(zob).table.generation == table.generation,
        table.probe(zob).hit <==> table.entries[table.probe(zob).slot].partial_key
            == partial_key_of(zob) && partial_key_of(zob) != 0,
        table.probe(zob).table.entries[table.probe(zob).slot].partial_key
            == table.entries[table.probe(zob).slot].partial_key,
{
    let c = table.clusters();
    assert(c >= 1);
    let b = table.base(zob);
    assert(0 <= zob as int % c < c);
    assert(0 <= b && b + 3 <= table.entries.len()) by (nonlinear_arith)
        requires
            b == (zob as int % c) * 3,
            0 <= zob as int % c < c,
            table.entries.len() == 3 * c,
    ;
    let p = table.probe(zob);
    assert forall|i: int| 0 <= i < p.table.entries.len() implies (#[trigger] p.table.entries[i]).wf() by {
        if i != p.slot {
            assert(p.table.entries[i] == table.entries[i]);
        } else {
            assert(table.entries[i].wf());
        }
    }
}

/// What is stored for a position at the place that a probe named is found
/// by the next probe for the position, at the same place, unless the bits
/// that the entry keeps of the position's key are all zero.
pub proof fn lemma_place_then_probe(
    table: TtView,
    zob: u64,
    best_move: BitMove,
    score: i16,
    eval: i16,
    depth: u8,
    bound: NodeBound,
)
    requires
        table.wf(),
        partial_key_of(zob) != 0,
    ensures
        ({
            let first = table.probe(zob);
            let stored = first.table.place(first.slot, zob, best_move, score, eval, depth, bound);
            let second = stored.probe(zob);
            &&& second.hit
            &&& second.slot == first.slot
            &&& second.table.entries[second.slot].best_move == best_move
            &&& second.table.entries[second.slot].score == score
            &&& second.table.entries[second.slot].eval == eval
            &&& second.table.entries[second.slot].depth == depth
            &&& second.table.entries[second.slot].bound() == bound
        }),
{
    lemma_probe(table, zob);
    let first = table.probe(zob);
    let stored = first.table.place(first.slot, zob, best_move, score, eval, depth, bound);
    assert(stored.clusters() == table.clusters());
    assert(stored.base(zob) == table.base(zob));
    let base = table.base(zob);
    assert(first.table.entries[base].partial_key == table.entries[base].partial_key);
    assert(first.table.entries[base + 1].partial_key == table.entries[base + 1].partial_key);
    assert(first.table.entries[base + 2].partial_key == table.entries[base + 2].partial_key);
}

/// The transposition table.
pub struct TranspositionTable {
    entries: Vec<Entry>,
    clusters: usize,
    generation: u8,
}

impl View for TranspositionTable {
    type V = TtView;

    closed spec fn view(&self) -> TtView {
        TtView { entries: self.entries@, generation: self.generation }
    }
}

impl TranspositionTable {
    /// The table's own consistency.
    pub closed spec fn inv(&self) -> bool {
        self.entries@.len() == 3 * self.clusters
    }

    /// The table is consistent and its content sound.
    pub open spec fn wf(&self) -> bool {
        self.inv() && self@.wf()
    }

    /// A table of the largest power of two of buckets that fit into
    /// `mb_size` megabytes, all entries empty.
    pub fn new(mb_size: usize) -> (table: TranspositionTable)
        requires
            0 < mb_size <= MAX_TT_SIZE,
        ensures
            table.wf(),
            table@.clusters() * CLUSTER_BYTES <= mb_size * 1048576,
            table@.clusters() * CLUSTER_BYTES * 2 > mb_size * 1048576,
            table@.generation == 0,
            forall|i: int| 0 <= i < table@.entries.len() ==> table@.entries[i] == Entry::vacant(),
    {
        let target: usize = mb_size * CLUSTERS_PER_MB;
        let mut clusters: usize = 1;
        while clusters <= target / 2
            invariant
                1 <= clusters <= target,
                target == mb_size * 32768,
                mb_size <= 16384,
                is_power_of_two(clusters as int),
            decreases target - clusters,
        {
            assert(is_power_of_two((clusters * 2) as int)) by {
                assert((clusters * 2) / 2 == clusters);
            }
            clusters = clusters * 2;
        }
        let total: usize = clusters * 3;
        let mut entries: Vec<Entry> = Vec::new();
        let mut i: usize = 0;
        while i < total
            invariant
                i <= total,
                entries@.len() == i,
                forall|k: int| 0 <= k < i ==> entries@[k] == Entry::vacant(),
            decreases total - i,
        {
            entries.push(Entry::empty());
            i += 1;
        }
        TranspositionTable { entries, clusters, generation: 0 }
    }

    /// Returns the number of buckets.
    pub fn num_clusters(&self) -> (n: usize)
        requires
            self.wf(),
        ensures
            n == self@.clusters(),
    {
        self.clusters
    }

    /// Looks a position up. Returns whether it was found, and the place of
    /// its entry or, on a miss, of the entry that a result for it should
    /// overwrite. A hit brings the entry's generation up to date.
    pub fn probe(&mut self, zob: u64) -> (r: (bool, usize))
        requires
            old(self).wf(),
        ensures
            final(self).wf(),
            r.0 == old(self)@.probe(zob).hit,
            r.1 == old(self)@.probe(zob).slot,
            final(self)@ == old(self)@.probe(zob).table,
            r.1 < final(self)@.entries.len(),
    {
        proof {
            lemma_probe(self@, zob);
        }
        let key: u16 = (zob / 0x1_0000_0000_0000) as u16;
        assert(self.clusters as int == self@.clusters());
        assert(self.clusters >= 1);
        let index: usize = (zob % (self.clusters as u64)) as usize;
        let total: usize = self.entries.len();
        assert(index * 3 + 3 <= total) by (nonlinear_arith)
            requires
                index < self.clusters,
                total == 3 * self.clusters,
        ;
        let base: usize = index * 3;
        assert(base == self@.base(zob));
        let e0 = self.entries[base];
        if e0.partial_key == 0 || e0.partial_key == key {
            return self.claim(base);
        }
        let e1 = self.entries[base + 1];
        if e1.partial_key == 0 || e1.partial_key == key {
            return self.claim(base + 1);
        }
        let e2 = self.entries[base + 2];
        if e2.partial_key == 0 || e2.partial_key == key {
            return self.claim(base + 2);
        }
        let now = self.generation;
        let w0 = self.entries[base].time_value(now);
        let w1 = self.entries[base + 1].time_value(now);
        let w2 = self.entries[base + 2].time_value(now);
        let mut pick: usize = 0;
        let mut least = w0;
        if w1 < least {
            pick = 1;
            least = w1;
        }
        if w2 < least {
            pick = 2;
        }
        (false, base + pick)
    }

    /// Answers a probe at an entry that is empty or holds the position.
    fn claim(&mut self, slot: usize) -> (r: (bool, usize))
        requires
            old(self).wf(),
            slot < old(self)@.entries.len(),
        ensures
            final(self).inv(),
            r.0 == old(self)@.claimed(slot as int).hit,
            r.1 == slot,
            final(self)@ == old(self)@.claimed(slot as int).table,
    {
        let e = self.entries[slot];
        if e.partial_key != 0 {
            let mut fresh = e;
            fresh.time_node_bound = self.generation * 4 + e.time_node_bound % 4;
            self.entries[slot] = fresh;
            assert(self@.entries =~= old(self)@.claimed(slot as int).table.entries);
            (true, slot)
        } else {
            (false, slot)
        }
    }

    /// Returns the entry at a place.
    pub fn entry(&self, slot: usize) -> (e: Entry)
        requires
            self.wf(),
            slot < self@.entries.len(),
        ensures
            e == self@.entries[slot as int],
            e.wf(),
    {
        self.entries[slot]
    }

    /// Stores a result for a position at a place, in the current
    /// generation.
    pub fn place(
        &mut self,
        slot: usize,
        zob: u64,
        best_move: BitMove,
        score: i16,
        eval: i16,
        depth: u8,
        bound: NodeBound,
    )
        requires
            old(self).wf(),
            slot < old(self)@.entries.len(),
            finite(score as int),
            finite(eval as int),
        ensures
            final(self).wf(),
            final(self)@ == old(self)@.place(slot as int, zob, best_move, score, eval, depth, bound),
    {
        let e = Entry {
            partial_key: (zob / 0x1_0000_0000_0000) as u16,
            best_move,
            score,
            eval,
            depth,
            time_node_bound: self.generation * 4 + bound.to_bits(),
        };
        self.entries[slot] = e;
        proof {
            let after = old(self)@.place(slot as int, zob, best_move, score, eval, depth, bound);
            assert(self@.entries =~= after.entries);
            assert forall|i: int| 0 <= i < self@.entries.len() implies (#[trigger] self@.entries[i]).wf() by {
                if i != slot {
                    assert(self@.entries[i] == old(self)@.entries[i]);
                }
            }
        }
    }

    /// A hint that the bucket of a position will be needed soon. It has no
    /// effect on the content of the table.
    pub fn prefetch(&self, zob: u64) {
    }

    /// Empties every entry and resets the generation.
    pub fn clear(&mut self)
        requires
            old(self).wf(),
        ensures
            final(self).wf(),
            final(self)@.entries.len() == old(self)@.entries.len(),
            final(self)@.generation == 0,
            forall|i: int|
                0 <= i < final(self)@.entries.len() ==> final(self)@.entries[i] == Entry::vacant(),
    {
        let mut i: usize = 0;
        while i < self.entries.len()
            invariant
                i <= self.entries@.len(),
                self.entries@.len() == old(self).entries@.len(),
                self.clusters == old(self).clusters,
                forall|k: int| 0 <= k < i ==> self.entries@[k] == Entry::vacant(),
            decreases self.entries@.len() - i,
        {
            self.entries[i] = Entry::empty();
            i += 1;
        }
        self.generation = 0;
    }

    /// Starts a new search: the generation moves on by one and wraps at 64.
    pub fn new_search(&mut self)
        requires
            old(self).wf(),
        ensures
            final(self).wf(),
            final(self)@.entries == old(self)@.entries,
            final(self)@.generation == (old(self)@.generation + 1) % 64,
    {
        self.generation = (self.generation + 1) % GENERATIONS;
    }
}

} // verus!
