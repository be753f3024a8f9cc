//! The moves open at the root of a search, with the scores that the
//! iterations give them.

use rand::seq::SliceRandom;
use vstd::prelude::*;
use crate::piece_move::BitMove;
use crate::score::{Value, NEG_INFINITE};
use crate::stable_sort::{
    lemma_stable_order, lemma_stable_order_permutes, permute, reordered, sort_order, stable_order,
};

verus! {

/// A root move with the score of this iteration, the score of the one
/// before, and the depth to which it was last searched.
#[derive(Clone, Copy, PartialEq, Eq, Debug)]
pub struct RootMove {
    pub bit_move: BitMove,
    pub prev_score: Value,
    pub score: Value,
    pub depth_reached: u16,
}

impl RootMove {
    /// The record of a move that no iteration has scored.
    pub open spec fn fresh(bit_move: BitMove) -> RootMove {
        RootMove { bit_move, prev_score: NEG_INFINITE, score: NEG_INFINITE, depth_reached: 0 }
    }

    /// The record at the start of the next iteration: the score becomes the
    /// previous score and is reset to minus infinity.
    pub open spec fn rolled_back(self) -> RootMove {
        RootMove {
            bit_move: self.bit_move,
            prev_score: self.score,
            score: NEG_INFINITE,
            depth_reached: self.depth_reached,
        }
    }

    /// The key by which root moves are sorted: the negated score, so that
    /// the highest score comes first.
    pub open spec fn sort_key(self) -> i64 {
        (-(self.score as int)) as i64
    }

    /// A record for a move that no iteration has scored.
    pub fn new(bit_move: BitMove) -> (r: RootMove)
        ensures
            r == RootMove::fresh(bit_move),
    {
        RootMove { bit_move, prev_score: NEG_INFINITE, score: NEG_INFINITE, depth_reached: 0 }
    }

    /// Makes the score the previous score and resets it to minus infinity.
    pub fn rollback(&mut self)
        ensures
            *final(self) == old(self).rolled_back(),
    {
        self.prev_score = self.score;
        self.score = NEG_INFINITE;
    }
}

/// The moves of a list of records, in order.
pub open spec fn moves_of(roots: Seq<RootMove>) -> Seq<BitMove> {
    Seq::new(roots.len(), |i: int| roots[i].bit_move)
}

/// The sort keys of a list of records, in order.
pub open spec fn sort_keys(roots: Seq<RootMove>) -> Seq<i64> {
    Seq::new(roots.len(), |i: int| roots[i].sort_key())
}

/// A list of records sorted by score, highest first, records with equal
/// scores in the order they had.
pub open spec fn sorted_by_score(roots: Seq<RootMove>) -> Seq<RootMove> {
    reordered(roots, stable_order(sort_keys(roots)))
}

/// Whether the scores of a list of records never rise along the list.
pub open spec fn best_first(roots: Seq<RootMove>) -> bool {
    forall|i: int, j: int| 0 <= i < j < roots.len() ==> roots[i].score >= roots[j].score
}

/// Whether no record of a list has a score above `value` and the first
/// record has that very score.
pub open spec fn led_by(roots: Seq<RootMove>, value: int) -> bool {
    &&& roots.len() > 0
    &&& roots[0].score == value
    &&& forall|k: int| 0 <= k < roots.len() ==> (#[trigger] roots[k]).score <= value
}

/// A list of records sorted by score has its best record first.
pub proof fn lemma_sorted_best_first(roots: Seq<RootMove>)
    requires
        roots.len() <= usize::MAX,
    ensures
        best_first(sorted_by_score(roots)),
{
    let keys = sort_keys(roots);
    let order = stable_order(keys);
    lemma_stable_order(keys, roots.len() as int);
    let out = sorted_by_score(roots);
    assert forall|i: int, j: int| 0 <= i < j < out.len() implies out[i].score >= out[j].score by {
        assert(crate::stable_sort::before(keys, order[i], order[j]));
    }
}

/// Where no record has a score above `value` and one has that score, the
/// list rearranged with its best record first is led by that score.
pub proof fn lemma_best_record_leads(before: Seq<RootMove>, after: Seq<RootMove>, value: int)
    requires
        rearranged(before, after),
        best_first(after),
        forall|k: int| 0 <= k < before.len() ==> (#[trigger] before[k]).score <= value,
        exists|k: int| 0 <= k < before.len() && (#[trigger] before[k]).score == value,
    ensures
        led_by(after, value),
{
    broadcast use vstd::seq_lib::to_multiset_contains;

    let k = choose|k: int| 0 <= k < before.len() && (#[trigger] before[k]).score == value;
    assert(before.contains(before[k]));
    assert(before.to_multiset().count(before[k]) > 0);
    assert(after.to_multiset().count(before[k]) > 0);
    assert(after.contains(before[k]));
    let j = choose|j: int| 0 <= j < after.len() && after[j] == before[k];
    assert(after[0].score >= after[j].score);
    assert forall|i: int| 0 <= i < after.len() implies (#[trigger] after[i]).score <= value by {
        assert(before.contains(after[i]));
        let m = choose|m: int| 0 <= m < before.len() && before[m] == after[i];
        assert(before[m].score <= value);
    }
}

/// What holds of a list of records and the same list in another order:
/// the same number of records, the same records and the same moves, each
/// as often as before.
pub open spec fn rearranged(before: Seq<RootMove>, after: Seq<RootMove>) -> bool {
    &&& after.len() == before.len()
    &&& after.to_multiset() == before.to_multiset()
    &&& moves_of(after).to_multiset() == moves_of(before).to_multiset()
    &&& forall|i: int| 0 <= i < after.len() ==> before.contains(#[trigger] after[i])
}

/// A list of records read in the stable order of any keys is the same
/// list rearranged.
pub proof fn lemma_reordered_rearranges(roots: Seq<RootMove>, keys: Seq<i64>)
    requires
        keys.len() == roots.len(),
        roots.len() <= usize::MAX,
    ensures
        rearranged(roots, reordered(roots, stable_order(keys))),
{
    let n = roots.len() as int;
    let order = stable_order(keys);
    let out = reordered(roots, order);
    lemma_stable_order(keys, n);
    lemma_stable_order_permutes(roots, keys, n);
    lemma_stable_order_permutes(moves_of(roots), keys, n);
    assert(roots.take(n) =~= roots);
    assert(moves_of(roots).take(n) =~= moves_of(roots));
    assert(moves_of(out) =~= reordered(moves_of(roots), order));
    assert forall|i: int| 0 <= i < out.len() implies roots.contains(#[trigger] out[i]) by {
        assert(out[i] == roots[order[i] as int]);
    }
}

/// A list of records with the same records as another, each as often, is
/// that list rearranged.
pub proof fn lemma_same_records_rearranged(before: Seq<RootMove>, after: Seq<RootMove>)
    requires
        after.to_multiset() == before.to_multiset(),
    ensures
        rearranged(before, after),
    decreases before.len(),
{
    broadcast use {
        vstd::seq_lib::to_multiset_len,
        vstd::seq_lib::to_multiset_contains,
        vstd::seq_lib::to_multiset_remove,
    };

    assert(after.len() == before.len()) by {
        assert(after.to_multiset().len() == after.len());
        assert(before.to_multiset().len() == before.len());
    }
    assert forall|i: int| 0 <= i < after.len() implies before.contains(#[trigger] after[i]) by {
        assert(after.contains(after[i]));
        assert(after.to_multiset().count(after[i]) > 0);
    }
    if before.len() == 0 {
        assert(moves_of(after) =~= moves_of(before));
    } else {
        let last = after.last();
        assert(before.contains(last));
        let k = choose|k: int| 0 <= k < before.len() && before[k] == last;
        let b2 = before.remove(k);
        let a2 = after.drop_last();
        assert(a2 =~= after.remove(after.len() - 1));
        assert(a2.to_multiset() =~= b2.to_multiset());
        lemma_same_records_rearranged(b2, a2);
        assert(moves_of(after) =~= moves_of(a2).push(last.bit_move));
        assert(moves_of(before) =~= moves_of(b2).insert(k, last.bit_move));
        broadcast use {vstd::seq_lib::to_multiset_build, vstd::seq_lib::to_multiset_insert};

    }
}

/// `shuffle` of the rand crate on a slice, with the thread's generator: the
/// slice holds the same records afterwards, in an order that is left open.
/// The generator is seeded from the system on first use and fails only
/// where the system has no entropy to give.
#[verifier::external_body]
fn shuffle_records(moves: &mut Vec<RootMove>)
    ensures
        final(moves)@.to_multiset() == old(moves)@.to_multiset(),
{
    moves.shuffle(&mut rand::thread_rng());
}

/// The ordered list of root moves of one worker.
#[derive(Debug)]
pub struct RootMoveList {
    moves: Vec<RootMove>,
}

impl View for RootMoveList {
    type V = Seq<RootMove>;

    closed spec fn view(&self) -> Seq<RootMove> {
        self.moves@
    }
}

impl RootMoveList {
    /// An empty list.
    pub fn new() -> (list: RootMoveList)
        ensures
            list@ == Seq::<RootMove>::empty(),
    {
        RootMoveList { moves: Vec::new() }
    }

    /// Returns the number of moves.
    pub fn len(&self) -> (n: usize)
        ensures
            n == self@.len(),
    {
        self.moves.len()
    }

    /// Returns whether the list holds no move.
    pub fn is_empty(&self) -> (b: bool)
        ensures
            b == (self@.len() == 0),
    {
        self.moves.len() == 0
    }

    /// Replaces the content by fresh records of the given moves, in order.
    pub fn replace(&mut self, moves: &Vec<BitMove>)
        ensures
            final(self)@ == Seq::new(moves@.len(), |i: int| RootMove::fresh(moves@[i])),
    {
        self.moves.clear();
        let mut i: usize = 0;
        while i < moves.len()
            invariant
                i <= moves@.len(),
                self.moves@.len() == i,
                forall|k: int| 0 <= k < i ==> self.moves@[k] == RootMove::fresh(moves@[k]),
            decreases moves@.len() - i,
        {
            self.moves.push(RootMove::new(moves[i]));
            i += 1;
        }
        assert(self.moves@ =~= Seq::new(moves@.len(), |i: int| RootMove::fresh(moves@[i])));
    }

    /// Returns the record at a place of the list.
    pub fn get(&self, i: usize) -> (r: RootMove)
        requires
            i < self@.len(),
        ensures
            r == self@[i as int],
    {
        self.moves[i]
    }

    /// Returns the first record.
    pub fn first(&self) -> (r: RootMove)
        requires
            self@.len() > 0,
        ensures
            r == self@[0],
    {
        self.moves[0]
    }

    /// Writes a record at a place of the list.
    pub fn set(&mut self, i: usize, record: RootMove)
        requires
            i < old(self)@.len(),
        ensures
            final(self)@ == old(self)@.update(i as int, record),
    {
        self.moves[i] = record;
    }

    /// Returns the moves of the list, in order.
    pub fn to_moves(&self) -> (moves: Vec<BitMove>)
        ensures
            moves@ == moves_of(self@),
    {
        let mut out: Vec<BitMove> = Vec::new();
        let mut i: usize = 0;
        while i < self.moves.len()
            invariant
                i <= self.moves@.len(),
                out@.len() == i,
                forall|k: int| 0 <= k < i ==> out@[k] == self.moves@[k].bit_move,
            decreases self.moves@.len() - i,
        {
            out.push(self.moves[i].bit_move);
            i += 1;
        }
        assert(out@ =~= moves_of(self@));
        out
    }

    /// Starts a new iteration: every score becomes the previous score and
    /// is reset to minus infinity.
    pub fn rollback(&mut self)
        ensures
            final(self)@ == Seq::new(old(self)@.len(), |i: int| old(self)@[i].rolled_back()),
    {
        let mut i: usize = 0;
        while i < self.moves.len()
            invariant
                i <= self.moves@.len(),
                self.moves@.len() == old(self).moves@.len(),
                forall|k: int| 0 <= k < i ==> self.moves@[k] == old(self).moves@[k].rolled_back(),
                forall|k: int| i <= k < self.moves@.len() ==> self.moves@[k] == old(self).moves@[k],
            decreases self.moves@.len() - i,
        {
            let mut record = self.moves[i];
            record.rollback();
            self.moves[i] = record;
            i += 1;
        }
        assert(self.moves@ =~= Seq::new(
            old(self)@.len(),
            |i: int| old(self)@[i].rolled_back(),
        ));
    }

    /// Sorts by score, highest first. Records with equal scores keep their
    /// order.
    pub fn sort(&mut self)
        ensures
            final(self)@ == sorted_by_score(old(self)@),
            rearranged(old(self)@, final(self)@),
            best_first(final(self)@),
    {
        let mut keys: Vec<i64> = Vec::new();
        let mut i: usize = 0;
        while i < self.moves.len()
            invariant
                i <= self.moves@.len(),
                keys@.len() == i,
                forall|k: int| 0 <= k < i ==> keys@[k] == self.moves@[k].sort_key(),
            decreases self.moves@.len() - i,
        {
            keys.push(-(self.moves[i].score as i64));
            i += 1;
        }
        assert(keys@ =~= sort_keys(self@));
        proof {
            lemma_reordered_rearranges(self@, keys@);
            lemma_sorted_best_first(self@);
        }
        let order = sort_order(&keys);
        self.moves = permute(&self.moves, &order);
    }

    /// Sorts by the key that `f` gives each record, lowest first. Records
    /// with equal keys keep their order.
    pub fn sort_by_key<F: Fn(&RootMove) -> i64>(&mut self, f: F)
        requires
            forall|i: int| 0 <= i < old(self)@.len() ==> call_requires(f, (&#[trigger] old(self)@[i],)),
        ensures
            exists|keys: Seq<i64>|
                {
                    &&& keys.len() == old(self)@.len()
                    &&& forall|i: int|
                        0 <= i < keys.len() ==> call_ensures(f, (&old(self)@[i],), #[trigger] keys[i])
                    &&& final(self)@ == reordered(old(self)@, stable_order(keys))
                },
    {
        let mut keys: Vec<i64> = Vec::new();
        let mut i: usize = 0;
        while i < self.moves.len()
            invariant
                i <= self.moves@.len(),
                self.moves@ == old(self).moves@,
                keys@.len() == i,
                self@ == old(self)@,
                forall|k: int| 0 <= k < self@.len() ==> call_requires(f, (&#[trigger] self@[k],)),
                forall|k: int| 0 <= k < i ==> call_ensures(f, (&self@[k],), #[trigger] keys@[k]),
            decreases self.moves@.len() - i,
        {
            assert(self.moves@[i as int] == self@[i as int]);
            let key = f(&self.moves[i]);
            keys.push(key);
            i += 1;
        }
        self.sort_by_keys(&keys);
        assert(keys@.len() == old(self)@.len() && (forall|i: int|
            0 <= i < keys@.len() ==> call_ensures(f, (&old(self)@[i],), #[trigger] keys@[i]))
            && self@ == reordered(old(self)@, stable_order(keys@)));
    }

    /// Sorts by the given keys, one for each record, lowest first. Records
    /// with equal keys keep their order.
    pub fn sort_by_keys(&mut self, keys: &Vec<i64>)
        requires
            keys@.len() == old(self)@.len(),
        ensures
            final(self)@ == reordered(old(self)@, stable_order(keys@)),
            rearranged(old(self)@, final(self)@),
    {
        let count = self.moves.len();
        proof {
            assert(self@.len() == count);
            lemma_reordered_rearranges(self@, keys@);
        }
        let order = sort_order(keys);
        self.moves = permute(&self.moves, &order);
    }

    /// Puts the records in a random order.
    pub fn shuffle(&mut self)
        ensures
            rearranged(old(self)@, final(self)@),
    {
        shuffle_records(&mut self.moves);
        proof {
            lemma_same_records_rearranged(old(self)@, self@);
        }
    }
}

} // verus!
