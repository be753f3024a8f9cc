//! What the main worker does around its search: setting up, picking the
//! best worker, and naming the move.

use vstd::prelude::*;
use crate::piece_move::BitMove;
use crate::position::{lemma_legal_moves, Position};
use crate::root_moves::RootMove;
use crate::score::{Value, NEG_INFINITE};
use crate::search::{roots_ok, Searcher};
use crate::time::{Limits, SearchControl};

verus! {

/// What a worker has to show when the search is over.
#[derive(Clone, Copy, PartialEq, Eq, Debug)]
pub struct ThreadResult {
    /// The depth of its last completed iteration.
    pub depth_completed: u16,
    /// Its first root move; the null move if it has none.
    pub best_move: BitMove,
    /// The score of that move.
    pub score: Value,
}

/// Whether a worker's result is better than the best so far: a strictly
/// higher score at no lower depth.
pub open spec fn beats(th: ThreadResult, best: ThreadResult) -> bool {
    th.score > best.score && th.depth_completed >= best.depth_completed
}

/// The place of the best result when the results from place `i` on are
/// held against the best so far, at place `best`, in order. On a tie the
/// best so far is kept.
pub open spec fn best_thread_from(results: Seq<ThreadResult>, i: int, best: int) -> int
    decreases results.len() - i,
{
    if i < 0 || i >= results.len() {
        best
    } else if beats(results[i], results[best]) {
        best_thread_from(results, i + 1, i)
    } else {
        best_thread_from(results, i + 1, best)
    }
}

/// The place of the best of all results, the main worker's first.
pub open spec fn best_thread_of(results: Seq<ThreadResult>) -> int {
    best_thread_from(results, 0, 0)
}

/// The best result lies in the list, is at least as good as the best so
/// far in score and depth, and is beaten by none of the results held
/// against it.
pub proof fn lemma_best_thread_from(results: Seq<ThreadResult>, i: int, best: int)
    requires
        0 <= best < results.len(),
        0 <= i,
        forall|j: int| 0 <= j < i && j < results.len() ==> !beats(#[trigger] results[j], results[best]),
    ensures
        ({
            let k = best_thread_from(results, i, best);
            &&& 0 <= k < results.len()
            &&& results[k].score >= results[best].score
            &&& results[k].depth_completed >= results[best].depth_completed
            &&& forall|j: int| 0 <= j < results.len() ==> !beats(#[trigger] results[j], results[k])
        }),
    decreases results.len() - i,
{
    if i < results.len() {
        if beats(results[i], results[best]) {
            lemma_best_thread_from(results, i + 1, i);
        } else {
            lemma_best_thread_from(results, i + 1, best);
        }
    }
}

/// No worker beats the best worker, and the best worker is the main one
/// unless it beats it.
pub proof fn lemma_best_thread(results: Seq<ThreadResult>)
    requires
        results.len() > 0,
    ensures
        ({
            let k = best_thread_of(results);
            &&& 0 <= k < results.len()
            &&& forall|j: int| 0 <= j < results.len() ==> !beats(#[trigger] results[j], results[k])
            &&& results[k].score >= results[0].score
            &&& results[k].depth_completed >= results[0].depth_completed
        }),
{
    lemma_best_thread_from(results, 0, 0);
}

/// Returns the place of the best of the workers' results, the main
/// worker's first.
pub fn best_thread(results: &Vec<ThreadResult>) -> (k: usize)
    requires
        results@.len() > 0,
    ensures
        k == best_thread_of(results@),
        k < results@.len(),
{
    let mut best: usize = 0;
    let mut i: usize = 0;
    while i < results.len()
        invariant
            i <= results@.len(),
            best < results@.len(),
            best_thread_from(results@, i as int, best as int) == best_thread_of(results@),
            forall|j: int| 0 <= j < i ==> !beats(#[trigger] results@[j], results@[best as int]),
        decreases results@.len() - i,
    {
        let th = results[i];
        let cur = results[best];
        if th.score > cur.score && th.depth_completed >= cur.depth_completed {
            best = i;
        }
        i += 1;
    }
    best
}

/// The result that a list of root moves and a completed depth come to.
pub open spec fn result_of(roots: Seq<RootMove>, depth_completed: u16) -> ThreadResult {
    if roots.len() > 0 {
        ThreadResult { depth_completed, best_move: roots[0].bit_move, score: roots[0].score }
    } else {
        ThreadResult { depth_completed, best_move: BitMove::spec_null(), score: NEG_INFINITE }
    }
}

/// The results of the main worker and its helpers in one list, the main
/// worker's first.
pub open spec fn all_results(main: ThreadResult, helpers: Seq<ThreadResult>) -> Seq<ThreadResult> {
    seq![main] + helpers
}

/// The result that the search settles on: under a depth limit that of the
/// best worker, else that of the main worker.
pub open spec fn settled(limit: Limits, main: ThreadResult, helpers: Seq<ThreadResult>) -> ThreadResult {
    if limit.depth().is_some() {
        all_results(main, helpers)[best_thread_of(all_results(main, helpers))]
    } else {
        main
    }
}

impl<P: Position, C: SearchControl> Searcher<P, C> {
    /// Returns what the worker has to show: its first root move with its
    /// score, and the depth of its last completed iteration.
    pub fn result(&self) -> (r: ThreadResult)
        ensures
            r == result_of(self.root_moves@, self.depth_completed),
    {
        if self.root_moves.is_empty() {
            ThreadResult {
                depth_completed: self.depth_completed,
                best_move: BitMove::null(),
                score: NEG_INFINITE,
            }
        } else {
            let first = self.root_moves.first();
            ThreadResult {
                depth_completed: self.depth_completed,
                best_move: first.bit_move,
                score: first.score,
            }
        }
    }

    /// Makes the worker ready for a search of the position on its board
    /// under the given limits: the root moves become the legal moves of the
    /// position, none of them scored, the completed depth is zero, no stop
    /// has been seen, and the table enters its next generation.
    pub fn new_search(&mut self, limit: Limits)
        requires
            old(self).wf(),
            old(self).board.line().len() == 0,
        ensures
            final(self).wf(),
            final(self).limit == limit,
            final(self).id == old(self).id,
            final(self).board == old(self).board,
            final(self).depth_completed == 0,
            !final(self).cut_short,
            final(self).root_moves@ == Seq::new(
                old(self).board.game().legal_moves(Seq::<BitMove>::empty()).len(),
                |i: int| RootMove::fresh(old(self).board.game().legal_moves(Seq::<BitMove>::empty())[i]),
            ),
            roots_ok(old(self).board.game(), final(self).root_moves@),
            final(self).tt@.entries == old(self).tt@.entries,
            final(self).tt@.generation == (old(self).tt@.generation + 1) % 64,
    {
        let ghost g = self.board.game();
        assert(self.board.line() =~= Seq::<BitMove>::empty());
        let moves = self.board.generate_moves();
        self.root_moves.replace(&moves);
        self.limit = limit;
        self.depth_completed = 0;
        self.cut_short = false;
        self.tt.new_search();
        proof {
            lemma_legal_moves(g, Seq::<BitMove>::empty());
            assert forall|i: int| 0 <= i < self.root_moves@.len() implies g.playable(
                Seq::<BitMove>::empty(),
                (#[trigger] self.root_moves@[i]).bit_move,
            ) && NEG_INFINITE <= self.root_moves@[i].score < crate::score::INFINITE by {
                assert(moves@.contains(moves@[i]));
            }
        }
    }

    /// Sets the time budget of the move where the search is on the clock.
    pub fn begin_go(&mut self)
        requires
            old(self).wf(),
        ensures
            *final(self) == (Searcher { time_man: final(self).time_man, ..*old(self) }),
            old(self).limit.timer().is_none() ==> final(self).time_man == old(self).time_man,
            old(self).limit.timer() matches Some(timer) ==> ({
                let side = (old(self).board.game().turn)(old(self).board.line()).index();
                &&& final(self).time_man.ideal() == crate::time::ideal_budget(
                    timer.time_msec@[side] as int,
                    timer.inc_msec@[side] as int,
                    timer.moves_to_go as int,
                )
                &&& final(self).time_man.maximum() == crate::time::maximum_budget(
                    timer.time_msec@[side] as int,
                    timer.inc_msec@[side] as int,
                    timer.moves_to_go as int,
                )
            }),
    {
        match self.limit.use_time_management() {
            Some(timer) => {
                let turn = self.board.turn();
                let ply = self.board.moves_played();
                self.time_man.init(&timer, turn, ply);
            },
            None => {},
        }
    }

    /// Settles on a move once every worker is done: under a depth limit
    /// the first root move of the best worker, else that of the main
    /// worker. The score of the move is kept as the previous score.
    /// Returns the null move where there is no root move.
    pub fn finish_go(&mut self, helpers: &Vec<ThreadResult>) -> (best: BitMove)
        ensures
            best == settled(
                old(self).limit,
                result_of(old(self).root_moves@, old(self).depth_completed),
                helpers@,
            ).best_move,
            final(self).previous_score == settled(
                old(self).limit,
                result_of(old(self).root_moves@, old(self).depth_completed),
                helpers@,
            ).score,
            *final(self) == (Searcher { previous_score: final(self).previous_score, ..*old(self) }),
    {
        let main = self.result();
        let mut chosen = main;
        if self.limit.use_depth().is_some() {
            let mut all: Vec<ThreadResult> = Vec::new();
            all.push(main);
            let mut i: usize = 0;
            while i < helpers.len()
                invariant
                    i <= helpers@.len(),
                    all@ == seq![main] + helpers@.take(i as int),
                decreases helpers@.len() - i,
            {
                all.push(helpers[i]);
                proof {
                    assert(helpers@.take(i + 1) =~= helpers@.take(i as int).push(helpers@[i as int]));
                    assert(all@ =~= seq![main] + helpers@.take(i + 1));
                }
                i += 1;
            }
            proof {
                assert(helpers@.take(i as int) =~= helpers@);
            }
            chosen = all[best_thread(&all)];
        }
        self.previous_score = chosen.score;
        if self.use_stdout() && chosen.best_move != main.best_move {
            self.control.report_pv(self.id, main.best_move);
        }
        if self.use_stdout() {
            self.control.report_bestmove(chosen.best_move);
        }
        chosen.best_move
    }

    /// Runs the worker's part of a search: the main worker runs a whole
    /// search of its own and settles on a move, any other worker searches
    /// the root.
    pub fn go(&mut self)
        requires
            old(self).wf(),
            old(self).board.line().len() == 0,
            roots_ok(old(self).board.game(), old(self).root_moves@),
        ensures
            final(self).wf(),
            final(self).id == old(self).id,
            final(self).board.game() == old(self).board.game(),
            final(self).board.line() == old(self).board.line(),
            old(self).cut_short ==> final(self).cut_short,
            final(self).cut_short ==> old(self).may_be_cut(),
            crate::root_moves::best_first(final(self).root_moves@) || crate::root_moves::rearranged(
                old(self).root_moves@,
                final(self).root_moves@,
            ),
            roots_ok(old(self).board.game(), final(self).root_moves@),
            final(self).root_moves@.len() == old(self).root_moves@.len(),
            old(self).id == 0 ==> final(self).previous_score == result_of(
                final(self).root_moves@,
                final(self).depth_completed,
            ).score,
            old(self).id != 0 ==> final(self).previous_score == old(self).previous_score
                && final(self).time_man == old(self).time_man,
            !final(self).cut_short && old(self).root_moves@.len() > 0 ==> exists|order: Seq<RootMove>|
                {
                    &&& crate::root_moves::rearranged(old(self).root_moves@, order)
                    &&& old(self).id == 0 || old(self).id >= 20 ==> order
                        == crate::search_model::ordered_roots(
                        old(self).board.game(),
                        old(self).root_moves@,
                    )
                    &&& final(self).searched_from(&begun(*old(self), final(self).time_man), order)
                },
    {
        if self.main_thread() {
            let _ = self.main_thread_go();
        } else {
            self.search_root();
        }
    }

    /// Runs a whole search with this worker alone: sets the time budget,
    /// searches the root, asks for the stop, and settles on the move. The
    /// move is the first root move, or the null move if there is none.
    /// After a search that completed an iteration below the root and was
    /// not cut short, the previous score is the value of the last
    /// iteration, it is the score of the move returned, and no root move
    /// has a higher score.
    pub fn main_thread_go(&mut self) -> (best: BitMove)
        requires
            old(self).wf(),
            old(self).board.line().len() == 0,
            roots_ok(old(self).board.game(), old(self).root_moves@),
        ensures
            final(self).wf(),
            final(self).board.game() == old(self).board.game(),
            final(self).board.line() == old(self).board.line(),
            final(self).id == old(self).id,
            old(self).cut_short ==> final(self).cut_short,
            final(self).cut_short ==> old(self).may_be_cut(),
            crate::root_moves::best_first(final(self).root_moves@) || crate::root_moves::rearranged(
                old(self).root_moves@,
                final(self).root_moves@,
            ),
            roots_ok(old(self).board.game(), final(self).root_moves@),
            final(self).root_moves@.len() == old(self).root_moves@.len(),
            best == result_of(final(self).root_moves@, final(self).depth_completed).best_move,
            final(self).previous_score == result_of(
                final(self).root_moves@,
                final(self).depth_completed,
            ).score,
            best.null_move() <==> old(self).root_moves@.len() == 0,
            !final(self).cut_short && old(self).root_moves@.len() > 0
                && crate::deepening_model::spec_start_ply(old(self).id as int) < old(
                self,
            ).depth_cap() && final(self).depth_completed > 0 ==> crate::score::finite(
                final(self).previous_score as int,
            ) && crate::root_moves::led_by(
                final(self).root_moves@,
                final(self).previous_score as int,
            ),
            !final(self).cut_short && old(self).root_moves@.len() > 0 ==> exists|order: Seq<RootMove>|
                {
                    &&& crate::root_moves::rearranged(old(self).root_moves@, order)
                    &&& old(self).id == 0 || old(self).id >= 20 ==> order
                        == crate::search_model::ordered_roots(
                        old(self).board.game(),
                        old(self).root_moves@,
                    )
                    &&& final(self).searched_from(&begun(*old(self), final(self).time_man), order)
                },
    {
        self.begin_go();
        let ghost started = *self;
        self.search_root();
        self.control.set_stop(true);
        let helpers: Vec<ThreadResult> = Vec::new();
        proof {
            self.board.lemma_wf();
            BitMove::lemma_null(BitMove::spec_null());
            let all = all_results(result_of(self.root_moves@, self.depth_completed), helpers@);
            assert(all.len() == 1);
            assert(best_thread_of(all) == 0) by {
                reveal_with_fuel(best_thread_from, 3);
            }
            if self.root_moves@.len() > 0 {
                assert(self.board.game().playable(
                    Seq::<BitMove>::empty(),
                    self.root_moves@[0].bit_move,
                ));
                let first = self.root_moves@[0].bit_move;
                let pseudo = (self.board.game().pseudo)(Seq::<BitMove>::empty());
                let k = choose|k: int| 0 <= k < pseudo.len() && pseudo[k] == first;
                assert(self.board.game().move_ok(Seq::<BitMove>::empty(), pseudo[k]));
            }
        }
        self.finish_go(&helpers)
    }
}

/// A worker with its time budget replaced.
pub open spec fn begun<P: Position, C: SearchControl>(
    worker: Searcher<P, C>,
    time_man: crate::time::TimeManager,
) -> Searcher<P, C> {
    Searcher { time_man, ..worker }
}

} // verus!
