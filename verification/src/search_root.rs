//! Iterative deepening at the root: one worker's run from its first depth
//! to its last.

use vstd::prelude::*;
use crate::consts::{MAX_PLY, PV};
use crate::deepening_model::{
    aspiration_spec, deepening_spec, depths_left, iteration_spec, lemma_widen, rolled_back,
    skip_size, start_ply, Deepening, Window, ASPIRATION_DELTA, ASPIRATION_DEPTH,
};
use crate::piece_move::BitMove;
use crate::position::{Game, Position};
use crate::root_moves::{
    best_first, lemma_best_record_leads, lemma_same_records_rearranged, led_by, moves_of,
    rearranged, RootMove,
};
use crate::score::{finite, Value, INFINITE, NEG_INFINITE};
use crate::search::{roots_ok, Searcher};
use crate::search_model::ordered_roots;
use crate::time::{iterations_end, SearchControl};

verus! {

/// A search window and the amount by which it is widened next.
#[derive(Clone, Copy, PartialEq, Eq, Debug)]
pub struct AspirationWindow {
    pub alpha: Value,
    pub beta: Value,
    pub delta: i32,
}

impl View for AspirationWindow {
    type V = Window;

    open spec fn view(&self) -> Window {
        Window { alpha: self.alpha as int, beta: self.beta as int, delta: self.delta as int }
    }
}

impl AspirationWindow {
    /// The window from minus to plus infinity.
    pub fn full() -> (w: AspirationWindow)
        ensures
            w@ == Window::full(),
            w@.wf(),
    {
        AspirationWindow { alpha: NEG_INFINITE, beta: INFINITE, delta: NEG_INFINITE }
    }

    /// The aspiration window around the best score of the iteration before.
    pub fn around(prev: Value) -> (w: AspirationWindow)
        requires
            NEG_INFINITE <= prev < INFINITE,
        ensures
            w@ == Window::around(prev as int),
            w@.wf(),
    {
        let low = prev - ASPIRATION_DELTA;
        let high = prev + ASPIRATION_DELTA;
        AspirationWindow {
            alpha: if low > NEG_INFINITE {
                low
            } else {
                NEG_INFINITE
            },
            beta: if high < INFINITE {
                high
            } else {
                INFINITE
            },
            delta: ASPIRATION_DELTA,
        }
    }

    /// The window after a search returned `value`, and whether the value
    /// failed the window.
    pub fn widen(self, value: Value) -> (r: (bool, AspirationWindow))
        requires
            self@.wf(),
            finite(value as int),
        ensures
            r.0 == self@.widen(value as int).is_some(),
            r.0 ==> Some(r.1@) == self@.widen(value as int),
            !r.0 ==> r.1 == self,
            r.1@.wf(),
            r.0 ==> 0 <= r.1@.slack() < self@.slack(),
    {
        proof {
            lemma_widen(self@, value as int);
        }
        if value <= self.alpha {
            let low = value - self.delta;
            (
                true,
                AspirationWindow {
                    alpha: if low > NEG_INFINITE {
                        low
                    } else {
                        NEG_INFINITE
                    },
                    beta: self.beta,
                    delta: self.delta + self.delta / 4 + 5,
                },
            )
        } else if value >= self.beta {
            let high = value + self.delta;
            (
                true,
                AspirationWindow {
                    alpha: self.alpha,
                    beta: if high < INFINITE {
                        high
                    } else {
                        INFINITE
                    },
                    delta: self.delta + self.delta / 4 + 5,
                },
            )
        } else {
            (false, self)
        }
    }
}

/// Where a worker stands between two iterations.
#[derive(Clone, Copy, PartialEq, Eq, Debug)]
pub struct Progress {
    /// The window of the last search.
    pub window: AspirationWindow,
    /// The depth of the next iteration.
    pub depth: u16,
    /// The value of the last iteration.
    pub best_value: Value,
    /// The best move of the main worker's last iteration.
    pub last_best_move: BitMove,
    /// For how many iterations that move has stayed the same.
    pub stability: u32,
}

impl Progress {
    /// Where a worker stands before its first iteration.
    pub fn start(depth: u16) -> (p: Progress)
        ensures
            p.window@ == Window::full(),
            p.depth == depth,
            p.best_value == NEG_INFINITE,
            p.last_best_move == BitMove::spec_null(),
            p.stability == 0,
    {
        Progress {
            window: AspirationWindow::full(),
            depth,
            best_value: NEG_INFINITE,
            last_best_move: BitMove::null(),
            stability: 0,
        }
    }
}

/// Root moves that are sound stay sound when rearranged.
pub proof fn lemma_roots_ok_rearranged(g: Game, before: Seq<RootMove>, after: Seq<RootMove>)
    requires
        roots_ok(g, before),
        rearranged(before, after),
    ensures
        roots_ok(g, after),
{
    assert forall|i: int| 0 <= i < after.len() implies g.playable(
        Seq::<BitMove>::empty(),
        (#[trigger] after[i]).bit_move,
    ) && NEG_INFINITE <= after[i].score < INFINITE by {
        assert(before.contains(after[i]));
        let k = choose|k: int| 0 <= k < before.len() && before[k] == after[i];
        assert(g.playable(Seq::<BitMove>::empty(), before[k].bit_move));
    }
}

impl<P: Position, C: SearchControl> Searcher<P, C> {
    /// The worker's state between two iterations as a mathematical value.
    pub open spec fn deepening(&self, p: Progress) -> Deepening {
        Deepening {
            tt: self.tt@,
            roots: self.root_moves@,
            window: p.window@,
            depth: p.depth as int,
            depth_completed: self.depth_completed as int,
            best_value: p.best_value as int,
            last_best: p.last_best_move,
            stability: p.stability as int,
        }
    }

    /// Puts the root moves in the order in which the worker searches them:
    /// by ordering key for worker 0 and the workers from 20 on, at random
    /// for the others.
    pub fn shuffle(&mut self)
        requires
            old(self).wf(),
            old(self).board.line().len() == 0,
            roots_ok(old(self).board.game(), old(self).root_moves@),
        ensures
            final(self).wf(),
            final(self).same_setup(old(self)),
            final(self).cut_short == old(self).cut_short,
            final(self).tt@ == old(self).tt@,
            roots_ok(old(self).board.game(), final(self).root_moves@),
            rearranged(old(self).root_moves@, final(self).root_moves@),
            old(self).id == 0 || old(self).id >= 20 ==> final(self).root_moves@ == ordered_roots(
                old(self).board.game(),
                old(self).root_moves@,
            ),
    {
        if self.id == 0 || self.id >= 20 {
            self.rm_mvv_laa_sort();
        } else {
            self.root_moves.shuffle();
        }
        proof {
            lemma_roots_ok_rearranged(
                old(self).board.game(),
                old(self).root_moves@,
                self.root_moves@,
            );
        }
    }

    /// Searches the root at one depth: searches it, sorts the root moves,
    /// and widens the window and searches again while the value fails the
    /// window. Returns the value and the window of the last search.
    pub fn aspiration(&mut self, window: AspirationWindow, depth: u16) -> (r: (
        Value,
        AspirationWindow,
    ))
        requires
            old(self).wf(),
            old(self).board.line().len() == 0,
            roots_ok(old(self).board.game(), old(self).root_moves@),
            window@.wf(),
            depth <= MAX_PLY,
        ensures
            final(self).wf(),
            final(self).same_setup(old(self)),
            old(self).cut_short ==> final(self).cut_short,
            final(self).cut_short ==> old(self).may_be_cut(),
            roots_ok(old(self).board.game(), final(self).root_moves@),
            moves_of(final(self).root_moves@).to_multiset() == moves_of(
                old(self).root_moves@,
            ).to_multiset(),
            final(self).root_moves@.len() == old(self).root_moves@.len(),
            finite(r.0 as int),
            r.1@.wf(),
            best_first(final(self).root_moves@),
            !final(self).cut_short ==> r.1@.alpha < r.0 < r.1@.beta,
            !final(self).cut_short && depth > 0 && old(self).root_moves@.len() > 0 ==> led_by(
                final(self).root_moves@,
                r.0 as int,
            ),
            !final(self).cut_short ==> ({
                let a = aspiration_spec(
                    old(self).board.game(),
                    old(self).state(),
                    window@,
                    depth as int,
                );
                &&& r.0 == a.value
                &&& r.1@ == a.window
                &&& final(self).tt@ == a.tt
                &&& final(self).root_moves@ == a.roots
            }),
    {
        let ghost g = self.board.game();
        let ghost target = aspiration_spec(g, self.state(), window@, depth as int);
        let mut w = window;
        let mut best_value: Value = 0;
        let mut done: bool = false;
        while !done
            invariant
                self.wf(),
                self.same_setup(old(self)),
                old(self).cut_short ==> self.cut_short,
                self.cut_short ==> old(self).may_be_cut(),
                g == old(self).board.game(),
                self.board.line().len() == 0,
                roots_ok(g, self.root_moves@),
                moves_of(self.root_moves@).to_multiset() == moves_of(
                    old(self).root_moves@,
                ).to_multiset(),
                self.root_moves@.len() == old(self).root_moves@.len(),
                w@.wf(),
                depth <= MAX_PLY,
                finite(best_value as int),
                done ==> best_first(self.root_moves@),
                done && !self.cut_short ==> w@.alpha < best_value < w@.beta,
                done && !self.cut_short && depth > 0 && self.root_moves@.len() > 0 ==> led_by(
                    self.root_moves@,
                    best_value as int,
                ),
                !self.cut_short ==> (if done {
                    &&& best_value == target.value
                    &&& w@ == target.window
                    &&& self.tt@ == target.tt
                    &&& self.root_moves@ == target.roots
                } else {
                    aspiration_spec(g, self.state(), w@, depth as int) == target
                }),
            decreases
                    (if done {
                        0
                    } else {
                        w@.slack() + 1
                    }),
        {
            assert(self.board.line() =~= Seq::<BitMove>::empty());
            let ghost entry = self.state();
            best_value = self.search::<PV>(w.alpha, w.beta, depth);
            let ghost unsorted = self.root_moves@;
            proof {
                assert(moves_of(unsorted).len() == unsorted.len());
                assert(moves_of(entry.roots).len() == entry.roots.len());
            }
            self.root_moves.sort();
            proof {
                lemma_roots_ok_rearranged(g, unsorted, self.root_moves@);
            }
            if self.stop() {
                done = true;
            } else {
                let (failed, next) = w.widen(best_value);
                proof {
                    if !failed && depth > 0 && unsorted.len() > 0 {
                        lemma_best_record_leads(unsorted, self.root_moves@, best_value as int);
                    }
                }
                w = next;
                if !failed {
                    done = true;
                }
            }
        }
        (best_value, w)
    }

    /// Runs one iteration at the depth that `p` names and returns where
    /// the worker stands after it.
    pub fn iteration(&mut self, p: Progress, skip: u16) -> (next: Progress)
        requires
            old(self).wf(),
            old(self).board.line().len() == 0,
            roots_ok(old(self).board.game(), old(self).root_moves@),
            old(self).root_moves@.len() > 0,
            p.window@.wf(),
            p.depth < MAX_PLY,
            p.stability <= p.depth,
            1 <= skip <= 4,
        ensures
            final(self).wf(),
            final(self).same_limits(old(self)),
            old(self).cut_short ==> final(self).cut_short,
            final(self).cut_short ==> old(self).may_be_cut(),
            roots_ok(old(self).board.game(), final(self).root_moves@),
            moves_of(final(self).root_moves@).to_multiset() == moves_of(
                old(self).root_moves@,
            ).to_multiset(),
            final(self).root_moves@.len() == old(self).root_moves@.len(),
            next.window@.wf(),
            next.depth == p.depth + skip,
            next.stability <= next.depth,
            finite(next.best_value as int),
            best_first(final(self).root_moves@),
            !final(self).cut_short ==> final(self).depth_completed == p.depth,
            !final(self).cut_short && p.depth > 0 ==> led_by(
                final(self).root_moves@,
                next.best_value as int,
            ),
            !final(self).cut_short ==> final(self).deepening(next) == iteration_spec(
                old(self).board.game(),
                old(self).deepening(p),
                skip as int,
                old(self).id == 0,
            ),
    {
        let ghost g = self.board.game();
        let ghost before = self.root_moves@;
        self.root_moves.rollback();
        proof {
            assert(self.root_moves@ == rolled_back(before));
            assert(moves_of(self.root_moves@) =~= moves_of(before));
            assert(roots_ok(g, self.root_moves@)) by {
                assert forall|i: int| 0 <= i < self.root_moves@.len() implies g.playable(
                    Seq::<BitMove>::empty(),
                    (#[trigger] self.root_moves@[i]).bit_move,
                ) && NEG_INFINITE <= self.root_moves@[i].score < INFINITE by {
                    assert(g.playable(Seq::<BitMove>::empty(), before[i].bit_move));
                }
            }
            assert(NEG_INFINITE <= before[0].score < INFINITE);
        }
        let prev_best_score = self.root_moves.first().prev_score;
        let w = if p.depth >= ASPIRATION_DEPTH {
            AspirationWindow::around(prev_best_score)
        } else {
            AspirationWindow::full()
        };
        let (best_value, widened) = self.aspiration(w, p.depth);
        let ghost unsorted = self.root_moves@;
        let ghost aspired = self.cut_short;
        self.root_moves.sort();
        proof {
            lemma_roots_ok_rearranged(g, unsorted, self.root_moves@);
            if !aspired && p.depth > 0 {
                lemma_best_record_leads(unsorted, self.root_moves@, best_value as int);
            }
        }
        if self.use_stdout() && self.main_thread() {
            self.control.report_depth(p.depth, best_value, self.root_moves.first().bit_move);
        }
        if !self.stop() {
            self.depth_completed = p.depth;
        }
        let depth = p.depth + skip;
        if !self.main_thread() {
            return Progress {
                window: widened,
                depth,
                best_value,
                last_best_move: p.last_best_move,
                stability: p.stability,
            };
        }
        let best_move = self.root_moves.first().bit_move;
        let stability: u32 = if best_move != p.last_best_move {
            0
        } else {
            p.stability + 1
        };
        Progress { window: widened, depth, best_value, last_best_move: best_move, stability }
    }

    /// Runs the worker's iterations from depth `start` in steps of `skip`
    /// while the depth is below `max_depth`. The main worker ends when a
    /// stop is asked for and, on the clock, when the time for the move is
    /// used up or there is a single root move.
    pub fn iterative_deepening(&mut self, start: u16, skip: u16, max_depth: u16)
        requires
            old(self).wf(),
            old(self).board.line().len() == 0,
            roots_ok(old(self).board.game(), old(self).root_moves@),
            old(self).root_moves@.len() > 0,
            max_depth <= MAX_PLY,
            start <= 7,
            1 <= skip <= 4,
        ensures
            final(self).wf(),
            final(self).same_limits(old(self)),
            old(self).cut_short ==> final(self).cut_short,
            final(self).cut_short ==> old(self).may_be_cut(),
            roots_ok(old(self).board.game(), final(self).root_moves@),
            moves_of(final(self).root_moves@).to_multiset() == moves_of(
                old(self).root_moves@,
            ).to_multiset(),
            final(self).root_moves@.len() == old(self).root_moves@.len(),
            best_first(final(self).root_moves@) || final(self).root_moves@ == old(self).root_moves@,
            !final(self).cut_short && start < max_depth ==> best_first(final(self).root_moves@),
            !final(self).cut_short && start < max_depth && final(self).depth_completed > 0
                ==> finite(final(self).root_moves@[0].score as int) && led_by(
                final(self).root_moves@,
                final(self).root_moves@[0].score as int,
            ),
            !final(self).cut_short ==> ({
                let d = deepening_spec(
                    old(self).board.game(),
                    Deepening {
                        tt: old(self).tt@,
                        roots: old(self).root_moves@,
                        window: Window::full(),
                        depth: start as int,
                        depth_completed: old(self).depth_completed as int,
                        best_value: NEG_INFINITE as int,
                        last_best: BitMove::spec_null(),
                        stability: 0,
                    },
                    max_depth as int,
                    skip as int,
                    old(self).id == 0,
                    old(self).limit.timer().is_some(),
                );
                &&& final(self).tt@ == d.tt
                &&& final(self).root_moves@ == d.roots
                &&& final(self).depth_completed == d.depth_completed
            }),
    {
        let ghost g = self.board.game();
        let ghost main = self.id == 0;
        let ghost timed = self.limit.timer().is_some();
        let mut p = Progress::start(start);
        let ghost target = deepening_spec(
            g,
            self.deepening(p),
            max_depth as int,
            skip as int,
            main,
            timed,
        );
        let mut done: bool = false;
        let ghost mut ran: bool = false;
        while !done && p.depth < max_depth
            invariant
                self.wf(),
                self.same_limits(old(self)),
                !self.cut_short && !ran ==> !done && p.depth == start,
                ran ==> best_first(self.root_moves@),
                !ran ==> self.root_moves@ == old(self).root_moves@,
                !self.cut_short && ran && self.depth_completed > 0 ==> finite(
                    p.best_value as int,
                ) && led_by(self.root_moves@, p.best_value as int),
                old(self).cut_short ==> self.cut_short,
                self.cut_short ==> old(self).may_be_cut(),
                g == old(self).board.game(),
                main == (old(self).id == 0),
                timed == old(self).limit.timer().is_some(),
                self.board.line().len() == 0,
                roots_ok(g, self.root_moves@),
                moves_of(self.root_moves@).to_multiset() == moves_of(
                    old(self).root_moves@,
                ).to_multiset(),
                self.root_moves@.len() == old(self).root_moves@.len(),
                self.root_moves@.len() > 0,
                p.window@.wf(),
                p.stability <= p.depth,
                p.depth <= MAX_PLY + 4,
                max_depth <= MAX_PLY,
                1 <= skip <= 4,
                !self.cut_short ==> (if done {
                    self.deepening(p) == target
                } else {
                    deepening_spec(g, self.deepening(p), max_depth as int, skip as int, main, timed)
                        == target
                }),
            decreases depths_left(max_depth as int, p.depth as int), !done as int,
        {
            if self.stop() && self.main_thread() {
                done = true;
            } else {
                p = self.iteration(p, skip);
                proof {
                    ran = true;
                }
                if self.main_thread() && self.limit.use_time_management().is_some() {
                    if !self.stop() {
                        let ideal = self.time_man.ideal_time();
                        let elapsed = self.control.elapsed();
                        let new_ideal = self.control.reduced_ideal(ideal, p.stability);
                        if iterations_end(self.root_moves.len(), elapsed, new_ideal) {
                            done = true;
                            if self.root_moves.len() != 1 {
                                self.cut_short = true;
                            }
                        }
                    }
                }
            }
        }
    }

    /// Runs the worker's search of the root position: orders the root
    /// moves and deepens from the worker's start depth in the worker's
    /// steps, up to the depth that the limits name if this is the main
    /// worker, and in any case not beyond the deepest ply. Nothing is
    /// searched where a stop was already asked for or there is no root
    /// move. Once an iteration has run, stopped or not, the root moves
    /// stand in the order of their scores, highest first; where none has
    /// run they are the records given, reordered at most.
    pub fn search_root(&mut self)
        requires
            old(self).wf(),
            old(self).board.line().len() == 0,
            roots_ok(old(self).board.game(), old(self).root_moves@),
        ensures
            final(self).wf(),
            final(self).same_limits(old(self)),
            old(self).cut_short ==> final(self).cut_short,
            final(self).cut_short ==> old(self).may_be_cut(),
            roots_ok(old(self).board.game(), final(self).root_moves@),
            moves_of(final(self).root_moves@).to_multiset() == moves_of(
                old(self).root_moves@,
            ).to_multiset(),
            final(self).root_moves@.len() == old(self).root_moves@.len(),
            best_first(final(self).root_moves@) || rearranged(
                old(self).root_moves@,
                final(self).root_moves@,
            ),
            !final(self).cut_short && old(self).root_moves@.len() > 0
                && crate::deepening_model::spec_start_ply(old(self).id as int) < old(
                self,
            ).depth_cap() ==> best_first(final(self).root_moves@),
            !final(self).cut_short && old(self).root_moves@.len() > 0
                && crate::deepening_model::spec_start_ply(old(self).id as int) < old(
                self,
            ).depth_cap() && final(self).depth_completed > 0 ==> finite(
                final(self).root_moves@[0].score as int,
            ) && led_by(final(self).root_moves@, final(self).root_moves@[0].score as int),
            !final(self).cut_short && old(self).root_moves@.len() > 0 ==> exists|order: Seq<RootMove>|
                {
                    &&& rearranged(old(self).root_moves@, order)
                    &&& old(self).id == 0 || old(self).id >= 20 ==> order == ordered_roots(
                        old(self).board.game(),
                        old(self).root_moves@,
                    )
                    &&& final(self).searched_from(old(self), order)
                },
    {
        proof {
            lemma_same_records_rearranged(self.root_moves@, self.root_moves@);
        }
        if self.stop() {
            return ;
        }
        self.print_startup();
        let max_depth: u16 = if self.main_thread() {
            match self.limit.use_depth() {
                Some(d) => if d < MAX_PLY {
                    d
                } else {
                    MAX_PLY
                },
                None => MAX_PLY,
            }
        } else {
            MAX_PLY
        };
        let start: u16 = start_ply(self.id);
        let skip: u16 = skip_size(self.id);
        self.shuffle();
        if self.root_moves.is_empty() {
            return ;
        }
        let ghost order = self.root_moves@;
        self.iterative_deepening(start, skip, max_depth);
        proof {
            assert(!self.cut_short ==> self.searched_from(old(self), order));
        }
    }

    /// The depth up to which the worker deepens: the depth that the limits
    /// name for the main worker, and never more than the deepest ply.
    pub open spec fn depth_cap(&self) -> int {
        if self.id == 0 {
            match self.limit.depth() {
                Some(d) => if d < MAX_PLY {
                    d as int
                } else {
                    MAX_PLY as int
                },
                None => MAX_PLY as int,
            }
        } else {
            MAX_PLY as int
        }
    }

    /// Whether the worker's table, root moves and completed depth are
    /// those of a run of iterative deepening that `before` started with
    /// its root moves in the given `order`.
    pub open spec fn searched_from(&self, before: &Self, order: Seq<RootMove>) -> bool {
        let d = deepening_spec(
            before.board.game(),
            Deepening {
                tt: before.tt@,
                roots: order,
                window: Window::full(),
                depth: crate::deepening_model::spec_start_ply(before.id as int),
                depth_completed: before.depth_completed as int,
                best_value: NEG_INFINITE as int,
                last_best: BitMove::spec_null(),
                stability: 0,
            },
            before.depth_cap(),
            crate::deepening_model::spec_skip_size(before.id as int),
            before.id == 0,
            before.limit.timer().is_some(),
        );
        &&& self.tt@ == d.tt
        &&& self.root_moves@ == d.roots
        &&& self.depth_completed == d.depth_completed
    }
}

} // verus!
