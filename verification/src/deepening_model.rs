//! Iterative deepening with aspiration windows as a mathematical function.

use vstd::prelude::*;
use crate::piece_move::BitMove;
use crate::position::Game;
use crate::root_moves::{sorted_by_score, RootMove};
use crate::score::{INFINITE, NEG_INFINITE};
use crate::search_model::{search_spec, SearchState};
use crate::tt::TtView;

verus! {

/// Workers over which start depth and step repeat.
pub const THREAD_DIST: usize = 20;

/// Half the width of the first aspiration window.
pub const ASPIRATION_DELTA: i32 = 18;

/// The depth from which on an aspiration window is used.
pub const ASPIRATION_DEPTH: u16 = 5;

/// The step between the depths that a worker searches, by worker number.
pub open spec fn spec_skip_size(id: int) -> int {
    let k = id % 20;
    if k < 2 {
        1
    } else if k < 6 {
        2
    } else if k < 12 {
        3
    } else {
        4
    }
}

/// The depth at which a worker starts, by worker number.
pub open spec fn spec_start_ply(id: int) -> int {
    let k = id % 20;
    if k < 2 {
        k
    } else if k < 6 {
        k - 2
    } else if k < 12 {
        k - 6
    } else {
        k - 12
    }
}

/// The steps and start depths of the twenty workers of a cycle, written
/// out.
pub proof fn lemma_dispersion_tables()
    ensures
        Seq::new(20, |i: int| spec_skip_size(i)) == seq![
            1int, 1, 2, 2, 2, 2, 3, 3, 3, 3, 3, 3, 4, 4, 4, 4, 4, 4, 4, 4,
        ],
        Seq::new(20, |i: int| spec_start_ply(i)) == seq![
            0int, 1, 0, 1, 2, 3, 0, 1, 2, 3, 4, 5, 0, 1, 2, 3, 4, 5, 6, 7,
        ],
        forall|id: int|
            0 <= id ==> #[trigger] spec_skip_size(id) == spec_skip_size(id % 20)
                && #[trigger] spec_start_ply(id) == spec_start_ply(id % 20),
{
    assert(Seq::new(20, |i: int| spec_skip_size(i)) =~= seq![
        1int, 1, 2, 2, 2, 2, 3, 3, 3, 3, 3, 3, 4, 4, 4, 4, 4, 4, 4, 4,
    ]);
    assert(Seq::new(20, |i: int| spec_start_ply(i)) =~= seq![
        0int, 1, 0, 1, 2, 3, 0, 1, 2, 3, 4, 5, 0, 1, 2, 3, 4, 5, 6, 7,
    ]);
}

/// Returns the step between the depths that a worker searches.
pub fn skip_size(id: usize) -> (s: u16)
    ensures
        s == spec_skip_size(id as int),
        1 <= s <= 4,
{
    let k = id % THREAD_DIST;
    if k < 2 {
        1
    } else if k < 6 {
        2
    } else if k < 12 {
        3
    } else {
        4
    }
}

/// Returns the depth at which a worker starts.
pub fn start_ply(id: usize) -> (s: u16)
    ensures
        s == spec_start_ply(id as int),
        s <= 7,
{
    let k = id % THREAD_DIST;
    if k < 2 {
        k as u16
    } else if k < 6 {
        (k - 2) as u16
    } else if k < 12 {
        (k - 6) as u16
    } else {
        (k - 12) as u16
    }
}

/// A search window and the amount by which it is widened next.
pub struct Window {
    pub alpha: int,
    pub beta: int,
    pub delta: int,
}

impl Window {
    /// The window from minus to plus infinity, with the amount that a
    /// worker starts from.
    pub open spec fn full() -> Window {
        Window { alpha: NEG_INFINITE as int, beta: INFINITE as int, delta: NEG_INFINITE as int }
    }

    /// The aspiration window around the best score of the iteration before.
    pub open spec fn around(prev: int) -> Window {
        Window {
            alpha: if prev - 18 > NEG_INFINITE {
                prev - 18
            } else {
                NEG_INFINITE as int
            },
            beta: if prev + 18 < INFINITE {
                prev + 18
            } else {
                INFINITE as int
            },
            delta: 18,
        }
    }

    /// How far the window is from being full.
    pub open spec fn slack(self) -> int {
        (self.alpha - NEG_INFINITE) + (INFINITE - self.beta)
    }

    /// The window after a search returned `value`: lowered by delta below
    /// a value that failed low, raised by delta above a value that failed
    /// high, never beyond the infinities, with delta grown by a quarter and
    /// five; none for a value inside the window.
    pub open spec fn widen(self, value: int) -> Option<Window> {
        let grown = self.delta + self.delta / 4 + 5;
        if value <= self.alpha {
            Some(
                Window {
                    alpha: if value - self.delta > NEG_INFINITE {
                        value - self.delta
                    } else {
                        NEG_INFINITE as int
                    },
                    beta: self.beta,
                    delta: grown,
                },
            )
        } else if value >= self.beta {
            Some(
                Window {
                    alpha: self.alpha,
                    beta: if value + self.delta < INFINITE {
                        value + self.delta
                    } else {
                        INFINITE as int
                    },
                    delta: grown,
                },
            )
        } else {
            None
        }
    }

    /// The largest delta that a window can have come to.
    pub open spec fn delta_cap(self) -> int {
        let base = 4 * (60002 - self.slack()) + 100;
        let low = if self.alpha == NEG_INFINITE {
            2 * base
        } else {
            base
        };
        if self.beta == INFINITE {
            2 * low
        } else {
            low
        }
    }

    /// The window lies between the infinities, and it is full or its delta
    /// is at least the first delta and at most the cap.
    pub open spec fn wf(self) -> bool {
        &&& NEG_INFINITE <= self.alpha < self.beta <= INFINITE
        &&& (self.alpha == NEG_INFINITE && self.beta == INFINITE) || 18 <= self.delta
            <= self.delta_cap()
    }
}

/// A sound window that a finite value fails is widened to a sound window
/// that is nearer to full; a sound window is failed by no finite value
/// once it is full.
pub proof fn lemma_widen(w: Window, value: int)
    requires
        w.wf(),
        NEG_INFINITE < value < INFINITE,
    ensures
        w.widen(value) matches Some(next) ==> next.wf() && 0 <= next.slack() < w.slack()
            && 18 <= w.delta <= 1_000_000,
        w.delta_cap() <= 1_000_000,
{
}

/// The result of the searches of one depth.
pub struct Aspired {
    pub value: int,
    pub tt: TtView,
    pub roots: Seq<RootMove>,
    pub window: Window,
}

/// The searches of the root at one depth: the root is searched, the root
/// moves are sorted, and while the value fails the window the window is
/// widened and the root searched again.
pub open spec fn aspiration_spec(g: Game, st: SearchState, w: Window, depth: int) -> Aspired
    decreases w.slack(),
{
    let o = search_spec(g, Seq::<BitMove>::empty(), st, w.alpha, w.beta, depth, true);
    let roots = sorted_by_score(o.roots);
    match w.widen(o.value) {
        Some(next) => if 0 <= next.slack() < w.slack() {
            aspiration_spec(g, SearchState { tt: o.tt, roots }, next, depth)
        } else {
            Aspired { value: o.value, tt: o.tt, roots, window: next }
        },
        None => Aspired { value: o.value, tt: o.tt, roots, window: w },
    }
}

/// The state of a worker between two iterations.
pub struct Deepening {
    pub tt: TtView,
    pub roots: Seq<RootMove>,
    pub window: Window,
    /// The depth of the next iteration.
    pub depth: int,
    /// The depth of the last iteration.
    pub depth_completed: int,
    /// The value of the last iteration.
    pub best_value: int,
    /// The best move of the last iteration of the main worker.
    pub last_best: BitMove,
    /// For how many iterations the main worker's best move stayed the same.
    pub stability: int,
}

/// The root moves at the start of an iteration.
pub open spec fn rolled_back(roots: Seq<RootMove>) -> Seq<RootMove> {
    Seq::new(roots.len(), |i: int| roots[i].rolled_back())
}

/// One iteration: the root moves are rolled back, the window is set
/// around the best score of the iteration before from depth 5 on and is
/// the full window below, the root is searched until the value lies inside
/// the window, and the root moves are sorted. The main worker keeps track of how long its best move has
/// stayed the same.
pub open spec fn iteration_spec(g: Game, s: Deepening, skip: int, main: bool) -> Deepening {
    let rolled = rolled_back(s.roots);
    let w = if s.depth >= 5 {
        Window::around(rolled[0].prev_score as int)
    } else {
        Window::full()
    };
    let a = aspiration_spec(g, SearchState { tt: s.tt, roots: rolled }, w, s.depth);
    let roots = sorted_by_score(a.roots);
    let best = roots[0].bit_move;
    Deepening {
        tt: a.tt,
        roots,
        window: a.window,
        depth: s.depth + skip,
        depth_completed: s.depth,
        best_value: a.value,
        last_best: if main {
            best
        } else {
            s.last_best
        },
        stability: if main {
            if best != s.last_best {
                0int
            } else {
                s.stability + 1
            }
        } else {
            s.stability
        },
    }
}

/// Depths left below a depth limit.
pub open spec fn depths_left(max_depth: int, depth: int) -> nat {
    if max_depth > depth {
        (max_depth - depth) as nat
    } else {
        0
    }
}

/// The iterations of a worker up to the depth limit. A main worker on the
/// clock ends after the first iteration where there is a single root move.
pub open spec fn deepening_spec(
    g: Game,
    s: Deepening,
    max_depth: int,
    skip: int,
    main: bool,
    timed: bool,
) -> Deepening
    decreases depths_left(max_depth, s.depth),
{
    if s.depth >= max_depth || skip <= 0 {
        s
    } else {
        let next = iteration_spec(g, s, skip, main);
        if main && timed && next.roots.len() == 1 {
            next
        } else {
            deepening_spec(g, next, max_depth, skip, main, timed)
        }
    }
}

} // verus!
