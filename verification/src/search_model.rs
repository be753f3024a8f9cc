//! The decisions that the search takes at a node, and the search itself as
//! a mathematical function of the game, the transposition table and the
//! root moves.

use vstd::prelude::*;
use crate::piece_move::BitMove;
use crate::position::Game;
use crate::root_moves::{moves_of, RootMove};
use crate::score::{DRAW, MATE, NEG_INFINITE};
use crate::stable_sort::{reordered, stable_order};
use crate::tt::{Entry, NodeBound, TtView};
use crate::types::PieceType;

verus! {

/// Centipawns that futility pruning allows for each ply.
pub const FUTILITY_STEP: i32 = 150;

/// An evaluation from which on futility pruning is not tried.
pub const FUTILITY_CEILING: i32 = 10000;

/// The margin of futility pruning at a ply.
pub open spec fn spec_futility_margin(depth: int) -> int {
    depth * 150
}

/// Returns the margin of futility pruning at a ply.
pub fn futility_margin(depth: u16) -> (m: i32)
    ensures
        m == spec_futility_margin(depth as int),
{
    depth as i32 * FUTILITY_STEP
}

/// Whether a stored bound allows a cutoff against `beta`: a score at or
/// above `beta` must be a lower bound, a score below it an upper bound.
pub open spec fn bound_fits_cutoff(tt_value: int, beta: int, bound: NodeBound) -> bool {
    if tt_value >= beta {
        bound.is_lower()
    } else {
        bound.is_upper()
    }
}

/// Whether a stored score may stand in for an evaluation `val`: a score
/// above it must be a lower bound, a score not above it an upper bound.
pub open spec fn bound_fits_eval(tt_value: int, val: int, bound: NodeBound) -> bool {
    if tt_value > val {
        bound.is_lower()
    } else {
        bound.is_upper()
    }
}

fn lower(bound: NodeBound) -> (b: bool)
    ensures
        b == bound.is_lower(),
{
    match bound {
        NodeBound::LowerBound => true,
        NodeBound::Exact => true,
        _ => false,
    }
}

fn upper(bound: NodeBound) -> (b: bool)
    ensures
        b == bound.is_upper(),
{
    match bound {
        NodeBound::UpperBound => true,
        NodeBound::Exact => true,
        _ => false,
    }
}

/// Returns whether a stored bound allows a cutoff against `beta`.
pub fn correct_bound_eq(tt_value: i32, beta: i32, bound: NodeBound) -> (b: bool)
    ensures
        b == bound_fits_cutoff(tt_value as int, beta as int, bound),
{
    if tt_value >= beta {
        lower(bound)
    } else {
        upper(bound)
    }
}

/// Returns whether a stored score may stand in for an evaluation.
pub fn correct_bound(tt_value: i32, val: i32, bound: NodeBound) -> (b: bool)
    ensures
        b == bound_fits_eval(tt_value as int, val as int, bound),
{
    if tt_value > val {
        lower(bound)
    } else {
        upper(bound)
    }
}

/// Whether the node is cut off by its table entry: off the root and off
/// the principal variation, on a hit that was searched at least as deep as
/// is asked now and whose bound fits.
pub open spec fn tt_cutoff(
    at_root: bool,
    is_pv: bool,
    hit: bool,
    entry: Entry,
    plys_to_zero: int,
    beta: int,
) -> bool {
    &&& !at_root
    &&& !is_pv
    &&& hit
    &&& entry.depth >= plys_to_zero
    &&& bound_fits_cutoff(entry.score as int, beta, entry.bound())
}

/// Returns whether the node is cut off by its table entry.
pub fn takes_tt_cutoff(
    at_root: bool,
    is_pv: bool,
    hit: bool,
    entry: &Entry,
    plys_to_zero: u16,
    beta: i32,
) -> (b: bool)
    ensures
        b == tt_cutoff(at_root, is_pv, hit, *entry, plys_to_zero as int, beta as int),
{
    !at_root && !is_pv && hit && entry.depth as u16 >= plys_to_zero && correct_bound_eq(
        entry.score as i32,
        beta,
        entry.node_type(),
    )
}

/// The static evaluation that the node works with: zero in check; on a
/// hit the stored evaluation, or the fresh one where none is stored,
/// replaced by the stored score where its bound fits; on a miss the fresh
/// evaluation.
pub open spec fn static_eval(in_check: bool, hit: bool, entry: Entry, fresh: int) -> int {
    if in_check {
        0
    } else if hit {
        let base = if entry.eval == 0 {
            fresh
        } else {
            entry.eval as int
        };
        if bound_fits_eval(entry.score as int, base, entry.bound()) {
            entry.score as int
        } else {
            base
        }
    } else {
        fresh
    }
}

/// Whether the node is pruned as futile: not in check, at ply 4, 5 or 6,
/// with an evaluation below the ceiling that beats `beta` by the margin.
pub open spec fn futile(in_check: bool, ply: int, pos_eval: int, beta: int) -> bool {
    &&& !in_check
    &&& 3 < ply < 7
    &&& pos_eval < FUTILITY_CEILING
    &&& pos_eval - spec_futility_margin(ply) >= beta
}

/// Returns whether the node is pruned as futile.
pub fn is_futile(in_check: bool, ply: u16, pos_eval: i32, beta: i32) -> (b: bool)
    requires
        -100_000 <= pos_eval <= 100_000,
    ensures
        b == futile(in_check, ply as int, pos_eval as int, beta as int),
{
    !in_check && ply > 3 && ply < 7 && pos_eval < FUTILITY_CEILING && pos_eval - futility_margin(
        ply,
    ) >= beta
}

/// The depth of the reduced search of a late move, where one is made: from
/// the second move on, at ply 2 or deeper, with a depth limit of 3 or more,
/// one ply less than the limit where a check is involved, else two.
pub open spec fn reduction(
    max_depth: int,
    played: int,
    ply: int,
    in_check: bool,
    gives_check: bool,
) -> Option<int> {
    if max_depth >= 3 && played > 1 && ply >= 2 {
        if in_check || gives_check {
            Some(max_depth - 1)
        } else {
            Some(max_depth - 2)
        }
    } else {
        None
    }
}

/// Returns the depth of the reduced search of a late move, where one is
/// made.
pub fn reduced_depth(
    max_depth: u16,
    played: usize,
    ply: u16,
    in_check: bool,
    gives_check: bool,
) -> (d: Option<u16>)
    ensures
        match d {
            Some(depth) => reduction(
                max_depth as int,
                played as int,
                ply as int,
                in_check,
                gives_check,
            ) == Some(depth as int),
            None => reduction(max_depth as int, played as int, ply as int, in_check, gives_check)
                .is_none(),
        },
{
    if max_depth >= 3 && played > 1 && ply >= 2 {
        if in_check || gives_check {
            Some(max_depth - 1)
        } else {
            Some(max_depth - 2)
        }
    } else {
        None
    }
}

/// Whether a move is searched again with the full window: on the principal
/// variation, for the first move or a value strictly inside the window.
pub open spec fn pv_research(is_pv: bool, played: int, value: int, alpha: int, beta: int) -> bool {
    is_pv && (played == 1 || (alpha < value && value < beta))
}

/// Returns whether a move is searched again with the full window.
pub fn wants_pv_search(is_pv: bool, played: usize, value: i32, alpha: i32, beta: i32) -> (b: bool)
    ensures
        b == pv_research(is_pv, played as int, value as int, alpha as int, beta as int),
{
    is_pv && (played == 1 || (alpha < value && value < beta))
}

/// The bound under which a node's result is stored: a lower bound where
/// it reached `beta`, exact on the principal variation where a move raised
/// alpha, an upper bound otherwise.
pub open spec fn node_bound(best_value: int, beta: int, is_pv: bool, has_move: bool) -> NodeBound {
    if best_value >= beta {
        NodeBound::LowerBound
    } else if is_pv && has_move {
        NodeBound::Exact
    } else {
        NodeBound::UpperBound
    }
}

/// Returns the bound under which a node's result is stored.
pub fn node_bound_for(best_value: i32, beta: i32, is_pv: bool, has_move: bool) -> (b: NodeBound)
    ensures
        b == node_bound(best_value as int, beta as int, is_pv, has_move),
{
    if best_value >= beta {
        NodeBound::LowerBound
    } else if is_pv && has_move {
        NodeBound::Exact
    } else {
        NodeBound::UpperBound
    }
}

/// The value of a node at which no move can be played: the mate score less
/// the ply in check, a draw otherwise.
pub open spec fn no_move_value(in_check: bool, ply: int) -> int {
    if in_check {
        MATE - ply
    } else {
        DRAW as int
    }
}

/// Returns the value of a node at which no move can be played.
pub fn value_without_move(in_check: bool, ply: u16) -> (v: i32)
    ensures
        v == no_move_value(in_check, ply as int),
{
    if in_check {
        MATE - (ply as i32)
    } else {
        DRAW
    }
}

/// The key by which moves are ordered, lowest first: for a capture the
/// value of the capturing piece less that of the piece taken, 1 for
/// castling, 2 for a pawn's double push, 3 for another pawn move, 4 for
/// any other move.
pub open spec fn mvv_lva_key(mover: Option<PieceType>, victim: Option<PieceType>, m: BitMove) -> int {
    match mover {
        Some(piece) => if m.capture() {
            match victim {
                Some(taken) => piece.spec_value() - taken.spec_value(),
                None => piece.spec_value(),
            }
        } else if m.castle() {
            1
        } else if piece == PieceType::P {
            if m.double_push() {
                2
            } else {
                3
            }
        } else {
            4
        },
        None => 4,
    }
}

/// Returns the key by which a move is ordered.
pub fn move_order_key(mover: Option<PieceType>, victim: Option<PieceType>, m: BitMove) -> (k: i64)
    ensures
        k == mvv_lva_key(mover, victim, m),
{
    match mover {
        Some(piece) => {
            if m.is_capture() {
                match victim {
                    Some(taken) => piece.value() as i64 - taken.value() as i64,
                    None => piece.value() as i64,
                }
            } else if m.is_castle() {
                1
            } else if piece == PieceType::P {
                if m.is_double_push().0 {
                    2
                } else {
                    3
                }
            } else {
                4
            }
        },
        None => 4,
    }
}

/// The ordering key of a move in a position of a game.
pub open spec fn move_key(g: Game, line: Seq<BitMove>, m: BitMove) -> i64 {
    mvv_lva_key((g.piece)(line, m.src()), (g.victim)(line, m), m) as i64
}

/// The ordering keys of a list of moves in a position of a game.
pub open spec fn move_keys(g: Game, line: Seq<BitMove>, moves: Seq<BitMove>) -> Seq<i64> {
    Seq::new(moves.len(), |i: int| move_key(g, line, moves[i]))
}

/// The pseudo-legal moves of a position in the order in which the search
/// tries them.
pub open spec fn ordered_pseudo(g: Game, line: Seq<BitMove>) -> Seq<BitMove> {
    reordered((g.pseudo)(line), stable_order(move_keys(g, line, (g.pseudo)(line))))
}

/// The root moves in the order in which the first worker searches them.
pub open spec fn ordered_roots(g: Game, roots: Seq<RootMove>) -> Seq<RootMove> {
    reordered(roots, stable_order(move_keys(g, Seq::<BitMove>::empty(), moves_of(roots))))
}

/// What the search reads and writes besides the board.
pub struct SearchState {
    pub tt: TtView,
    pub roots: Seq<RootMove>,
}

/// The result of the search of a node.
pub struct Outcome {
    pub value: int,
    pub tt: TtView,
    pub roots: Seq<RootMove>,
}

/// The result of the search of one move.
pub struct MoveOutcome {
    pub value: int,
    pub tt: TtView,
}

/// The state of the move loop of a node.
pub struct LoopState {
    pub tt: TtView,
    pub roots: Seq<RootMove>,
    pub alpha: int,
    pub best_value: int,
    pub best_move: BitMove,
    pub played: int,
}

/// Plies left between the length of a line and a depth limit.
pub open spec fn remaining(max_depth: int, len: nat) -> nat {
    if max_depth > len {
        (max_depth - len) as nat
    } else {
        0
    }
}

/// The record of a root move after it was searched: the first move, and a
/// move that beat alpha, gets its value and the depth; any other move
/// is reset to minus infinity.
pub open spec fn root_update(r: RootMove, played: int, value: int, alpha: int, max_depth: int) -> RootMove {
    if played == 1 || value > alpha {
        RootMove {
            bit_move: r.bit_move,
            prev_score: r.prev_score,
            score: value as i32,
            depth_reached: max_depth as u16,
        }
    } else {
        RootMove {
            bit_move: r.bit_move,
            prev_score: r.prev_score,
            score: NEG_INFINITE,
            depth_reached: r.depth_reached,
        }
    }
}

/// The moves that a node tries, in order: at the root the root moves, else
/// the ordered pseudo-legal moves.
pub open spec fn candidate_moves(g: Game, line: Seq<BitMove>, roots: Seq<RootMove>) -> Seq<BitMove> {
    if line.len() == 0 {
        moves_of(roots)
    } else {
        ordered_pseudo(g, line)
    }
}

/// What entering a node comes to: a value at once, or the move loop.
pub enum Entered {
    /// The node is settled without a move being tried.
    Done { value: int, tt: TtView },
    /// The moves are to be tried. `slot` is the place of the node in the
    /// table and `pos_eval` its static evaluation.
    Open { slot: int, pos_eval: int, tt: TtView },
}

/// What entering the node at the end of `line` comes to. The table is
/// probed. At the depth limit the node takes its evaluation; where the
/// table allows a cutoff it takes the stored score; where it is futile it
/// takes its static evaluation. Off check and on a miss the evaluation is
/// stored in the table.
pub open spec fn enter_spec(
    g: Game,
    line: Seq<BitMove>,
    tt: TtView,
    alpha: int,
    beta: int,
    max_depth: int,
    is_pv: bool,
) -> Entered {
    let ply = line.len() as int;
    let zob = (g.key)(line);
    let probe = tt.probe(zob);
    let entry = probe.table.entries[probe.slot];
    let tt_value = if probe.hit {
        entry.score as int
    } else {
        0
    };
    let in_check = (g.check)(line);
    let fresh = (g.eval)(line);
    if ply >= max_depth {
        Entered::Done { value: fresh, tt: probe.table }
    } else if tt_cutoff(ply == 0, is_pv, probe.hit, entry, max_depth - ply, beta) {
        Entered::Done { value: tt_value, tt: probe.table }
    } else {
        let pos_eval = static_eval(in_check, probe.hit, entry, fresh);
        let table = if !in_check && !probe.hit {
            probe.table.place(
                probe.slot,
                zob,
                BitMove::spec_null(),
                0,
                fresh as i16,
                0,
                NodeBound::NoBound,
            )
        } else {
            probe.table
        };
        if futile(in_check, ply, pos_eval, beta) {
            Entered::Done { value: pos_eval, tt: table }
        } else {
            Entered::Open { slot: probe.slot, pos_eval, tt: table }
        }
    }
}

/// The table after the result of a node's move loop is stored.
pub open spec fn leave_spec(
    g: Game,
    line: Seq<BitMove>,
    end: LoopState,
    slot: int,
    pos_eval: int,
    beta: int,
    max_depth: int,
    is_pv: bool,
) -> TtView {
    end.tt.place(
        slot,
        (g.key)(line),
        end.best_move,
        end.best_value as i16,
        pos_eval as i16,
        (max_depth - line.len()) as u8,
        node_bound(end.best_value, beta, is_pv, !end.best_move.null_move()),
    )
}

/// The search of the position at the end of `line` with the window from
/// `alpha` to `beta` and the depth limit `max_depth`, run to its end
/// without a stop request.
pub open spec fn search_spec(
    g: Game,
    line: Seq<BitMove>,
    st: SearchState,
    alpha: int,
    beta: int,
    max_depth: int,
    is_pv: bool,
) -> Outcome
    decreases remaining(max_depth, line.len()), 2int, 0int,
{
    match enter_spec(g, line, st.tt, alpha, beta, max_depth, is_pv) {
        Entered::Done { value, tt } => Outcome { value, tt, roots: st.roots },
        Entered::Open { slot, pos_eval, tt } => {
            let moves = candidate_moves(g, line, st.roots);
            let idle = no_move_value((g.check)(line), line.len() as int);
            if moves.len() == 0 {
                Outcome { value: idle, tt, roots: st.roots }
            } else {
                let end = loop_spec(
                    g,
                    line,
                    LoopState {
                        tt,
                        roots: st.roots,
                        alpha,
                        best_value: NEG_INFINITE as int,
                        best_move: BitMove::spec_null(),
                        played: 0,
                    },
                    moves,
                    0,
                    beta,
                    max_depth,
                    is_pv,
                );
                if end.played == 0 {
                    Outcome { value: idle, tt: end.tt, roots: end.roots }
                } else {
                    Outcome {
                        value: end.best_value,
                        tt: leave_spec(g, line, end, slot, pos_eval, beta, max_depth, is_pv),
                        roots: end.roots,
                    }
                }
            }
        },
    }
}

/// The move loop of a node from candidate number `i` on.
pub open spec fn loop_spec(
    g: Game,
    line: Seq<BitMove>,
    s: LoopState,
    moves: Seq<BitMove>,
    i: int,
    beta: int,
    max_depth: int,
    is_pv: bool,
) -> LoopState
    decreases remaining(max_depth, line.len()), 1int, moves.len() - i,
{
    if i < 0 || i >= moves.len() || line.len() >= max_depth {
        s
    } else if line.len() > 0 && !(g.legal)(line, moves[i]) {
        loop_spec(g, line, s, moves, i + 1, beta, max_depth, is_pv)
    } else {
        let played = s.played + 1;
        let tried = move_spec(
            g,
            line,
            moves[i],
            SearchState { tt: s.tt, roots: s.roots },
            s.alpha,
            beta,
            max_depth,
            is_pv,
            played,
        );
        let value = tried.value;
        let roots = if line.len() == 0 {
            s.roots.update(i, root_update(s.roots[i], played, value, s.alpha, max_depth))
        } else {
            s.roots
        };
        let better = value > s.best_value;
        let raises = better && value > s.alpha;
        let next = LoopState {
            tt: tried.tt,
            roots,
            alpha: if raises && is_pv && value < beta {
                value
            } else {
                s.alpha
            },
            best_value: if better {
                value
            } else {
                s.best_value
            },
            best_move: if raises {
                moves[i]
            } else {
                s.best_move
            },
            played,
        };
        if raises && !(is_pv && value < beta) {
            next
        } else {
            loop_spec(g, line, next, moves, i + 1, beta, max_depth, is_pv)
        }
    }
}

/// The search of one move `m` of the position at the end of `line`, as
/// move number `played` of its node: a zero-window search, reduced for a
/// late move and repeated at full depth where the reduced one beats alpha,
/// and after it, where the node asks for it, a search with the full window.
pub open spec fn move_spec(
    g: Game,
    line: Seq<BitMove>,
    m: BitMove,
    st: SearchState,
    alpha: int,
    beta: int,
    max_depth: int,
    is_pv: bool,
    played: int,
) -> MoveOutcome
    decreases remaining(max_depth, line.len()), 0int, 0int,
{
    if line.len() >= max_depth {
        MoveOutcome { value: 0, tt: st.tt }
    } else {
        let child = line.push(m);
        let ply = line.len() as int;
        let first = match reduction(max_depth, played, ply, (g.check)(line), (g.check)(child)) {
            Some(depth) => {
                let reduced = search_spec(g, child, st, -(alpha + 1), -alpha, depth, false);
                if -reduced.value > alpha {
                    let full = search_spec(
                        g,
                        child,
                        SearchState { tt: reduced.tt, roots: st.roots },
                        -(alpha + 1),
                        -alpha,
                        max_depth,
                        false,
                    );
                    MoveOutcome { value: -full.value, tt: full.tt }
                } else {
                    MoveOutcome { value: -reduced.value, tt: reduced.tt }
                }
            },
            None => {
                let full = search_spec(g, child, st, -(alpha + 1), -alpha, max_depth, false);
                MoveOutcome { value: -full.value, tt: full.tt }
            },
        };
        if pv_research(is_pv, played, first.value, alpha, beta) {
            let again = search_spec(
                g,
                child,
                SearchState { tt: first.tt, roots: st.roots },
                -beta,
                -alpha,
                max_depth,
                true,
            );
            MoveOutcome { value: -again.value, tt: again.tt }
        } else {
            first
        }
    }
}

/// The move loop never lowers alpha or its best value, and it holds a best
/// move only together with a best value above the alpha that the node was
/// entered with.
pub proof fn lemma_loop_keeps_best_above_alpha(
    g: Game,
    line: Seq<BitMove>,
    s: LoopState,
    moves: Seq<BitMove>,
    i: int,
    beta: int,
    max_depth: int,
    is_pv: bool,
    alpha: int,
)
    requires
        0 <= i,
        alpha <= s.alpha,
        !s.best_move.null_move() ==> s.best_value > alpha,
        forall|k: int| 0 <= k < moves.len() ==> !(#[trigger] moves[k]).null_move(),
    ensures
        ({
            let end = loop_spec(g, line, s, moves, i, beta, max_depth, is_pv);
            &&& alpha <= end.alpha
            &&& end.best_value >= s.best_value
            &&& end.played >= s.played
            &&& !end.best_move.null_move() ==> end.best_value > alpha
        }),
    decreases moves.len() - i,
{
    if i < moves.len() && line.len() < max_depth {
        if line.len() > 0 && !(g.legal)(line, moves[i]) {
            lemma_loop_keeps_best_above_alpha(g, line, s, moves, i + 1, beta, max_depth, is_pv, alpha);
        } else {
            let played = s.played + 1;
            let tried = move_spec(
                g,
                line,
                moves[i],
                SearchState { tt: s.tt, roots: s.roots },
                s.alpha,
                beta,
                max_depth,
                is_pv,
                played,
            );
            let value = tried.value;
            let roots = if line.len() == 0 {
                s.roots.update(i, root_update(s.roots[i], played, value, s.alpha, max_depth))
            } else {
                s.roots
            };
            let better = value > s.best_value;
            let raises = better && value > s.alpha;
            let next = LoopState {
                tt: tried.tt,
                roots,
                alpha: if raises && is_pv && value < beta {
                    value
                } else {
                    s.alpha
                },
                best_value: if better {
                    value
                } else {
                    s.best_value
                },
                best_move: if raises {
                    moves[i]
                } else {
                    s.best_move
                },
                played,
            };
            if !(raises && !(is_pv && value < beta)) {
                lemma_loop_keeps_best_above_alpha(
                    g,
                    line,
                    next,
                    moves,
                    i + 1,
                    beta,
                    max_depth,
                    is_pv,
                    alpha,
                );
            }
        }
    }
}

/// What the table holds of a node after its moves were searched: the
/// entry at the node's place holds the best value and the best move of the
/// move loop, under the bound that fits them; and it is marked exact only
/// on the principal variation and only for a value strictly inside the
/// window that the node was searched with.
pub proof fn lemma_stored_result(
    g: Game,
    line: Seq<BitMove>,
    end: LoopState,
    slot: int,
    pos_eval: int,
    alpha: int,
    beta: int,
    max_depth: int,
    is_pv: bool,
)
    requires
        0 <= slot < end.tt.entries.len(),
        end.tt.generation < 64,
        !end.best_move.null_move() ==> end.best_value > alpha,
    ensures
        ({
            let stored = leave_spec(g, line, end, slot, pos_eval, beta, max_depth, is_pv).entries[slot];
            &&& stored.partial_key == crate::tt::partial_key_of((g.key)(line))
            &&& stored.score == end.best_value as i16
            &&& stored.eval == pos_eval as i16
            &&& stored.best_move == end.best_move
            &&& stored.generation() == end.tt.generation
            &&& stored.bound() == node_bound(
                end.best_value,
                beta,
                is_pv,
                !end.best_move.null_move(),
            )
            &&& stored.bound() == NodeBound::Exact ==> is_pv && alpha < end.best_value < beta
        }),
{
    let bound = node_bound(end.best_value, beta, is_pv, !end.best_move.null_move());
    let packed = (end.tt.generation * 4 + bound.code()) as u8;
    assert(packed as int == end.tt.generation * 4 + bound.code());
    assert(NodeBound::of_code(packed as int) == bound);
    assert(packed as int / 4 == end.tt.generation);
}

/// Whether a table holds whole buckets, and at least one.
pub open spec fn sized(tt: TtView) -> bool {
    tt.entries.len() >= 3 && tt.entries.len() % 3 == 0
}

/// Whether a table has the size and the generation of another.
pub open spec fn same_size(after: TtView, before: TtView) -> bool {
    after.entries.len() == before.entries.len() && after.generation == before.generation
}

/// A probe names a place of the table and keeps the table's size.
pub proof fn lemma_probe_keeps_size(tt: TtView, zob: u64)
    requires
        sized(tt),
    ensures
        0 <= tt.probe(zob).slot < tt.entries.len(),
        same_size(tt.probe(zob).table, tt),
{
    let c = tt.clusters();
    let b = tt.base(zob);
    assert(c >= 1 && tt.entries.len() == 3 * c);
    assert(0 <= zob as int % c < c);
    assert(0 <= b && b + 3 <= tt.entries.len()) by (nonlinear_arith)
        requires
            b == (zob as int % c) * 3,
            0 <= zob as int % c < c,
            tt.entries.len() == 3 * c,
    ;
}

/// Entering a node keeps the table's size and, where the moves are to be
/// tried, names a place of the table.
pub proof fn lemma_enter_keeps_size(
    g: Game,
    line: Seq<BitMove>,
    tt: TtView,
    alpha: int,
    beta: int,
    max_depth: int,
    is_pv: bool,
)
    requires
        sized(tt),
    ensures
        match enter_spec(g, line, tt, alpha, beta, max_depth, is_pv) {
            Entered::Done { value, tt: after } => same_size(after, tt),
            Entered::Open { slot, pos_eval, tt: after } => same_size(after, tt) && 0 <= slot
                < tt.entries.len(),
        },
{
    lemma_probe_keeps_size(tt, (g.key)(line));
}

/// The search of a node keeps the size and the generation of the table.
pub proof fn lemma_search_keeps_size(
    g: Game,
    line: Seq<BitMove>,
    st: SearchState,
    alpha: int,
    beta: int,
    max_depth: int,
    is_pv: bool,
)
    requires
        sized(st.tt),
    ensures
        same_size(search_spec(g, line, st, alpha, beta, max_depth, is_pv).tt, st.tt),
    decreases remaining(max_depth, line.len()), 2int, 0int,
{
    lemma_enter_keeps_size(g, line, st.tt, alpha, beta, max_depth, is_pv);
    match enter_spec(g, line, st.tt, alpha, beta, max_depth, is_pv) {
        Entered::Done { value, tt } => {},
        Entered::Open { slot, pos_eval, tt } => {
            let moves = candidate_moves(g, line, st.roots);
            if moves.len() > 0 {
                let start = LoopState {
                    tt,
                    roots: st.roots,
                    alpha,
                    best_value: NEG_INFINITE as int,
                    best_move: BitMove::spec_null(),
                    played: 0,
                };
                lemma_loop_keeps_size(g, line, start, moves, 0, beta, max_depth, is_pv);
            }
        },
    }
}

/// The move loop of a node keeps the size and the generation of the table.
pub proof fn lemma_loop_keeps_size(
    g: Game,
    line: Seq<BitMove>,
    s: LoopState,
    moves: Seq<BitMove>,
    i: int,
    beta: int,
    max_depth: int,
    is_pv: bool,
)
    requires
        sized(s.tt),
        0 <= i,
    ensures
        same_size(loop_spec(g, line, s, moves, i, beta, max_depth, is_pv).tt, s.tt),
    decreases remaining(max_depth, line.len()), 1int, moves.len() - i,
{
    if i < moves.len() && line.len() < max_depth {
        if line.len() > 0 && !(g.legal)(line, moves[i]) {
            lemma_loop_keeps_size(g, line, s, moves, i + 1, beta, max_depth, is_pv);
        } else {
            let played = s.played + 1;
            let st = SearchState { tt: s.tt, roots: s.roots };
            lemma_move_keeps_size(g, line, moves[i], st, s.alpha, beta, max_depth, is_pv, played);
            let tried = move_spec(g, line, moves[i], st, s.alpha, beta, max_depth, is_pv, played);
            let value = tried.value;
            let roots = if line.len() == 0 {
                s.roots.update(i, root_update(s.roots[i], played, value, s.alpha, max_depth))
            } else {
                s.roots
            };
            let better = value > s.best_value;
            let raises = better && value > s.alpha;
            let next = LoopState {
                tt: tried.tt,
                roots,
                alpha: if raises && is_pv && value < beta {
                    value
                } else {
                    s.alpha
                },
                best_value: if better {
                    value
                } else {
                    s.best_value
                },
                best_move: if raises {
                    moves[i]
                } else {
                    s.best_move
                },
                played,
            };
            if !(raises && !(is_pv && value < beta)) {
                lemma_loop_keeps_size(g, line, next, moves, i + 1, beta, max_depth, is_pv);
            }
        }
    }
}

/// The search of one move keeps the size and the generation of the table.
pub proof fn lemma_move_keeps_size(
    g: Game,
    line: Seq<BitMove>,
    m: BitMove,
    st: SearchState,
    alpha: int,
    beta: int,
    max_depth: int,
    is_pv: bool,
    played: int,
)
    requires
        sized(st.tt),
    ensures
        same_size(move_spec(g, line, m, st, alpha, beta, max_depth, is_pv, played).tt, st.tt),
    decreases remaining(max_depth, line.len()), 0int, 0int,
{
    if line.len() < max_depth {
        let child = line.push(m);
        let ply = line.len() as int;
        let first = match reduction(max_depth, played, ply, (g.check)(line), (g.check)(child)) {
            Some(depth) => {
                lemma_search_keeps_size(g, child, st, -(alpha + 1), -alpha, depth, false);
                let reduced = search_spec(g, child, st, -(alpha + 1), -alpha, depth, false);
                if -reduced.value > alpha {
                    let again = SearchState { tt: reduced.tt, roots: st.roots };
                    lemma_search_keeps_size(g, child, again, -(alpha + 1), -alpha, max_depth, false);
                    let full = search_spec(g, child, again, -(alpha + 1), -alpha, max_depth, false);
                    MoveOutcome { value: -full.value, tt: full.tt }
                } else {
                    MoveOutcome { value: -reduced.value, tt: reduced.tt }
                }
            },
            None => {
                lemma_search_keeps_size(g, child, st, -(alpha + 1), -alpha, max_depth, false);
                let full = search_spec(g, child, st, -(alpha + 1), -alpha, max_depth, false);
                MoveOutcome { value: -full.value, tt: full.tt }
            },
        };
        if pv_research(is_pv, played, first.value, alpha, beta) {
            lemma_search_keeps_size(
                g,
                child,
                SearchState { tt: first.tt, roots: st.roots },
                -beta,
                -alpha,
                max_depth,
                true,
            );
        }
    }
}

/// What the table holds of a node after its search tried a move: the
/// entry at the node's place holds the value of the search; and it is
/// marked exact only on the principal variation and only for a value
/// strictly inside the window that the node was searched with.
pub proof fn lemma_search_stores_result(
    g: Game,
    line: Seq<BitMove>,
    st: SearchState,
    alpha: int,
    beta: int,
    max_depth: int,
    is_pv: bool,
)
    requires
        sized(st.tt),
        st.tt.generation < 64,
        enter_spec(g, line, st.tt, alpha, beta, max_depth, is_pv) is Open,
        candidate_moves(g, line, st.roots).len() > 0,
        forall|k: int|
            0 <= k < candidate_moves(g, line, st.roots).len() ==> !(#[trigger] candidate_moves(
                g,
                line,
                st.roots,
            )[k]).null_move(),
    ensures
        ({
            let entered = enter_spec(g, line, st.tt, alpha, beta, max_depth, is_pv);
            let o = search_spec(g, line, st, alpha, beta, max_depth, is_pv);
            let stored = o.tt.entries[entered->slot];
            let end = loop_spec(
                g,
                line,
                LoopState {
                    tt: entered->Open_tt,
                    roots: st.roots,
                    alpha,
                    best_value: NEG_INFINITE as int,
                    best_move: BitMove::spec_null(),
                    played: 0,
                },
                candidate_moves(g, line, st.roots),
                0,
                beta,
                max_depth,
                is_pv,
            );
            end.played > 0 ==> {
                &&& 0 <= entered->slot < o.tt.entries.len()
                &&& o.value == end.best_value
                &&& stored.score == o.value as i16
                &&& stored.best_move == end.best_move
                &&& stored.bound() == node_bound(o.value, beta, is_pv, !end.best_move.null_move())
                &&& stored.bound() == NodeBound::Exact ==> is_pv && alpha < o.value < beta
            }
        }),
{
    let entered = enter_spec(g, line, st.tt, alpha, beta, max_depth, is_pv);
    lemma_enter_keeps_size(g, line, st.tt, alpha, beta, max_depth, is_pv);
    let moves = candidate_moves(g, line, st.roots);
    let start = LoopState {
        tt: entered->Open_tt,
        roots: st.roots,
        alpha,
        best_value: NEG_INFINITE as int,
        best_move: BitMove::spec_null(),
        played: 0,
    };
    BitMove::lemma_null(BitMove::spec_null());
    lemma_loop_keeps_size(g, line, start, moves, 0, beta, max_depth, is_pv);
    lemma_loop_keeps_best_above_alpha(g, line, start, moves, 0, beta, max_depth, is_pv, alpha);
    let end = loop_spec(g, line, start, moves, 0, beta, max_depth, is_pv);
    if end.played > 0 {
        lemma_stored_result(
            g,
            line,
            end,
            entered->slot,
            entered->pos_eval,
            alpha,
            beta,
            max_depth,
            is_pv,
        );
    }
}

/// Off the root the move loop passes over moves that are not legal.
pub proof fn lemma_loop_skips_illegal(
    g: Game,
    line: Seq<BitMove>,
    s: LoopState,
    moves: Seq<BitMove>,
    i: int,
    beta: int,
    max_depth: int,
    is_pv: bool,
)
    requires
        line.len() > 0,
        0 <= i,
        forall|k: int| i <= k < moves.len() ==> !(g.legal)(line, #[trigger] moves[k]),
    ensures
        loop_spec(g, line, s, moves, i, beta, max_depth, is_pv) == s,
    decreases moves.len() - i,
{
    if i < moves.len() && line.len() < max_depth {
        lemma_loop_skips_illegal(g, line, s, moves, i + 1, beta, max_depth, is_pv);
    }
}

/// Off the root, where the moves of a node are tried and none of them is
/// legal, the search plays no move: it returns the mate score less the ply
/// in check and a draw otherwise, and leaves the table as entering the node
/// left it.
pub proof fn lemma_no_legal_move(
    g: Game,
    line: Seq<BitMove>,
    st: SearchState,
    alpha: int,
    beta: int,
    max_depth: int,
    is_pv: bool,
)
    requires
        line.len() > 0,
        enter_spec(g, line, st.tt, alpha, beta, max_depth, is_pv) is Open,
        forall|k: int|
            0 <= k < ordered_pseudo(g, line).len() ==> !(g.legal)(
                line,
                #[trigger] ordered_pseudo(g, line)[k],
            ),
    ensures
        search_spec(g, line, st, alpha, beta, max_depth, is_pv) == (Outcome {
            value: no_move_value((g.check)(line), line.len() as int),
            tt: enter_spec(g, line, st.tt, alpha, beta, max_depth, is_pv)->Open_tt,
            roots: st.roots,
        }),
{
    let entered = enter_spec(g, line, st.tt, alpha, beta, max_depth, is_pv);
    let moves = candidate_moves(g, line, st.roots);
    let start = LoopState {
        tt: entered->Open_tt,
        roots: st.roots,
        alpha,
        best_value: NEG_INFINITE as int,
        best_move: BitMove::spec_null(),
        played: 0,
    };
    lemma_loop_skips_illegal(g, line, start, moves, 0, beta, max_depth, is_pv);
}

} // verus!
