//! Reference searchers that search the replies to the root moves on
//! several threads.

use rayon::iter::{IntoParallelRefIterator, ParallelIterator};
use vstd::prelude::*;
use crate::bot_laws::{
    lemma_alpha_beta_equals_negamax, lemma_alpha_beta_window, lemma_negamax_finite,
    lemma_negamax_names_move, within_window,
};
use crate::bots::{
    alpha_beta, alpha_beta_search, eval_board, lemma_alpha_beta_bounded, lemma_negamax_bounded,
    minimax, move_of, negamax, negamax_fold, terminal_score, BestMove, Scored,
};
use crate::piece_move::BitMove;
use crate::position::{lemma_legal_moves, Game, Position};
use crate::score::{finite, DRAW, INFINITE, MATE, NEG_INFINITE};

verus! {

/// The value, for the side that plays it, of a move: the negated value of
/// the position behind it, found by alpha-beta in the window from `alpha`
/// to `beta` where `pruned` is set, and by plain negamax otherwise.
pub open spec fn reply_spec(
    g: Game,
    line: Seq<BitMove>,
    m: BitMove,
    pruned: bool,
    alpha: int,
    beta: int,
    max_depth: int,
) -> int {
    if pruned {
        -alpha_beta(g, line.push(m), -beta, -alpha, max_depth).score
    } else {
        -negamax(g, line.push(m), max_depth).score
    }
}

/// Searches one move of the position on the board on a copy of the board
/// and returns its value for the side that plays it.
pub fn search_reply<P: Position>(
    board: &P,
    m: BitMove,
    pruned: bool,
    alpha: i32,
    beta: i32,
    max_depth: u16,
) -> (score: i32)
    requires
        board.wf(),
        board.game().playable(board.line(), m),
        board.line().len() < max_depth,
        alpha > i32::MIN,
        beta > i32::MIN,
    ensures
        score == reply_spec(
            board.game(),
            board.line(),
            m,
            pruned,
            alpha as int,
            beta as int,
            max_depth as int,
        ),
{
    proof {
        board.lemma_wf();
        lemma_negamax_bounded(board.game(), board.line().push(m), max_depth as int);
        lemma_alpha_beta_bounded(
            board.game(),
            board.line().push(m),
            -beta,
            -alpha,
            max_depth as int,
        );
    }
    let mut copy = board.parallel_clone();
    copy.apply_move(m);
    let found = if pruned {
        alpha_beta_search(&mut copy, -beta, -alpha, max_depth)
    } else {
        minimax(&mut copy, max_depth)
    };
    -found.score
}

/// `par_iter`, `map` and `collect` of the rayon crate over the moves from
/// place `from` on: every such move is searched by `search_reply`, on
/// whichever thread of rayon's pool, and the values come back in the order
/// of the moves. The pool is started on first use and fails only where the
/// system gives it no thread.
#[verifier::external_body]
fn search_replies<P: Position + Sync>(
    board: &P,
    moves: &Vec<BitMove>,
    from: usize,
    pruned: bool,
    alpha: i32,
    beta: i32,
    max_depth: u16,
) -> (scores: Vec<i32>)
    requires
        board.wf(),
        from <= moves@.len(),
        forall|i: int| from <= i < moves@.len() ==> board.game().playable(board.line(), #[trigger] moves@[i]),
        board.line().len() < max_depth,
        alpha > i32::MIN,
        beta > i32::MIN,
    ensures
        scores@.len() == moves@.len() - from,
        forall|i: int|
            0 <= i < scores@.len() ==> #[trigger] scores@[i] == reply_spec(
                board.game(),
                board.line(),
                moves@[from + i],
                pruned,
                alpha as int,
                beta as int,
                max_depth as int,
            ),
{
    moves[from..].par_iter().map(|m| search_reply(board, *m, pruned, alpha, beta, max_depth)).collect()
}

/// Negamax with the replies to the moves of the position searched in
/// parallel. The result is that of `minimax`.
pub fn parallel_minimax<P: Position + Sync>(board: &mut P, max_depth: u16) -> (best: BestMove)
    requires
        old(board).wf(),
        old(board).line().len() <= max_depth,
    ensures
        *final(board) == *old(board),
        best@ == negamax(old(board).game(), old(board).line(), max_depth as int),
{
    let ghost g = board.game();
    let ghost line = board.line();
    proof {
        board.lemma_wf();
    }
    if board.depth() == max_depth {
        return eval_board(board);
    }
    let moves = board.generate_moves();
    if moves.len() == 0 {
        if board.in_check() {
            return BestMove::new_none(MATE + (board.depth() as i32));
        } else {
            return BestMove::new_none(DRAW);
        }
    }
    proof {
        lemma_legal_moves(g, line);
        assert forall|i: int| 0 <= i < moves@.len() implies g.playable(line, #[trigger] moves@[i]) by {
            assert(moves@.contains(moves@[i]));
        }
    }
    let scores = search_replies(board, &moves, 0, false, NEG_INFINITE, INFINITE, max_depth);
    let mut best_value: i32 = NEG_INFINITE;
    let mut best_move: Option<BitMove> = None;
    let mut i: usize = 0;
    while i < moves.len()
        invariant
            i <= moves@.len(),
            scores@.len() == moves@.len(),
            line.len() < max_depth,
            moves@ == g.legal_moves(line),
            forall|k: int|
                0 <= k < scores@.len() ==> #[trigger] scores@[k] == -negamax(
                    g,
                    line.push(moves@[k]),
                    max_depth as int,
                ).score,
            negamax_fold(
                g,
                line,
                max_depth as int,
                i as int,
                Scored { best_move, score: best_value as int },
            ) == negamax(g, line, max_depth as int),
        decreases moves@.len() - i,
    {
        let score = scores[i];
        if score > best_value {
            best_value = score;
            best_move = Some(moves[i]);
        }
        i += 1;
    }
    BestMove { best_move, score: best_value }
}

/// The best of `best` and the values, searched in the window from `alpha`
/// to `beta`, of the legal moves from number `i` on; a later move replaces
/// an earlier one only if its value is higher.
pub open spec fn jamboree_fold(
    g: Game,
    line: Seq<BitMove>,
    alpha: int,
    beta: int,
    max_depth: int,
    i: int,
    best: Scored,
) -> Scored
    decreases g.legal_moves(line).len() - i,
{
    let moves = g.legal_moves(line);
    if i < 0 || i >= moves.len() {
        best
    } else {
        let score = reply_spec(g, line, moves[i], true, alpha, beta, max_depth);
        let next = if score > best.score {
            Scored { best_move: Some(moves[i]), score }
        } else {
            best
        };
        jamboree_fold(g, line, alpha, beta, max_depth, i + 1, next)
    }
}

/// The result of the jamboree search of a position: the first move is
/// searched in the window given; unless its value reaches `beta`, the other
/// moves are searched in the window whose lower edge that value has
/// raised, and the best of all is taken.
pub open spec fn jamboree_spec(
    g: Game,
    line: Seq<BitMove>,
    alpha: int,
    beta: int,
    max_depth: int,
) -> Scored {
    let moves = g.legal_moves(line);
    if line.len() >= max_depth {
        Scored { best_move: None, score: (g.eval)(line) }
    } else if moves.len() == 0 {
        Scored { best_move: None, score: terminal_score(g, line) }
    } else {
        let first = reply_spec(g, line, moves[0], true, alpha, beta, max_depth);
        let start = Scored { best_move: Some(moves[0]), score: first };
        if first >= beta {
            start
        } else {
            let raised = if first > alpha {
                first
            } else {
                alpha
            };
            jamboree_fold(g, line, raised, beta, max_depth, 1, start)
        }
    }
}

/// The jamboree search of the position on the board in the window from
/// `alpha` to `beta`: the first move is searched alone, the others in
/// parallel in the window that the first has narrowed.
pub fn jamboree<P: Position + Sync>(board: &mut P, alpha: i32, beta: i32, max_depth: u16) -> (best:
    BestMove)
    requires
        old(board).wf(),
        old(board).line().len() <= max_depth,
        alpha > i32::MIN,
        beta > i32::MIN,
    ensures
        *final(board) == *old(board),
        best@ == jamboree_spec(
            old(board).game(),
            old(board).line(),
            alpha as int,
            beta as int,
            max_depth as int,
        ),
{
    let ghost g = board.game();
    let ghost line = board.line();
    proof {
        board.lemma_wf();
    }
    if board.depth() == max_depth {
        return eval_board(board);
    }
    let moves = board.generate_moves();
    if moves.len() == 0 {
        if board.in_check() {
            return BestMove::new_none(MATE + (board.depth() as i32));
        } else {
            return BestMove::new_none(DRAW);
        }
    }
    proof {
        lemma_legal_moves(g, line);
        assert forall|i: int| 0 <= i < moves@.len() implies g.playable(line, #[trigger] moves@[i]) by {
            assert(moves@.contains(moves@[i]));
        }
    }
    let first = search_reply(board, moves[0], true, alpha, beta, max_depth);
    let mut best_value: i32 = first;
    let mut best_move: BitMove = moves[0];
    if first >= beta {
        return BestMove { best_move: Some(best_move), score: best_value };
    }
    let raised: i32 = if first > alpha {
        first
    } else {
        alpha
    };
    let scores = search_replies(board, &moves, 1, true, raised, beta, max_depth);
    let mut i: usize = 1;
    while i < moves.len()
        invariant
            1 <= i <= moves@.len(),
            scores@.len() == moves@.len() - 1,
            moves@ == g.legal_moves(line),
            forall|k: int|
                0 <= k < scores@.len() ==> #[trigger] scores@[k] == reply_spec(
                    g,
                    line,
                    moves@[1 + k],
                    true,
                    raised as int,
                    beta as int,
                    max_depth as int,
                ),
            jamboree_fold(
                g,
                line,
                raised as int,
                beta as int,
                max_depth as int,
                i as int,
                Scored { best_move: Some(best_move), score: best_value as int },
            ) == jamboree_spec(g, line, alpha as int, beta as int, max_depth as int),
        decreases moves@.len() - i,
    {
        let score = scores[i - 1];
        if score > best_value {
            best_value = score;
            best_move = moves[i];
        }
        i += 1;
    }
    BestMove { best_move: Some(best_move), score: best_value }
}

/// Plays the move that negamax finds with the root moves searched in
/// parallel.
pub struct ParallelMiniMaxSearcher {}

impl ParallelMiniMaxSearcher {
    /// Returns the move that `MiniMaxSearcher` returns for the position
    /// and depth.
    pub fn best_move_depth<P: Position + Sync>(board: P, max_depth: u16) -> (m: BitMove)
        requires
            board.wf(),
        ensures
            m == BitMove::or_null(
                negamax(
                    board.game().rebase(board.line()),
                    Seq::<BitMove>::empty(),
                    max_depth as int,
                ).best_move,
            ),
    {
        let mut root = board.shallow_clone();
        move_of(parallel_minimax(&mut root, max_depth))
    }
}

/// Plays the move that the jamboree search finds.
pub struct JamboreeSearcher {}

impl JamboreeSearcher {
    /// Returns the move that the jamboree search names for the position
    /// searched `max_depth` plies deep with the full window, or the null
    /// move if it names none. The position given is taken as the root.
    pub fn best_move_depth<P: Position + Sync>(board: P, max_depth: u16) -> (m: BitMove)
        requires
            board.wf(),
        ensures
            m == BitMove::or_null(
                jamboree_spec(
                    board.game().rebase(board.line()),
                    Seq::<BitMove>::empty(),
                    NEG_INFINITE as int,
                    INFINITE as int,
                    max_depth as int,
                ).best_move,
            ),
    {
        let mut root = board.shallow_clone();
        move_of(jamboree(&mut root, NEG_INFINITE, INFINITE, max_depth))
    }
}

/// The jamboree move loop, entered with the exact value of an earlier move
/// as its best and a window whose lower edge is not above that value, ends
/// on the best value of that move and the later ones, and on a move that
/// has that value.
pub proof fn lemma_jamboree_fold(
    g: Game,
    line: Seq<BitMove>,
    alpha: int,
    max_depth: int,
    i: int,
    best: Scored,
    k: int,
)
    requires
        g.wf(),
        line.len() < max_depth,
        MATE + max_depth < INFINITE,
        0 <= k < i <= g.legal_moves(line).len(),
        NEG_INFINITE <= alpha <= best.score,
        finite(best.score),
        best.best_move == Some(g.legal_moves(line)[k]),
        best.score == -negamax(g, line.push(g.legal_moves(line)[k]), max_depth).score,
    ensures
        ({
            let moves = g.legal_moves(line);
            let r = jamboree_fold(g, line, alpha, INFINITE as int, max_depth, i, best);
            &&& r.score == negamax_fold(g, line, max_depth, i, best).score
            &&& exists|j: int|
                0 <= j < moves.len() && r.best_move == Some(#[trigger] moves[j]) && r.score
                    == -negamax(g, line.push(moves[j]), max_depth).score
        }),
    decreases g.legal_moves(line).len() - i,
{
    let moves = g.legal_moves(line);
    if i < moves.len() {
        let child = line.push(moves[i]);
        lemma_negamax_finite(g, child, max_depth);
        lemma_alpha_beta_window(g, child, NEG_INFINITE as int, -alpha, max_depth);
        let m = -negamax(g, child, max_depth).score;
        let s = reply_spec(g, line, moves[i], true, alpha, INFINITE as int, max_depth);
        assert(within_window(-m, -s, NEG_INFINITE as int, -alpha));
        let next = if s > best.score {
            Scored { best_move: Some(moves[i]), score: s }
        } else {
            best
        };
        let next_plain = if m > best.score {
            Scored { best_move: Some(moves[i]), score: m }
        } else {
            best
        };
        assert(next == next_plain);
        if m > best.score {
            lemma_jamboree_fold(g, line, alpha, max_depth, i + 1, next, i);
        } else {
            lemma_jamboree_fold(g, line, alpha, max_depth, i + 1, best, k);
        }
    } else {
        assert(best.best_move == Some(moves[k]));
    }
}

/// Parallel equals serial. Searched with the full window, the jamboree
/// search returns the negamax score of the position, and where it names a
/// move, the move is one whose reply has that score: it differs from the
/// move of plain negamax at most among moves of equal score.
pub proof fn lemma_jamboree_equals_negamax(g: Game, line: Seq<BitMove>, max_depth: int)
    requires
        g.wf(),
        line.len() <= max_depth,
        MATE + max_depth < INFINITE,
    ensures
        ({
            let r = jamboree_spec(g, line, NEG_INFINITE as int, INFINITE as int, max_depth);
            let v = negamax(g, line, max_depth);
            &&& r.score == v.score
            &&& r.best_move.is_some() == v.best_move.is_some()
            &&& r.best_move matches Some(m) ==> g.playable(line, m) && v.score == -negamax(
                g,
                line.push(m),
                max_depth,
            ).score
        }),
{
    let moves = g.legal_moves(line);
    if line.len() < max_depth && moves.len() > 0 {
        let child = line.push(moves[0]);
        lemma_alpha_beta_equals_negamax(g, child, max_depth);
        lemma_negamax_finite(g, child, max_depth);
        lemma_negamax_finite(g, line, max_depth);
        lemma_negamax_names_move(g, line, max_depth);
        lemma_legal_moves(g, line);
        let first = reply_spec(
            g,
            line,
            moves[0],
            true,
            NEG_INFINITE as int,
            INFINITE as int,
            max_depth,
        );
        let start = Scored { best_move: Some(moves[0]), score: first };
        let init = Scored { best_move: None, score: NEG_INFINITE as int };
        assert(negamax(g, line, max_depth) == negamax_fold(g, line, max_depth, 0, init));
        assert(negamax_fold(g, line, max_depth, 0, init) == negamax_fold(
            g,
            line,
            max_depth,
            1,
            start,
        ));
        lemma_jamboree_fold(g, line, first, max_depth, 1, start, 0);
        let r = jamboree_spec(g, line, NEG_INFINITE as int, INFINITE as int, max_depth);
        let j = choose|j: int|
            0 <= j < moves.len() && r.best_move == Some(#[trigger] moves[j]) && r.score
                == -negamax(g, line.push(moves[j]), max_depth).score;
        assert(moves.contains(moves[j]));
    } else {
        lemma_negamax_names_move(g, line, max_depth);
    }
}

} // verus!
