//! Fixed-depth reference searchers: plain negamax and negamax with
//! alpha-beta pruning.

use rand::Rng;
use vstd::prelude::*;
use crate::piece_move::BitMove;
use crate::position::{lemma_legal_moves, same_position, Game, Position};
use crate::score::{Value, DRAW, INFINITE, MATE, NEG_INFINITE};

verus! {

/// A move, if any, and the score that goes with it, as mathematical values.
pub struct Scored {
    pub best_move: Option<BitMove>,
    pub score: int,
}

/// The result of a reference search: the move to play, if there is one, and
/// the score of the position for the side to move.
#[derive(Clone, Copy, PartialEq, Eq, Debug)]
pub struct BestMove {
    pub best_move: Option<BitMove>,
    pub score: Value,
}

impl View for BestMove {
    type V = Scored;

    open spec fn view(&self) -> Scored {
        Scored { best_move: self.best_move, score: self.score as int }
    }
}

impl BestMove {
    /// A result that names a move.
    pub fn new(bit_move: BitMove, score: Value) -> (r: BestMove)
        ensures
            r.best_move == Some(bit_move),
            r.score == score,
    {
        BestMove { best_move: Some(bit_move), score }
    }

    /// A result that names no move.
    pub fn new_none(score: Value) -> (r: BestMove)
        ensures
            r.best_move.is_none(),
            r.score == score,
    {
        BestMove { best_move: None, score }
    }

    /// The same result seen from the other side: the score changes sign.
    pub fn negate(self) -> (r: BestMove)
        requires
            self.score > i32::MIN,
        ensures
            r.best_move == self.best_move,
            r.score == -self.score,
    {
        BestMove { best_move: self.best_move, score: -self.score }
    }
}

/// A bound that no evaluation and no mate score exceeds in size.
pub open spec fn score_reach() -> int {
    100_000
}

/// A bound on the size of what an alpha-beta search with the given window
/// can return.
pub open spec fn window_reach(alpha: int, beta: int) -> int {
    let a = if alpha < 0 {
        -alpha
    } else {
        alpha
    };
    let b = if beta < 0 {
        -beta
    } else {
        beta
    };
    if a >= b && a >= score_reach() {
        a
    } else if b >= score_reach() {
        b
    } else {
        score_reach()
    }
}

/// The score of a position without legal moves: a mate score that grows
/// with the length of the line if the side to move is in check, a draw
/// otherwise.
pub open spec fn terminal_score(g: Game, line: Seq<BitMove>) -> int {
    if (g.check)(line) {
        MATE + line.len()
    } else {
        DRAW as int
    }
}

/// The negamax value of a position, searched until the line is `max_depth`
/// long, and the first move that attains it.
pub open spec fn negamax(g: Game, line: Seq<BitMove>, max_depth: int) -> Scored
    decreases max_depth - line.len(), g.legal_moves(line).len() + 1,
{
    if line.len() >= max_depth {
        Scored { best_move: None, score: (g.eval)(line) }
    } else if g.legal_moves(line).len() == 0 {
        Scored { best_move: None, score: terminal_score(g, line) }
    } else {
        negamax_fold(
            g,
            line,
            max_depth,
            0,
            Scored { best_move: None, score: NEG_INFINITE as int },
        )
    }
}

/// The best of `best` and the replies to the legal moves from number `i`
/// on, where a later move replaces an earlier one only if it scores more.
pub open spec fn negamax_fold(
    g: Game,
    line: Seq<BitMove>,
    max_depth: int,
    i: int,
    best: Scored,
) -> Scored
    decreases max_depth - line.len(), g.legal_moves(line).len() - i,
{
    let moves = g.legal_moves(line);
    if line.len() >= max_depth || i < 0 || i >= moves.len() {
        best
    } else {
        let score = -negamax(g, line.push(moves[i]), max_depth).score;
        let next = if score > best.score {
            Scored { best_move: Some(moves[i]), score }
        } else {
            best
        };
        negamax_fold(g, line, max_depth, i + 1, next)
    }
}

/// The result of negamax with alpha-beta pruning on a position, fail-soft:
/// the score is the best score of a reply that was searched, also where
/// it lies outside the window.
pub open spec fn alpha_beta(
    g: Game,
    line: Seq<BitMove>,
    alpha: int,
    beta: int,
    max_depth: int,
) -> Scored
    decreases max_depth - line.len(), g.legal_moves(line).len() + 1,
{
    if line.len() >= max_depth {
        Scored { best_move: None, score: (g.eval)(line) }
    } else if g.legal_moves(line).len() == 0 {
        Scored { best_move: None, score: terminal_score(g, line) }
    } else {
        alpha_beta_fold(
            g,
            line,
            alpha,
            beta,
            max_depth,
            0,
            Scored { best_move: None, score: NEG_INFINITE as int },
        )
    }
}

/// The result of the alpha-beta move loop from legal move number `i` on,
/// entered with the lower edge `alpha` of the window and the best reply so
/// far. A reply that scores more than the best replaces it; a reply that
/// scores above `alpha` raises `alpha` for the replies that follow; and the
/// loop ends as soon as `alpha` reaches `beta`.
pub open spec fn alpha_beta_fold(
    g: Game,
    line: Seq<BitMove>,
    alpha: int,
    beta: int,
    max_depth: int,
    i: int,
    best: Scored,
) -> Scored
    decreases max_depth - line.len(), g.legal_moves(line).len() - i,
{
    let moves = g.legal_moves(line);
    if line.len() >= max_depth || i < 0 || i >= moves.len() {
        best
    } else {
        let score = -alpha_beta(g, line.push(moves[i]), -beta, -alpha, max_depth).score;
        let next = if score > best.score {
            Scored { best_move: Some(moves[i]), score }
        } else {
            best
        };
        let raised = if score > alpha {
            score
        } else {
            alpha
        };
        if raised >= beta {
            next
        } else {
            alpha_beta_fold(g, line, raised, beta, max_depth, i + 1, next)
        }
    }
}

/// No negamax score is larger in size than `score_reach`.
pub proof fn lemma_negamax_bounded(g: Game, line: Seq<BitMove>, max_depth: int)
    requires
        g.wf(),
        line.len() <= max_depth <= u16::MAX,
    ensures
        -score_reach() < negamax(g, line, max_depth).score < score_reach(),
    decreases max_depth - line.len(), g.legal_moves(line).len() + 1,
{
    if line.len() >= max_depth {
        assert(crate::score::finite((g.eval)(line)));
    } else if g.legal_moves(line).len() == 0 {
    } else {
        lemma_negamax_fold_bounded(
            g,
            line,
            max_depth,
            0,
            Scored { best_move: None, score: NEG_INFINITE as int },
        );
    }
}

/// The move loop of negamax keeps its running best within `score_reach`.
pub proof fn lemma_negamax_fold_bounded(
    g: Game,
    line: Seq<BitMove>,
    max_depth: int,
    i: int,
    best: Scored,
)
    requires
        g.wf(),
        line.len() < max_depth <= u16::MAX,
        0 <= i <= g.legal_moves(line).len(),
        -score_reach() < best.score < score_reach(),
    ensures
        -score_reach() < negamax_fold(g, line, max_depth, i, best).score < score_reach(),
    decreases max_depth - line.len(), g.legal_moves(line).len() - i,
{
    let moves = g.legal_moves(line);
    if i < moves.len() {
        lemma_negamax_bounded(g, line.push(moves[i]), max_depth);
        let score = -negamax(g, line.push(moves[i]), max_depth).score;
        let next = if score > best.score {
            Scored { best_move: Some(moves[i]), score }
        } else {
            best
        };
        lemma_negamax_fold_bounded(g, line, max_depth, i + 1, next);
    }
}

/// No alpha-beta score is larger in size than the reach of its window.
pub proof fn lemma_alpha_beta_bounded(
    g: Game,
    line: Seq<BitMove>,
    alpha: int,
    beta: int,
    max_depth: int,
)
    requires
        g.wf(),
        line.len() <= max_depth <= u16::MAX,
    ensures
        -window_reach(alpha, beta) <= alpha_beta(g, line, alpha, beta, max_depth).score
            <= window_reach(alpha, beta),
    decreases max_depth - line.len(), g.legal_moves(line).len() + 1,
{
    if line.len() >= max_depth {
        assert(crate::score::finite((g.eval)(line)));
    } else if g.legal_moves(line).len() == 0 {
    } else {
        lemma_alpha_beta_fold_bounded(
            g,
            line,
            alpha,
            beta,
            max_depth,
            0,
            Scored { best_move: None, score: NEG_INFINITE as int },
            window_reach(alpha, beta),
        );
    }
}

/// The move loop of alpha-beta keeps its best within any bound that holds
/// the reach of its window and the best it starts with.
pub proof fn lemma_alpha_beta_fold_bounded(
    g: Game,
    line: Seq<BitMove>,
    alpha: int,
    beta: int,
    max_depth: int,
    i: int,
    best: Scored,
    reach: int,
)
    requires
        g.wf(),
        line.len() < max_depth <= u16::MAX,
        0 <= i <= g.legal_moves(line).len(),
        window_reach(alpha, beta) <= reach,
        -reach <= best.score <= reach,
    ensures
        -reach <= alpha_beta_fold(g, line, alpha, beta, max_depth, i, best).score <= reach,
    decreases max_depth - line.len(), g.legal_moves(line).len() - i,
{
    let moves = g.legal_moves(line);
    if i < moves.len() {
        lemma_alpha_beta_bounded(g, line.push(moves[i]), -beta, -alpha, max_depth);
        let score = -alpha_beta(g, line.push(moves[i]), -beta, -alpha, max_depth).score;
        let next = if score > best.score {
            Scored { best_move: Some(moves[i]), score }
        } else {
            best
        };
        let raised = if score > alpha {
            score
        } else {
            alpha
        };
        assert(window_reach(-beta, -alpha) == window_reach(alpha, beta));
        if raised < beta {
            assert(window_reach(raised, beta) <= window_reach(alpha, beta));
            lemma_alpha_beta_fold_bounded(g, line, raised, beta, max_depth, i + 1, next, reach);
        }
    }
}

/// The static evaluation of a board as a search result.
pub fn eval_board<P: Position>(board: &P) -> (best: BestMove)
    requires
        board.wf(),
    ensures
        best@ == (Scored { best_move: None, score: (board.game().eval)(board.line()) }),
{
    BestMove::new_none(board.eval_low())
}

/// Searches every line to `max_depth` plies from the root and returns the
/// negamax value of the position with the first move that attains it. The
/// board is left as it was found.
pub fn minimax<P: Position>(board: &mut P, max_depth: u16) -> (best: BestMove)
    requires
        old(board).wf(),
        old(board).line().len() <= max_depth,
    ensures
        final(board).wf(),
        final(board).game() == old(board).game(),
        final(board).line() == old(board).line(),
        same_position(*final(board), *old(board)),
        best@ == negamax(old(board).game(), old(board).line(), max_depth as int),
    decreases max_depth - old(board).line().len(),
{
    let ghost g = board.game();
    let ghost line = board.line();
    proof {
        board.lemma_wf();
    }
    if board.depth() == max_depth {
        return eval_board(board);
    }
    let moves = board.generate_moves();
    if moves.len() == 0 {
        if board.in_check() {
            return BestMove::new_none(MATE + (board.depth() as i32));
        } else {
            return BestMove::new_none(DRAW);
        }
    }
    let mut best_value: i32 = NEG_INFINITE;
    let mut best_move: Option<BitMove> = None;
    let mut i: usize = 0;
    while i < moves.len()
        invariant
            i <= moves.len(),
            board.wf(),
            board.game() == g,
            board.line() == line,
            g == old(board).game(),
            line == old(board).line(),
            g.wf(),
            line.len() < max_depth,
            moves@ == g.legal_moves(line),
            negamax_fold(
                g,
                line,
                max_depth as int,
                i as int,
                Scored { best_move, score: best_value as int },
            ) == negamax(g, line, max_depth as int),
        decreases moves.len() - i,
    {
        let mov = moves[i];
        proof {
            lemma_legal_moves(g, line);
            assert(moves@.contains(mov));
            lemma_negamax_bounded(g, line.push(mov), max_depth as int);
        }
        board.apply_move(mov);
        let returned = minimax(board, max_depth).negate();
        board.undo_move();
        proof {
            assert(line.push(mov).drop_last() =~= line);
        }
        if returned.score > best_value {
            best_value = returned.score;
            best_move = Some(mov);
        }
        i += 1;
    }
    BestMove { best_move, score: best_value }
}

/// Searches to `max_depth` plies from the root with alpha-beta pruning in
/// the window from `alpha` to `beta`, fail-soft: the result is the best
/// reply searched and its score, also where the score lies outside the
/// window. The board is left as it was found.
pub fn alpha_beta_search<P: Position>(board: &mut P, alpha: i32, beta: i32, max_depth: u16) -> (best:
    BestMove)
    requires
        old(board).wf(),
        old(board).line().len() <= max_depth,
        alpha > i32::MIN,
        beta > i32::MIN,
    ensures
        final(board).wf(),
        final(board).game() == old(board).game(),
        final(board).line() == old(board).line(),
        same_position(*final(board), *old(board)),
        best@ == alpha_beta(
            old(board).game(),
            old(board).line(),
            alpha as int,
            beta as int,
            max_depth as int,
        ),
    decreases max_depth - old(board).line().len(),
{
    let ghost g = board.game();
    let ghost line = board.line();
    proof {
        board.lemma_wf();
    }
    if board.depth() == max_depth {
        return eval_board(board);
    }
    let moves = board.generate_moves();
    if moves.len() == 0 {
        if board.in_check() {
            return BestMove::new_none(MATE + (board.depth() as i32));
        } else {
            return BestMove::new_none(DRAW);
        }
    }
    let mut a: i32 = alpha;
    let mut best_value: i32 = NEG_INFINITE;
    let mut best_move: Option<BitMove> = None;
    let mut i: usize = 0;
    while i < moves.len()
        invariant
            i <= moves.len(),
            board.wf(),
            board.game() == g,
            board.line() == line,
            g == old(board).game(),
            line == old(board).line(),
            g.wf(),
            line.len() < max_depth,
            moves@ == g.legal_moves(line),
            a > i32::MIN,
            beta > i32::MIN,
            alpha_beta_fold(
                g,
                line,
                a as int,
                beta as int,
                max_depth as int,
                i as int,
                Scored { best_move, score: best_value as int },
            ) == alpha_beta(g, line, alpha as int, beta as int, max_depth as int),
        decreases moves.len() - i,
    {
        let mov = moves[i];
        proof {
            lemma_legal_moves(g, line);
            assert(moves@.contains(mov));
            lemma_alpha_beta_bounded(g, line.push(mov), -beta, -a, max_depth as int);
        }
        board.apply_move(mov);
        let return_move = alpha_beta_search(board, -beta, -a, max_depth).negate();
        board.undo_move();
        proof {
            assert(line.push(mov).drop_last() =~= line);
        }
        if return_move.score > best_value {
            best_value = return_move.score;
            best_move = Some(mov);
        }
        if return_move.score > a {
            a = return_move.score;
        }
        if a >= beta {
            return BestMove { best_move, score: best_value };
        }
        i += 1;
    }
    BestMove { best_move, score: best_value }
}

/// The move of a search result, or the null move where it names none.
pub fn move_of(best: BestMove) -> (m: BitMove)
    ensures
        m == BitMove::or_null(best.best_move),
{
    match best.best_move {
        Some(found) => found,
        None => BitMove::null(),
    }
}

/// `gen_range` of the rand crate on the thread's generator, over the range
/// from zero up to but not including `n`: some index below `n`. Which one
/// is left open. The generator is seeded from the system on first use and
/// fails only where the system has no entropy to give.
#[verifier::external_body]
fn random_below(n: usize) -> (k: usize)
    requires
        n > 0,
    ensures
        k < n,
{
    rand::thread_rng().gen_range(0..n)
}

/// The move at place `k` of a list, or the null move where the list has no
/// such place.
pub fn move_at(moves: &Vec<BitMove>, k: usize) -> (m: BitMove)
    ensures
        m == if k < moves@.len() {
            moves@[k as int]
        } else {
            BitMove::spec_null()
        },
{
    if k < moves.len() {
        moves[k]
    } else {
        BitMove::null()
    }
}

/// Plays a legal move picked at random.
pub struct RandomBot {}

impl RandomBot {
    /// Returns one of the legal moves of the position, or the null move if
    /// there is none. The depth is not used.
    pub fn best_move_depth<P: Position>(board: P, max_depth: u16) -> (m: BitMove)
        requires
            board.wf(),
        ensures
            board.game().legal_moves(board.line()).len() == 0 ==> m == BitMove::spec_null(),
            board.game().legal_moves(board.line()).len() > 0 ==> board.game().legal_moves(
                board.line(),
            ).contains(m),
    {
        let moves = board.generate_moves();
        if moves.len() == 0 {
            BitMove::null()
        } else {
            let k = random_below(moves.len());
            move_at(&moves, k)
        }
    }
}

/// Plays the move that plain negamax finds.
pub struct MiniMaxSearcher {}

impl MiniMaxSearcher {
    /// Returns the first move that attains the negamax value of the
    /// position searched `max_depth` plies deep, or the null move if the
    /// search names none. The position given is taken as the root.
    pub fn best_move_depth<P: Position>(board: P, max_depth: u16) -> (m: BitMove)
        requires
            board.wf(),
        ensures
            m == BitMove::or_null(
                negamax(
                    board.game().rebase(board.line()),
                    Seq::<BitMove>::empty(),
                    max_depth as int,
                ).best_move,
            ),
    {
        let mut root = board.shallow_clone();
        move_of(minimax(&mut root, max_depth))
    }
}

/// Plays the move that negamax with alpha-beta pruning finds.
pub struct AlphaBetaSearcher {}

impl AlphaBetaSearcher {
    /// Returns the move that the alpha-beta search names for the position
    /// searched `max_depth` plies deep with the full window, or the null
    /// move if it names none. The position given is taken as the root.
    pub fn best_move_depth<P: Position>(board: P, max_depth: u16) -> (m: BitMove)
        requires
            board.wf(),
        ensures
            m == BitMove::or_null(
                alpha_beta(
                    board.game().rebase(board.line()),
                    Seq::<BitMove>::empty(),
                    NEG_INFINITE as int,
                    INFINITE as int,
                    max_depth as int,
                ).best_move,
            ),
    {
        let mut root = board.shallow_clone();
        move_of(alpha_beta_search(&mut root, NEG_INFINITE, INFINITE, max_depth))
    }
}

} // verus!
