//! What holds of the reference searchers on every game.

use vstd::prelude::*;
use crate::bots::{alpha_beta, alpha_beta_fold, negamax, negamax_fold, terminal_score, Scored};
use crate::piece_move::BitMove;
use crate::position::{lemma_legal_moves, same_position, Game, Position};
use crate::score::{finite, INFINITE, MATE, NEG_INFINITE};

verus! {

/// How the result `r` of a search in the window from `alpha` to `beta`
/// stands to the true value `v`: equal inside the window, and on the same
/// side of the window, no further out than `v`, outside it.
pub open spec fn within_window(v: int, r: int, alpha: int, beta: int) -> bool {
    &&& v <= alpha ==> v <= r <= alpha
    &&& alpha < v < beta ==> r == v
    &&& v >= beta ==> beta <= r <= v
}

/// The move loop of negamax never lowers its running best.
pub proof fn lemma_negamax_fold_monotone(
    g: Game,
    line: Seq<BitMove>,
    max_depth: int,
    i: int,
    best: Scored,
)
    requires
        0 <= i,
    ensures
        negamax_fold(g, line, max_depth, i, best).score >= best.score,
    decreases g.legal_moves(line).len() - i,
{
    let moves = g.legal_moves(line);
    if line.len() < max_depth && i < moves.len() {
        let score = -negamax(g, line.push(moves[i]), max_depth).score;
        let next = if score > best.score {
            Scored { best_move: Some(moves[i]), score }
        } else {
            best
        };
        lemma_negamax_fold_monotone(g, line, max_depth, i + 1, next);
    }
}

/// Where mate scores stay below infinity, every negamax score is finite.
pub proof fn lemma_negamax_finite(g: Game, line: Seq<BitMove>, max_depth: int)
    requires
        g.wf(),
        line.len() <= max_depth,
        MATE + max_depth < INFINITE,
    ensures
        finite(negamax(g, line, max_depth).score),
    decreases max_depth - line.len(), g.legal_moves(line).len() + 1,
{
    if line.len() >= max_depth {
        assert(finite((g.eval)(line)));
    } else if g.legal_moves(line).len() == 0 {
        assert(finite(terminal_score(g, line)));
    } else {
        lemma_negamax_fold_finite(
            g,
            line,
            max_depth,
            0,
            Scored { best_move: None, score: NEG_INFINITE as int },
        );
    }
}

/// The move loop of negamax ends on a finite score as soon as it has seen
/// one move or started from a finite score.
pub proof fn lemma_negamax_fold_finite(
    g: Game,
    line: Seq<BitMove>,
    max_depth: int,
    i: int,
    best: Scored,
)
    requires
        g.wf(),
        line.len() < max_depth,
        MATE + max_depth < INFINITE,
        0 <= i <= g.legal_moves(line).len(),
        NEG_INFINITE <= best.score < INFINITE,
    ensures
        NEG_INFINITE <= negamax_fold(g, line, max_depth, i, best).score < INFINITE,
        best.score > NEG_INFINITE || i < g.legal_moves(line).len() ==> finite(
            negamax_fold(g, line, max_depth, i, best).score,
        ),
    decreases max_depth - line.len(), g.legal_moves(line).len() - i,
{
    let moves = g.legal_moves(line);
    if i < moves.len() {
        lemma_negamax_finite(g, line.push(moves[i]), max_depth);
        let score = -negamax(g, line.push(moves[i]), max_depth).score;
        let next = if score > best.score {
            Scored { best_move: Some(moves[i]), score }
        } else {
            best
        };
        lemma_negamax_fold_finite(g, line, max_depth, i + 1, next);
        lemma_negamax_fold_monotone(g, line, max_depth, i + 1, next);
    }
}

/// The move loop of negamax ends on a score that no later reply beats, and
/// either keeps the best it started with or names a later move with the
/// score of its reply.
pub proof fn lemma_negamax_fold_best(
    g: Game,
    line: Seq<BitMove>,
    max_depth: int,
    i: int,
    best: Scored,
)
    requires
        line.len() < max_depth,
        0 <= i <= g.legal_moves(line).len(),
    ensures
        ({
            let moves = g.legal_moves(line);
            let r = negamax_fold(g, line, max_depth, i, best);
            &&& r.score >= best.score
            &&& forall|j: int|
                i <= j < moves.len() ==> r.score >= -negamax(
                    g,
                    line.push(#[trigger] moves[j]),
                    max_depth,
                ).score
            &&& (r == best || exists|k: int|
                i <= k < moves.len() && r.best_move == Some(#[trigger] moves[k]) && r.score
                    == -negamax(g, line.push(moves[k]), max_depth).score)
        }),
    decreases g.legal_moves(line).len() - i,
{
    let moves = g.legal_moves(line);
    let r = negamax_fold(g, line, max_depth, i, best);
    if i < moves.len() {
        let score = -negamax(g, line.push(moves[i]), max_depth).score;
        let next = if score > best.score {
            Scored { best_move: Some(moves[i]), score }
        } else {
            best
        };
        lemma_negamax_fold_best(g, line, max_depth, i + 1, next);
        assert(r == negamax_fold(g, line, max_depth, i + 1, next));
        assert forall|j: int| i <= j < moves.len() implies r.score >= -negamax(
            g,
            line.push(#[trigger] moves[j]),
            max_depth,
        ).score by {
            if j == i {
            }
        }
        if r != best {
            if r == next {
                assert(r.best_move == Some(moves[i]) && r.score == -negamax(
                    g,
                    line.push(moves[i]),
                    max_depth,
                ).score);
            } else {
                let k = choose|k: int|
                    i + 1 <= k < moves.len() && r.best_move == Some(#[trigger] moves[k]) && r.score
                        == -negamax(g, line.push(moves[k]), max_depth).score;
                assert(i <= k < moves.len() && r.best_move == Some(moves[k]));
            }
        }
    }
}

/// Negamax symmetry. Where a position short of the depth limit has a legal
/// move, the search names one; the score of the position is the negated
/// score of the position after that move, one ply later with the other side
/// to move; and no legal move leads to a position whose negated score is
/// higher.
pub proof fn lemma_negamax_symmetry(g: Game, line: Seq<BitMove>, max_depth: int)
    requires
        g.wf(),
        line.len() < max_depth,
        MATE + max_depth < INFINITE,
        g.legal_moves(line).len() > 0,
    ensures
        ({
            let r = negamax(g, line, max_depth);
            &&& r.best_move.is_some()
            &&& g.playable(line, r.best_move.unwrap())
            &&& r.score == -negamax(g, line.push(r.best_move.unwrap()), max_depth).score
            &&& forall|m: BitMove| #[trigger]
                g.playable(line, m) ==> r.score >= -negamax(g, line.push(m), max_depth).score
        }),
{
    let moves = g.legal_moves(line);
    let start = Scored { best_move: None, score: NEG_INFINITE as int };
    let r = negamax(g, line, max_depth);
    lemma_negamax_fold_best(g, line, max_depth, 0, start);
    lemma_negamax_fold_finite(g, line, max_depth, 0, start);
    lemma_legal_moves(g, line);
    assert(r != start);
    let k = choose|k: int|
        0 <= k < moves.len() && r.best_move == Some(#[trigger] moves[k]) && r.score == -negamax(
            g,
            line.push(moves[k]),
            max_depth,
        ).score;
    assert(moves.contains(moves[k]));
    assert forall|m: BitMove| #[trigger] g.playable(line, m) implies r.score >= -negamax(
        g,
        line.push(m),
        max_depth,
    ).score by {
        assert(moves.contains(m));
        let j = choose|j: int| 0 <= j < moves.len() && moves[j] == m;
        assert(r.score >= -negamax(g, line.push(moves[j]), max_depth).score);
    }
}

/// Negamax names a move exactly where the position is short of the depth
/// limit and has a legal move.
pub proof fn lemma_negamax_names_move(g: Game, line: Seq<BitMove>, max_depth: int)
    requires
        g.wf(),
        line.len() <= max_depth,
        MATE + max_depth < INFINITE,
    ensures
        negamax(g, line, max_depth).best_move.is_some() <==> line.len() < max_depth
            && g.legal_moves(line).len() > 0,
{
    if line.len() < max_depth && g.legal_moves(line).len() > 0 {
        lemma_negamax_symmetry(g, line, max_depth);
    }
}

/// The window theorem of alpha-beta pruning: for a window between the two
/// infinities, the score that the pruned search returns equals the negamax
/// value where that value lies inside the window, and otherwise lies on the
/// same side of the window as the value, between the window's edge and it.
pub proof fn lemma_alpha_beta_window(
    g: Game,
    line: Seq<BitMove>,
    alpha: int,
    beta: int,
    max_depth: int,
)
    requires
        line.len() <= max_depth,
        NEG_INFINITE <= alpha < beta <= INFINITE,
    ensures
        within_window(
            negamax(g, line, max_depth).score,
            alpha_beta(g, line, alpha, beta, max_depth).score,
            alpha,
            beta,
        ),
    decreases max_depth - line.len(), g.legal_moves(line).len() + 1,
{
    if line.len() < max_depth && g.legal_moves(line).len() > 0 {
        let start = Scored { best_move: None, score: NEG_INFINITE as int };
        lemma_alpha_beta_fold_window(g, line, alpha, alpha, beta, max_depth, 0, start, start);
    }
}

/// The window theorem for the move loop. The pruned loop runs with lower
/// edge `raised`, the larger of the window's `alpha` and its best so far
/// `pruned`; and that best is the best `best` of the unpruned loop where
/// this lies above `alpha`, and lies between it and `alpha` otherwise.
pub proof fn lemma_alpha_beta_fold_window(
    g: Game,
    line: Seq<BitMove>,
    alpha: int,
    raised: int,
    beta: int,
    max_depth: int,
    i: int,
    pruned: Scored,
    best: Scored,
)
    requires
        line.len() < max_depth,
        0 <= i <= g.legal_moves(line).len(),
        NEG_INFINITE <= alpha <= raised < beta <= INFINITE,
        raised == if pruned.score > alpha {
            pruned.score
        } else {
            alpha
        },
        best.score <= alpha ==> best.score <= pruned.score <= alpha,
        best.score > alpha ==> pruned.score == best.score,
    ensures
        within_window(
            negamax_fold(g, line, max_depth, i, best).score,
            alpha_beta_fold(g, line, raised, beta, max_depth, i, pruned).score,
            alpha,
            beta,
        ),
    decreases max_depth - line.len(), g.legal_moves(line).len() - i,
{
    let moves = g.legal_moves(line);
    if i < moves.len() {
        let child = line.push(moves[i]);
        lemma_alpha_beta_window(g, child, -beta, -raised, max_depth);
        let m = -negamax(g, child, max_depth).score;
        let s = -alpha_beta(g, child, -beta, -raised, max_depth).score;
        let next = if m > best.score {
            Scored { best_move: Some(moves[i]), score: m }
        } else {
            best
        };
        let next_pruned = if s > pruned.score {
            Scored { best_move: Some(moves[i]), score: s }
        } else {
            pruned
        };
        let v = negamax_fold(g, line, max_depth, i, best).score;
        let r = alpha_beta_fold(g, line, raised, beta, max_depth, i, pruned).score;
        assert(v == negamax_fold(g, line, max_depth, i + 1, next).score);
        if m >= beta {
            assert(beta <= s <= m);
            assert(r == s);
            lemma_negamax_fold_monotone(g, line, max_depth, i + 1, next);
        } else if m > raised {
            assert(s == m);
            assert(r == alpha_beta_fold(g, line, m, beta, max_depth, i + 1, next_pruned).score);
            lemma_alpha_beta_fold_window(
                g,
                line,
                alpha,
                m,
                beta,
                max_depth,
                i + 1,
                next_pruned,
                next,
            );
        } else {
            assert(m <= s <= raised);
            assert(r == alpha_beta_fold(g, line, raised, beta, max_depth, i + 1, next_pruned).score);
            lemma_alpha_beta_fold_window(
                g,
                line,
                alpha,
                raised,
                beta,
                max_depth,
                i + 1,
                next_pruned,
                next,
            );
        }
    }
}

/// Alpha-beta equals minimax: searched with the full window, the pruned
/// search returns the negamax score of the position.
pub proof fn lemma_alpha_beta_equals_negamax(g: Game, line: Seq<BitMove>, max_depth: int)
    requires
        g.wf(),
        line.len() <= max_depth,
        MATE + max_depth < INFINITE,
    ensures
        alpha_beta(g, line, NEG_INFINITE as int, INFINITE as int, max_depth).score == negamax(
            g,
            line,
            max_depth,
        ).score,
{
    lemma_negamax_finite(g, line, max_depth);
    lemma_alpha_beta_window(g, line, NEG_INFINITE as int, INFINITE as int, max_depth);
}

/// Once the alpha-beta move loop holds a move it returns one.
pub proof fn lemma_alpha_beta_fold_keeps_move(
    g: Game,
    line: Seq<BitMove>,
    alpha: int,
    beta: int,
    max_depth: int,
    i: int,
    best: Scored,
)
    requires
        0 <= i,
        best.best_move.is_some(),
    ensures
        alpha_beta_fold(g, line, alpha, beta, max_depth, i, best).best_move.is_some(),
    decreases g.legal_moves(line).len() - i,
{
    let moves = g.legal_moves(line);
    if line.len() < max_depth && i < moves.len() {
        let score = -alpha_beta(g, line.push(moves[i]), -beta, -alpha, max_depth).score;
        let next = if score > best.score {
            Scored { best_move: Some(moves[i]), score }
        } else {
            best
        };
        let raised = if score > alpha {
            score
        } else {
            alpha
        };
        if raised < beta {
            lemma_alpha_beta_fold_keeps_move(g, line, raised, beta, max_depth, i + 1, next);
        }
    }
}

/// Searched with the full window, alpha-beta names a move exactly where the
/// position is short of the depth limit and has a legal move.
pub proof fn lemma_alpha_beta_names_move(g: Game, line: Seq<BitMove>, max_depth: int)
    requires
        g.wf(),
        line.len() <= max_depth,
        MATE + max_depth < INFINITE,
    ensures
        alpha_beta(
            g,
            line,
            NEG_INFINITE as int,
            INFINITE as int,
            max_depth,
        ).best_move.is_some() <==> line.len() < max_depth && g.legal_moves(line).len() > 0,
{
    let moves = g.legal_moves(line);
    if line.len() < max_depth && moves.len() > 0 {
        let child = line.push(moves[0]);
        lemma_alpha_beta_equals_negamax(g, child, max_depth);
        lemma_negamax_finite(g, child, max_depth);
        let score = -alpha_beta(g, child, NEG_INFINITE as int, INFINITE as int, max_depth).score;
        assert(score > NEG_INFINITE);
        let next = Scored { best_move: Some(moves[0]), score };
        if score < INFINITE {
            lemma_alpha_beta_fold_keeps_move(
                g,
                line,
                score,
                INFINITE as int,
                max_depth,
                1,
                next,
            );
        }
    }
}

/// The value, for the side that plays it, that alpha-beta finds for a move
/// when the window stands at `alpha` and `beta`.
pub open spec fn reply_score(
    g: Game,
    line: Seq<BitMove>,
    m: BitMove,
    alpha: int,
    beta: int,
    max_depth: int,
) -> int {
    -alpha_beta(g, line.push(m), -beta, -alpha, max_depth).score
}

/// The move loop where no reply from number `i` on scores above `alpha`:
/// it ends on a best that no such reply beats, and either keeps the best
/// it started with or names a later move with the score of its reply.
pub proof fn lemma_alpha_beta_fold_fail_low(
    g: Game,
    line: Seq<BitMove>,
    alpha: int,
    beta: int,
    max_depth: int,
    i: int,
    best: Scored,
)
    requires
        line.len() < max_depth,
        alpha < beta,
        0 <= i <= g.legal_moves(line).len(),
        forall|j: int|
            i <= j < g.legal_moves(line).len() ==> reply_score(
                g,
                line,
                #[trigger] g.legal_moves(line)[j],
                alpha,
                beta,
                max_depth,
            ) <= alpha,
    ensures
        ({
            let moves = g.legal_moves(line);
            let r = alpha_beta_fold(g, line, alpha, beta, max_depth, i, best);
            &&& r.score >= best.score
            &&& forall|j: int|
                i <= j < moves.len() ==> r.score >= reply_score(
                    g,
                    line,
                    #[trigger] moves[j],
                    alpha,
                    beta,
                    max_depth,
                )
            &&& (r == best || exists|k: int|
                i <= k < moves.len() && r.best_move == Some(#[trigger] moves[k]) && r.score
                    == reply_score(g, line, moves[k], alpha, beta, max_depth))
        }),
    decreases g.legal_moves(line).len() - i,
{
    let moves = g.legal_moves(line);
    let r = alpha_beta_fold(g, line, alpha, beta, max_depth, i, best);
    if i < moves.len() {
        let score = reply_score(g, line, moves[i], alpha, beta, max_depth);
        let next = if score > best.score {
            Scored { best_move: Some(moves[i]), score }
        } else {
            best
        };
        assert(score <= alpha);
        lemma_alpha_beta_fold_fail_low(g, line, alpha, beta, max_depth, i + 1, next);
        assert(r == alpha_beta_fold(g, line, alpha, beta, max_depth, i + 1, next));
        assert forall|j: int| i <= j < moves.len() implies r.score >= reply_score(
            g,
            line,
            #[trigger] moves[j],
            alpha,
            beta,
            max_depth,
        ) by {
            if j == i {
            }
        }
        if r != best {
            if r == next {
                assert(r.best_move == Some(moves[i]));
            } else {
                let k = choose|k: int|
                    i + 1 <= k < moves.len() && r.best_move == Some(#[trigger] moves[k]) && r.score
                        == reply_score(g, line, moves[k], alpha, beta, max_depth);
                assert(i <= k < moves.len() && r.best_move == Some(moves[k]));
            }
        }
    }
}

/// Fail-soft. Where no reply to a position scores above `alpha`, the
/// search does not return `alpha`: it returns the highest score of a
/// reply, which no reply beats, together with a move that has that score,
/// or minus infinity and no move where no reply scores above that.
pub proof fn lemma_alpha_beta_fail_low(
    g: Game,
    line: Seq<BitMove>,
    alpha: int,
    beta: int,
    max_depth: int,
)
    requires
        line.len() < max_depth,
        alpha < beta,
        g.legal_moves(line).len() > 0,
        forall|j: int|
            0 <= j < g.legal_moves(line).len() ==> reply_score(
                g,
                line,
                #[trigger] g.legal_moves(line)[j],
                alpha,
                beta,
                max_depth,
            ) <= alpha,
    ensures
        ({
            let moves = g.legal_moves(line);
            let r = alpha_beta(g, line, alpha, beta, max_depth);
            &&& forall|j: int|
                0 <= j < moves.len() ==> r.score >= reply_score(
                    g,
                    line,
                    #[trigger] moves[j],
                    alpha,
                    beta,
                    max_depth,
                )
            &&& (r == Scored { best_move: None, score: NEG_INFINITE as int } || exists|k: int|
                0 <= k < moves.len() && r.best_move == Some(#[trigger] moves[k]) && r.score
                    == reply_score(g, line, moves[k], alpha, beta, max_depth))
        }),
{
    lemma_alpha_beta_fold_fail_low(
        g,
        line,
        alpha,
        beta,
        max_depth,
        0,
        Scored { best_move: None, score: NEG_INFINITE as int },
    );
}

/// The reference searches are functions of the position: on two boards
/// that stand on the same position, searches with the same window and
/// depth have the same result.
pub proof fn lemma_equal_positions_equal_results<P: Position>(
    a: P,
    b: P,
    alpha: int,
    beta: int,
    max_depth: int,
)
    requires
        same_position(a, b),
    ensures
        negamax(a.game(), a.line(), max_depth) == negamax(b.game(), b.line(), max_depth),
        alpha_beta(a.game(), a.line(), alpha, beta, max_depth) == alpha_beta(
            b.game(),
            b.line(),
            alpha,
            beta,
            max_depth,
        ),
{
}

} // verus!
