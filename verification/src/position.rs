//! The interface through which the searchers see a board, and the
//! mathematical game that a board stands for.

use vstd::prelude::*;
use crate::piece_move::BitMove;
use crate::score::{finite, Value};
use crate::tables::{Material, PawnTable};
use crate::types::{PieceType, Player, SQ};

verus! {

/// A game seen from a root position. Every later position is named by its
/// line: the moves played since the root, in order.
pub struct Game {
    /// The pseudo-legal moves of a position, in generation order.
    pub pseudo: spec_fn(Seq<BitMove>) -> Seq<BitMove>,
    /// Whether a pseudo-legal move of a position is legal.
    pub legal: spec_fn(Seq<BitMove>, BitMove) -> bool,
    /// Whether the side to move is in check.
    pub check: spec_fn(Seq<BitMove>) -> bool,
    /// The static evaluation of a position, for the side to move.
    pub eval: spec_fn(Seq<BitMove>) -> int,
    /// The hash key of a position.
    pub key: spec_fn(Seq<BitMove>) -> u64,
    /// The type of the piece on a square of a position, if any.
    pub piece: spec_fn(Seq<BitMove>, SQ) -> Option<PieceType>,
    /// The type of the piece that a move would capture, if any.
    pub victim: spec_fn(Seq<BitMove>, BitMove) -> Option<PieceType>,
    /// The side to move.
    pub turn: spec_fn(Seq<BitMove>) -> Player,
    /// Half-moves played in the whole game when a position is reached.
    pub played: spec_fn(Seq<BitMove>) -> u16,
}

impl Game {
    /// Whether a move can be played in a position: it is generated there
    /// and passes the legality test.
    pub open spec fn playable(self, line: Seq<BitMove>, m: BitMove) -> bool {
        (self.pseudo)(line).contains(m) && (self.legal)(line, m)
    }

    /// The legal moves of a position: its pseudo-legal moves that pass the
    /// legality test, in generation order.
    pub open spec fn legal_moves(self, line: Seq<BitMove>) -> Seq<BitMove> {
        (self.pseudo)(line).filter(|m: BitMove| (self.legal)(line, m))
    }

    /// Every evaluation is finite, no generated move is the null move,
    /// every generated move starts on an occupied square, and every
    /// generated capture has a victim.
    pub open spec fn wf(self) -> bool {
        &&& forall|line: Seq<BitMove>| finite(#[trigger] (self.eval)(line))
        &&& forall|line: Seq<BitMove>, i: int|
            0 <= i < (self.pseudo)(line).len() ==> self.move_ok(
                line,
                #[trigger] (self.pseudo)(line)[i],
            )
    }

    /// A generated move is not the null move, its mover is on the board
    /// and, for a capture, so is the piece taken.
    pub open spec fn move_ok(self, line: Seq<BitMove>, m: BitMove) -> bool {
        &&& !m.null_move()
        &&& (self.piece)(line, m.src()).is_some()
        &&& m.capture() ==> (self.victim)(line, m).is_some()
    }

    /// The same game seen from the position that `prefix` leads to.
    pub open spec fn rebase(self, prefix: Seq<BitMove>) -> Game {
        Game {
            pseudo: |l: Seq<BitMove>| (self.pseudo)(prefix + l),
            legal: |l: Seq<BitMove>, m: BitMove| (self.legal)(prefix + l, m),
            check: |l: Seq<BitMove>| (self.check)(prefix + l),
            eval: |l: Seq<BitMove>| (self.eval)(prefix + l),
            key: |l: Seq<BitMove>| (self.key)(prefix + l),
            piece: |l: Seq<BitMove>, sq: SQ| (self.piece)(prefix + l, sq),
            victim: |l: Seq<BitMove>, m: BitMove| (self.victim)(prefix + l, m),
            turn: |l: Seq<BitMove>| (self.turn)(prefix + l),
            played: |l: Seq<BitMove>| (self.played)(prefix + l),
        }
    }
}

/// The legal moves of a position are exactly its pseudo-legal moves that
/// pass the legality test: none is added and none is left out.
pub proof fn lemma_legal_moves(g: Game, line: Seq<BitMove>)
    ensures
        forall|m: BitMove| #[trigger] g.legal_moves(line).contains(m) <==> g.playable(line, m),
        g.legal_moves(line).len() <= (g.pseudo)(line).len(),
{
    let pred = |m: BitMove| (g.legal)(line, m);
    let all = (g.pseudo)(line);
    all.lemma_filter_len(pred);
    assert forall|m: BitMove| #[trigger] g.legal_moves(line).contains(m) implies g.playable(
        line,
        m,
    ) by {
        all.lemma_filter_contains_rev(pred, m);
        let j = choose|j: int| 0 <= j < all.filter(pred).len() && all.filter(pred)[j] == m;
        all.lemma_filter_pred(pred, j);
        assert(pred(all.filter(pred)[j]));
    }
    assert forall|m: BitMove| g.playable(line, m) implies #[trigger] g.legal_moves(
        line,
    ).contains(m) by {
        let j = choose|j: int| 0 <= j < all.len() && all[j] == m;
        all.lemma_filter_contains(pred, j);
    }
}

/// A board as the searchers use it. A board stands for a game and the line
/// played since its root; making a move extends the line, taking one back
/// shortens it, and nothing else about the game changes.
pub trait Position: Sized {
    /// The game that the board plays, seen from its root.
    spec fn game(&self) -> Game;

    /// The moves made on the board since its root.
    spec fn line(&self) -> Seq<BitMove>;

    /// The board's own consistency.
    spec fn wf(&self) -> bool;

    /// A consistent board plays a well-formed game, and the length of its
    /// line fits sixteen bits.
    proof fn lemma_wf(&self)
        requires
            self.wf(),
        ensures
            self.game().wf(),
            self.line().len() <= u16::MAX,
    ;

    /// Number of moves made since the root.
    fn depth(&self) -> (d: u16)
        requires
            self.wf(),
        ensures
            d == self.line().len(),
    ;

    /// Number of half-moves played in the whole game.
    fn moves_played(&self) -> (n: u16)
        requires
            self.wf(),
        ensures
            n == (self.game().played)(self.line()),
    ;

    /// The side to move.
    fn turn(&self) -> (p: Player)
        requires
            self.wf(),
        ensures
            p == (self.game().turn)(self.line()),
    ;

    /// The hash key of the position.
    fn zobrist(&self) -> (k: u64)
        requires
            self.wf(),
        ensures
            k == (self.game().key)(self.line()),
    ;

    /// Whether the side to move is in check.
    fn in_check(&self) -> (b: bool)
        requires
            self.wf(),
        ensures
            b == (self.game().check)(self.line()),
    ;

    /// The static evaluation of the position, for the side to move, made
    /// with the help of the worker's caches. The caches may be read and
    /// filled; the value does not depend on what they hold.
    fn evaluate(&self, pawns: &mut PawnTable, material: &mut Material) -> (v: Value)
        requires
            self.wf(),
            old(pawns).cache.wf(),
            old(material).cache.wf(),
        ensures
            v == (self.game().eval)(self.line()),
            final(pawns).cache.wf(),
            final(material).cache.wf(),
            final(pawns).cache@.len() == old(pawns).cache@.len(),
            final(material).cache@.len() == old(material).cache@.len(),
    ;

    /// The static evaluation of the position, for the side to move, made
    /// without caches.
    fn eval_low(&self) -> (v: Value)
        requires
            self.wf(),
        ensures
            v == (self.game().eval)(self.line()),
    ;

    /// The legal moves of the position.
    fn generate_moves(&self) -> (moves: Vec<BitMove>)
        requires
            self.wf(),
        ensures
            moves@ == self.game().legal_moves(self.line()),
    ;

    /// The pseudo-legal moves of the position.
    fn generate_pseudolegal_moves(&self) -> (moves: Vec<BitMove>)
        requires
            self.wf(),
        ensures
            moves@ == (self.game().pseudo)(self.line()),
    ;

    /// Whether a pseudo-legal move is legal.
    fn legal_move(&self, m: BitMove) -> (b: bool)
        requires
            self.wf(),
            (self.game().pseudo)(self.line()).contains(m),
        ensures
            b == (self.game().legal)(self.line(), m),
    ;

    /// Whether a playable move leaves the opponent in check.
    fn gives_check(&self, m: BitMove) -> (b: bool)
        requires
            self.wf(),
            self.game().playable(self.line(), m),
        ensures
            b == (self.game().check)(self.line().push(m)),
    ;

    /// The type of the piece on a square, if any.
    fn piece_at_sq(&self, sq: SQ) -> (p: Option<PieceType>)
        requires
            self.wf(),
            sq.is_okay(),
        ensures
            p == (self.game().piece)(self.line(), sq),
    ;

    /// The type of the piece that a pseudo-legal move would capture, if any.
    fn captured_piece(&self, m: BitMove) -> (p: Option<PieceType>)
        requires
            self.wf(),
            (self.game().pseudo)(self.line()).contains(m),
        ensures
            p == (self.game().victim)(self.line(), m),
    ;

    /// Plays a move.
    fn apply_move(&mut self, m: BitMove)
        requires
            old(self).wf(),
            old(self).game().playable(old(self).line(), m),
            old(self).line().len() < u16::MAX,
        ensures
            final(self).wf(),
            final(self).game() == old(self).game(),
            final(self).line() == old(self).line().push(m),
    ;

    /// Plays a move of which the caller knows whether it gives check.
    fn apply_unknown_move(&mut self, m: BitMove, gives_check: bool)
        requires
            old(self).wf(),
            old(self).game().playable(old(self).line(), m),
            old(self).line().len() < u16::MAX,
            gives_check == (old(self).game().check)(old(self).line().push(m)),
        ensures
            final(self).wf(),
            final(self).game() == old(self).game(),
            final(self).line() == old(self).line().push(m),
    ;

    /// Takes the last move back.
    fn undo_move(&mut self)
        requires
            old(self).wf(),
            old(self).line().len() > 0,
        ensures
            final(self).wf(),
            final(self).game() == old(self).game(),
            final(self).line() == old(self).line().drop_last(),
    ;

    /// A copy of the board with the same root and the same line, for
    /// another thread to search on.
    fn parallel_clone(&self) -> (copy: Self)
        requires
            self.wf(),
        ensures
            copy.wf(),
            copy.game() == self.game(),
            copy.line() == self.line(),
    ;

    /// A copy of the board whose root is the current position.
    fn shallow_clone(&self) -> (copy: Self)
        requires
            self.wf(),
        ensures
            copy.wf(),
            copy.game() == self.game().rebase(self.line()),
            copy.line() == Seq::<BitMove>::empty(),
    ;
}

/// Two boards that stand on the same game and the same line stand on the
/// same position: key, depth, side to move, check, evaluation, move
/// counter, and the moves that can be made are the same.
pub open spec fn same_position<P: Position>(a: P, b: P) -> bool {
    &&& a.game() == b.game()
    &&& a.line() == b.line()
    &&& a.line().len() == b.line().len()
    &&& (a.game().key)(a.line()) == (b.game().key)(b.line())
    &&& (a.game().turn)(a.line()) == (b.game().turn)(b.line())
    &&& (a.game().check)(a.line()) == (b.game().check)(b.line())
    &&& (a.game().eval)(a.line()) == (b.game().eval)(b.line())
    &&& (a.game().played)(a.line()) == (b.game().played)(b.line())
    &&& (a.game().pseudo)(a.line()) == (b.game().pseudo)(b.line())
    &&& a.game().legal_moves(a.line()) == b.game().legal_moves(b.line())
}

/// Move / undo identity. Where a board `played` is what `apply_move` makes
/// of a board `before`, and a board `after` is what `undo_move` makes of
/// `played`, the board `after` stands on the position of `before`.
pub proof fn lemma_apply_undo_identity<P: Position>(before: P, played: P, after: P, m: BitMove)
    requires
        played.game() == before.game(),
        played.line() == before.line().push(m),
        after.game() == played.game(),
        after.line() == played.line().drop_last(),
    ensures
        same_position(after, before),
{
    assert(before.line().push(m).drop_last() =~= before.line());
}

} // verus!
