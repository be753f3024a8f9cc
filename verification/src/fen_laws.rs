//! What holds of every piece placement that is read from text.

use vstd::prelude::*;
use crate::piece_locations::{
    count_of, digit_of_char, fen_placement, piece_of_char, read_rank, read_ranks, Placement,
};
use crate::types::{Occupant, PieceType, Player};

verus! {

/// Changing one square changes the count of a content by what the square
/// loses and gains.
pub proof fn lemma_count_update(squares: Seq<Occupant>, i: int, put: Occupant, o: Occupant)
    requires
        0 <= i < squares.len(),
    ensures
        count_of(squares.update(i, put), o) == count_of(squares, o) - (if squares[i] == o {
            1int
        } else {
            0int
        }) + (if put == o {
            1int
        } else {
            0int
        }),
    decreases squares.len(),
{
    let after = squares.update(i, put);
    if i == squares.len() - 1 {
        assert(after.drop_last() =~= squares.drop_last());
    } else {
        assert(after.drop_last() =~= squares.drop_last().update(i, put));
        lemma_count_update(squares.drop_last(), i, put, o);
    }
}

/// The board has 64 squares, the counts form a table of two rows of six,
/// and every count is the number of squares that hold that piece of that
/// player.
pub open spec fn counted(st: Placement) -> bool {
    &&& st.squares.len() == 64
    &&& st.counts.len() == 2
    &&& st.counts[0].len() == 6
    &&& st.counts[1].len() == 6
    &&& forall|player: Player, piece: PieceType|
        #![trigger st.counts[player.index()][piece.index()]]
        st.counts[player.index()][piece.index()] == count_of(st.squares, Some((player, piece)))
}

/// Every square that is still to be read is empty: the squares from the
/// cursor to the end of the rank, and the squares of the ranks below.
pub open spec fn unread_empty(st: Placement, rank: int, idx: int) -> bool {
    forall|sq: int|
        0 <= sq < 64 && (sq < (7 - rank) * 8 || idx <= sq) && sq <= (7 - rank) * 8 + 7
            ==> (#[trigger] st.squares[sq]).is_none()
}

/// No content is counted on the empty board.
pub proof fn lemma_count_empty(squares: Seq<Occupant>, o: Occupant)
    requires
        forall|i: int| 0 <= i < squares.len() ==> (#[trigger] squares[i]).is_none(),
        o.is_some(),
    ensures
        count_of(squares, o) == 0,
    decreases squares.len(),
{
    if squares.len() > 0 {
        assert forall|i: int| 0 <= i < squares.drop_last().len() implies (
        #[trigger] squares.drop_last()[i]).is_none() by {
            assert(squares.drop_last()[i] == squares[i]);
        }
        lemma_count_empty(squares.drop_last(), o);
        assert(squares.last() == squares[squares.len() - 1]);
    }
}

/// Reading a rank keeps the counts right, puts pieces on squares of the
/// rank only, and never finds the cursor before the rank.
pub proof fn lemma_read_rank(chars: Seq<char>, rank: int, idx: int, st: Placement)
    requires
        0 <= rank < 8,
        (7 - rank) * 8 <= idx,
        counted(st),
        unread_empty(st, rank, idx),
    ensures
        match read_rank(chars, rank, idx, st) {
            Ok(next) => counted(next) && unread_empty(next, rank + 1, (7 - (rank + 1)) * 8),
            Err(e) => !(e is SquareSmallerRank),
        },
    decreases chars.len(),
{
    let min_sq = (7 - rank) * 8;
    let max_sq = min_sq + 7;
    if chars.len() == 0 {
    } else if idx > max_sq {
    } else {
        match digit_of_char(chars[0]) {
            Some(d) => {
                lemma_read_rank(chars.drop_first(), rank, idx + d, st);
            },
            None => match piece_of_char(chars[0]) {
                Some((player, piece)) => {
                    let next = st.with_piece(idx, player, piece);
                    assert(st.squares[idx].is_none());
                    assert forall|pl: Player, pt: PieceType|
                        #![trigger next.counts[pl.index()][pt.index()]]
                        next.counts[pl.index()][pt.index()] == count_of(
                            next.squares,
                            Some((pl, pt)),
                        ) by {
                        lemma_count_update(st.squares, idx, Some((player, piece)), Some((pl, pt)));
                        assert(st.counts[pl.index()][pt.index()] == count_of(
                            st.squares,
                            Some((pl, pt)),
                        ));
                    }
                    assert(counted(next));
                    assert(unread_empty(next, rank, idx + 1)) by {
                        assert forall|sq: int|
                            0 <= sq < 64 && (sq < (7 - rank) * 8 || idx + 1 <= sq) && sq <= (7
                                - rank) * 8 + 7 implies (#[trigger] next.squares[sq]).is_none() by {
                            assert(st.squares[sq].is_none());
                        }
                    }
                    lemma_read_rank(chars.drop_first(), rank, idx + 1, next);
                },
                None => {},
            },
        }
    }
}

/// The same for the ranks from number `from` on.
pub proof fn lemma_read_ranks(ranks: Seq<&str>, from: int, st: Placement)
    requires
        0 <= from,
        ranks.len() <= 8,
        counted(st),
        unread_empty(st, from, (7 - from) * 8),
    ensures
        match read_ranks(ranks, from, st) {
            Ok(next) => counted(next),
            Err(e) => !(e is SquareSmallerRank),
        },
    decreases ranks.len() - from,
{
    if from < ranks.len() {
        lemma_read_rank(ranks[from]@, from, (7 - from) * 8, st);
        match read_rank(ranks[from]@, from, (7 - from) * 8, st) {
            Ok(next) => {
                lemma_read_ranks(ranks, from + 1, next);
            },
            Err(e) => {},
        }
    }
}

/// In every placement that is read, each count is the number of squares
/// that hold that piece of that player; and no placement is refused for a
/// cursor that stands before its rank.
pub proof fn lemma_placement_counts(ranks: Seq<&str>)
    requires
        ranks.len() <= 8,
    ensures
        match fen_placement(ranks) {
            Ok(p) => counted(p),
            Err(e) => !(e is SquareSmallerRank),
        },
{
    let start = Placement::empty();
    assert forall|player: Player, piece: PieceType|
        #![trigger start.counts[player.index()][piece.index()]]
        start.counts[player.index()][piece.index()] == count_of(
            start.squares,
            Some((player, piece)),
        ) by {
        lemma_count_empty(start.squares, Some((player, piece)));
    }
    lemma_read_ranks(ranks, 0, start);
}

} // verus!
