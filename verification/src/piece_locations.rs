//! The square-to-piece lookup table of a board.

use vstd::prelude::*;
use vstd::pervasive::unreached;
use vstd::std_specs::cmp::PartialEqSpecImpl;
use crate::types::{square_name, Occupant, PieceType, Player, SQ};

verus! {

/// The byte that stands for a square's content: bits 0 to 2 hold the piece
/// type (pawn 0 up to king 5, 7 for an empty square), bit 3 the colour.
pub open spec fn encode(c: Occupant) -> u8 {
    match c {
        None => 7,
        Some((Player::White, PieceType::P)) => 0,
        Some((Player::White, PieceType::N)) => 1,
        Some((Player::White, PieceType::B)) => 2,
        Some((Player::White, PieceType::R)) => 3,
        Some((Player::White, PieceType::Q)) => 4,
        Some((Player::White, PieceType::K)) => 5,
        Some((Player::Black, PieceType::P)) => 8,
        Some((Player::Black, PieceType::N)) => 9,
        Some((Player::Black, PieceType::B)) => 10,
        Some((Player::Black, PieceType::R)) => 11,
        Some((Player::Black, PieceType::Q)) => 12,
        Some((Player::Black, PieceType::K)) => 13,
    }
}

/// The content that a byte stands for. Both 7 and 15 read as empty.
pub open spec fn decode(b: u8) -> Occupant {
    if b == 0 {
        Some((Player::White, PieceType::P))
    } else if b == 1 {
        Some((Player::White, PieceType::N))
    } else if b == 2 {
        Some((Player::White, PieceType::B))
    } else if b == 3 {
        Some((Player::White, PieceType::R))
    } else if b == 4 {
        Some((Player::White, PieceType::Q))
    } else if b == 5 {
        Some((Player::White, PieceType::K))
    } else if b == 8 {
        Some((Player::Black, PieceType::P))
    } else if b == 9 {
        Some((Player::Black, PieceType::N))
    } else if b == 10 {
        Some((Player::Black, PieceType::B))
    } else if b == 11 {
        Some((Player::Black, PieceType::R))
    } else if b == 12 {
        Some((Player::Black, PieceType::Q))
    } else if b == 13 {
        Some((Player::Black, PieceType::K))
    } else {
        None
    }
}

/// The bytes that `encode` produces.
pub open spec fn canonical(b: u8) -> bool {
    b <= 5 || b == 7 || (8 <= b && b <= 13)
}

/// Decoding undoes encoding, and every encoded byte is canonical.
pub proof fn lemma_decode_encode(c: Occupant)
    ensures
        decode(encode(c)) == c,
        canonical(encode(c)),
{
}

/// On canonical bytes encoding undoes decoding.
pub proof fn lemma_encode_decode(b: u8)
    requires
        canonical(b),
    ensures
        encode(decode(b)) == b,
{
}

/// The number of squares that hold the given content.
pub open spec fn count_of(squares: Seq<Occupant>, o: Occupant) -> int
    decreases squares.len(),
{
    if squares.len() == 0 {
        0
    } else {
        count_of(squares.drop_last(), o) + if squares.last() == o {
            1int
        } else {
            0int
        }
    }
}

/// Why a piece placement could not be read.
#[derive(PartialEq, Eq, Debug)]
pub enum FenBuildError {
    /// A character was met while the cursor stood before the rank it belongs to.
    SquareSmallerRank { rank: usize, square: String },
    /// A character was met while the cursor stood beyond the end of its rank.
    SquareLargerRank { rank: usize, square: String },
    /// A character is neither a digit nor a piece letter.
    UnrecognizedPiece { piece: char },
}

/// The mathematical content of a `FenBuildError`.
pub enum FenError {
    SquareSmallerRank { rank: int, square: Seq<char> },
    SquareLargerRank { rank: int, square: Seq<char> },
    UnrecognizedPiece { piece: char },
}

impl View for FenBuildError {
    type V = FenError;

    open spec fn view(&self) -> FenError {
        match *self {
            FenBuildError::SquareSmallerRank { rank, square } => FenError::SquareSmallerRank {
                rank: rank as int,
                square: square@,
            },
            FenBuildError::SquareLargerRank { rank, square } => FenError::SquareLargerRank {
                rank: rank as int,
                square: square@,
            },
            FenBuildError::UnrecognizedPiece { piece } => FenError::UnrecognizedPiece { piece },
        }
    }
}

/// What a piece placement describes: the content of each square and, for
/// each player and piece type, how many were placed.
pub struct Placement {
    pub squares: Seq<Occupant>,
    pub counts: Seq<Seq<int>>,
}

impl Placement {
    /// The empty board with all counts at zero.
    pub open spec fn empty() -> Placement {
        Placement {
            squares: Seq::new(64, |i: int| None::<(Player, PieceType)>),
            counts: Seq::new(2, |p: int| Seq::new(6, |t: int| 0int)),
        }
    }

    /// The placement after one more piece is put on square `idx`.
    pub open spec fn with_piece(self, idx: int, player: Player, piece: PieceType) -> Placement {
        Placement {
            squares: self.squares.update(idx, Some((player, piece))),
            counts: self.counts.update(
                player.index(),
                self.counts[player.index()].update(
                    piece.index(),
                    self.counts[player.index()][piece.index()] + 1,
                ),
            ),
        }
    }
}

/// The piece that a letter stands for: lower case is Black, upper case White.
pub open spec fn piece_of_char(c: char) -> Occupant {
    if c == 'p' {
        Some((Player::Black, PieceType::P))
    } else if c == 'n' {
        Some((Player::Black, PieceType::N))
    } else if c == 'b' {
        Some((Player::Black, PieceType::B))
    } else if c == 'r' {
        Some((Player::Black, PieceType::R))
    } else if c == 'q' {
        Some((Player::Black, PieceType::Q))
    } else if c == 'k' {
        Some((Player::Black, PieceType::K))
    } else if c == 'P' {
        Some((Player::White, PieceType::P))
    } else if c == 'N' {
        Some((Player::White, PieceType::N))
    } else if c == 'B' {
        Some((Player::White, PieceType::B))
    } else if c == 'R' {
        Some((Player::White, PieceType::R))
    } else if c == 'Q' {
        Some((Player::White, PieceType::Q))
    } else if c == 'K' {
        Some((Player::White, PieceType::K))
    } else {
        None
    }
}

/// The value of a decimal digit, if the character is one.
pub open spec fn digit_of_char(c: char) -> Option<int> {
    if c == '0' {
        Some(0)
    } else if c == '1' {
        Some(1)
    } else if c == '2' {
        Some(2)
    } else if c == '3' {
        Some(3)
    } else if c == '4' {
        Some(4)
    } else if c == '5' {
        Some(5)
    } else if c == '6' {
        Some(6)
    } else if c == '7' {
        Some(7)
    } else if c == '8' {
        Some(8)
    } else if c == '9' {
        Some(9)
    } else {
        None
    }
}

/// Reads the characters of rank number `rank` (counted from the top of the
/// board) with the cursor at square `idx`. Before each character the cursor
/// must stand inside the rank. A digit moves the cursor on by its value, a
/// piece letter puts that piece under the cursor and moves it on by one.
pub open spec fn read_rank(chars: Seq<char>, rank: int, idx: int, st: Placement) -> Result<
    Placement,
    FenError,
>
    decreases chars.len(),
{
    let min_sq = (7 - rank) * 8;
    let max_sq = min_sq + 7;
    if chars.len() == 0 {
        Ok(st)
    } else if idx < min_sq {
        Err(FenError::SquareSmallerRank { rank, square: square_name(idx) })
    } else if idx > max_sq {
        Err(FenError::SquareLargerRank { rank, square: square_name(idx) })
    } else {
        match digit_of_char(chars[0]) {
            Some(d) => read_rank(chars.drop_first(), rank, idx + d, st),
            None => match piece_of_char(chars[0]) {
                Some((player, piece)) => read_rank(
                    chars.drop_first(),
                    rank,
                    idx + 1,
                    st.with_piece(idx, player, piece),
                ),
                None => Err(FenError::UnrecognizedPiece { piece: chars[0] }),
            },
        }
    }
}

/// Reads the ranks from number `from` on, each starting at its first square.
pub open spec fn read_ranks(ranks: Seq<&str>, from: int, st: Placement) -> Result<
    Placement,
    FenError,
>
    decreases ranks.len() - from,
{
    if from < 0 || from >= ranks.len() {
        Ok(st)
    } else {
        match read_rank(ranks[from]@, from, (7 - from) * 8, st) {
            Ok(next) => read_ranks(ranks, from + 1, next),
            Err(e) => Err(e),
        }
    }
}

/// What a list of ranks, top rank first, describes.
pub open spec fn fen_placement(ranks: Seq<&str>) -> Result<Placement, FenError> {
    read_ranks(ranks, 0, Placement::empty())
}

/// The counts of a 2 by 6 table as integers.
pub open spec fn counts_view(cnt: [[u8; 6]; 2]) -> Seq<Seq<int>> {
    Seq::new(2, |p: int| Seq::new(6, |t: int| cnt@[p]@[t] as int))
}

fn piece_for(ch: char) -> (r: Option<(Player, PieceType)>)
    ensures
        r == piece_of_char(ch),
{
    if ch == 'p' {
        Some((Player::Black, PieceType::P))
    } else if ch == 'n' {
        Some((Player::Black, PieceType::N))
    } else if ch == 'b' {
        Some((Player::Black, PieceType::B))
    } else if ch == 'r' {
        Some((Player::Black, PieceType::R))
    } else if ch == 'q' {
        Some((Player::Black, PieceType::Q))
    } else if ch == 'k' {
        Some((Player::Black, PieceType::K))
    } else if ch == 'P' {
        Some((Player::White, PieceType::P))
    } else if ch == 'N' {
        Some((Player::White, PieceType::N))
    } else if ch == 'B' {
        Some((Player::White, PieceType::B))
    } else if ch == 'R' {
        Some((Player::White, PieceType::R))
    } else if ch == 'Q' {
        Some((Player::White, PieceType::Q))
    } else if ch == 'K' {
        Some((Player::White, PieceType::K))
    } else {
        None
    }
}

fn digit_for(ch: char) -> (r: Option<usize>)
    ensures
        match r {
            Some(d) => digit_of_char(ch) == Some(d as int) && d <= 9,
            None => digit_of_char(ch).is_none(),
        },
{
    if ch == '0' {
        Some(0)
    } else if ch == '1' {
        Some(1)
    } else if ch == '2' {
        Some(2)
    } else if ch == '3' {
        Some(3)
    } else if ch == '4' {
        Some(4)
    } else if ch == '5' {
        Some(5)
    } else if ch == '6' {
        Some(6)
    } else if ch == '7' {
        Some(7)
    } else if ch == '8' {
        Some(8)
    } else if ch == '9' {
        Some(9)
    } else {
        None
    }
}

fn player_index(player: Player) -> (i: usize)
    ensures
        i == player.index(),
{
    match player {
        Player::White => 0,
        Player::Black => 1,
    }
}

fn piece_index(piece: PieceType) -> (i: usize)
    ensures
        i == piece.index(),
{
    match piece {
        PieceType::P => 0,
        PieceType::N => 1,
        PieceType::B => 2,
        PieceType::R => 3,
        PieceType::Q => 4,
        PieceType::K => 5,
    }
}

/// Maps each of the 64 squares to the piece on it, if any.
pub struct PieceLocations {
    data: [u8; 64],
}

impl View for PieceLocations {
    type V = Seq<Occupant>;

    /// The content of the 64 squares, by square index.
    closed spec fn view(&self) -> Seq<Occupant> {
        Seq::new(64, |i: int| decode(self.data@[i]))
    }
}

impl PieceLocations {
    /// Every square holds a canonical byte.
    #[verifier::type_invariant]
    pub closed spec fn wf(&self) -> bool {
        forall|i: int| 0 <= i < 64 ==> canonical(#[trigger] self.data@[i])
    }

    /// Every table has 64 squares.
    pub proof fn lemma_squares(&self)
        ensures
            self@.len() == 64,
    {
    }

    /// A table with no piece on any square.
    pub fn blank() -> (loc: PieceLocations)
        ensures
            loc.wf(),
            loc@.len() == 64,
            loc@ == Seq::new(64, |i: int| None::<(Player, PieceType)>),
    {
        let loc = PieceLocations { data: [7u8; 64] };
        assert(loc@ =~= Seq::new(64, |i: int| None::<(Player, PieceType)>));
        loc
    }

    /// A table of zero bytes, which reads as a white pawn on every square.
    /// A caller that wants a position overwrites each square.
    pub fn default() -> (loc: PieceLocations)
        ensures
            loc.wf(),
            loc@.len() == 64,
            loc@ == Seq::new(64, |i: int| Some((Player::White, PieceType::P))),
    {
        let loc = PieceLocations { data: [0u8; 64] };
        assert(loc@ =~= Seq::new(64, |i: int| Some((Player::White, PieceType::P))));
        loc
    }

    /// Puts a piece of a player on a square, replacing what stood there.
    pub fn place(&mut self, square: SQ, player: Player, piece: PieceType)
        requires
            square.is_okay(),
        ensures
            final(self).wf(),
            old(self)@.len() == 64,
            final(self)@.len() == 64,
            final(self)@ == old(self)@.update(square.0 as int, Some((player, piece))),
            final(self)@[square.0 as int] == Some((player, piece)),
            forall|other: int|
                0 <= other < 64 && other != square.0 ==> final(self)@[other] == old(self)@[other],
    {
        proof {
            use_type_invariant(&*self);
        }
        let code = self.create_sq(player, piece);
        self.data[square.0 as usize] = code;
        assert(self@ =~= old(self)@.update(square.0 as int, Some((player, piece))));
    }

    /// Empties a square.
    pub fn remove(&mut self, square: SQ)
        requires
            square.is_okay(),
        ensures
            final(self).wf(),
            old(self)@.len() == 64,
            final(self)@.len() == 64,
            final(self)@ == old(self)@.update(square.0 as int, None),
            final(self)@[square.0 as int].is_none(),
            forall|other: int|
                0 <= other < 64 && other != square.0 ==> final(self)@[other] == old(self)@[other],
    {
        proof {
            use_type_invariant(&*self);
        }
        self.data[square.0 as usize] = 7;
        assert(self@ =~= old(self)@.update(square.0 as int, None));
    }

    /// Returns the type of the piece on a square, if any.
    pub fn piece_at(&self, square: SQ) -> (r: Option<PieceType>)
        requires
            square.is_okay(),
        ensures
            r == match self@[square.0 as int] {
                Some((_, piece)) => Some(piece),
                None => None,
            },
    {
        proof {
            use_type_invariant(self);
        }
        let full: u8 = self.data[square.0 as usize];
        let byte: u8 = full & 0b0111;
        assert(byte == full % 8) by (bit_vector)
            requires
                byte == full & 0b0111,
        ;
        if byte == 0 {
            Some(PieceType::P)
        } else if byte == 1 {
            Some(PieceType::N)
        } else if byte == 2 {
            Some(PieceType::B)
        } else if byte == 3 {
            Some(PieceType::R)
        } else if byte == 4 {
            Some(PieceType::Q)
        } else if byte == 5 {
            Some(PieceType::K)
        } else if byte == 7 {
            None
        } else {
            unreached()
        }
    }

    /// Returns the type of the piece on a square if it belongs to `player`.
    pub fn piece_at_for_player(&self, square: SQ, player: Player) -> (r: Option<PieceType>)
        requires
            square.is_okay(),
        ensures
            r == match self@[square.0 as int] {
                Some((owner, piece)) => if owner == player {
                    Some(piece)
                } else {
                    None
                },
                None => None,
            },
    {
        let op = self.player_piece_at(square);
        match op {
            Some(p) => {
                if p.0 == player {
                    Some(p.1)
                } else {
                    None
                }
            },
            None => None,
        }
    }

    /// Returns the player whose piece stands on a square, if any.
    pub fn player_at(&self, square: SQ) -> (r: Option<Player>)
        requires
            square.is_okay(),
        ensures
            r == match self@[square.0 as int] {
                Some((owner, _)) => Some(owner),
                None => None,
            },
    {
        proof {
            use_type_invariant(self);
        }
        let byte: u8 = self.data[square.0 as usize];
        if byte == 0b0111 || byte == 0b1111 {
            return None;
        }
        if byte < 8 {
            Some(Player::White)
        } else {
            Some(Player::Black)
        }
    }

    /// Returns the player and piece on a square, if any.
    pub fn player_piece_at(&self, square: SQ) -> (r: Option<(Player, PieceType)>)
        requires
            square.is_okay(),
        ensures
            r == self@[square.0 as int],
    {
        proof {
            use_type_invariant(self);
        }
        let byte: u8 = self.data[square.0 as usize];
        if byte == 0 {
            Some((Player::White, PieceType::P))
        } else if byte == 1 {
            Some((Player::White, PieceType::N))
        } else if byte == 2 {
            Some((Player::White, PieceType::B))
        } else if byte == 3 {
            Some((Player::White, PieceType::R))
        } else if byte == 4 {
            Some((Player::White, PieceType::Q))
        } else if byte == 5 {
            Some((Player::White, PieceType::K))
        } else if byte == 7 || byte == 15 {
            None
        } else if byte == 8 {
            Some((Player::Black, PieceType::P))
        } else if byte == 9 {
            Some((Player::Black, PieceType::N))
        } else if byte == 10 {
            Some((Player::Black, PieceType::B))
        } else if byte == 11 {
            Some((Player::Black, PieceType::R))
        } else if byte == 12 {
            Some((Player::Black, PieceType::Q))
        } else if byte == 13 {
            Some((Player::Black, PieceType::K))
        } else {
            unreached()
        }
    }

    /// Returns whether a piece stands on a square.
    pub fn at_square(&self, square: SQ) -> (b: bool)
        requires
            square.is_okay(),
        ensures
            b == self@[square.0 as int].is_some(),
    {
        proof {
            use_type_invariant(self);
        }
        let byte: u8 = self.data[square.0 as usize];
        byte != 0b0111 && byte != 0b1111
    }

    /// Returns the lowest square that holds the given piece of the given
    /// player, if any does.
    pub fn first_square(&self, piece: PieceType, player: Player) -> (r: Option<SQ>)
        ensures
            match r {
                Some(sq) => {
                    &&& sq.is_okay()
                    &&& self@[sq.0 as int] == Some((player, piece))
                    &&& forall|i: int| 0 <= i < sq.0 ==> self@[i] != Some((player, piece))
                },
                None => forall|i: int| 0 <= i < 64 ==> self@[i] != Some((player, piece)),
            },
    {
        proof {
            use_type_invariant(self);
        }
        let target = self.create_sq(player, piece);
        let mut x: u8 = 0;
        while x < 64
            invariant
                x <= 64,
                self.wf(),
                target == encode(Some((player, piece))),
                forall|i: int| 0 <= i < x ==> self@[i] != Some((player, piece)),
            decreases 64 - x,
        {
            if target == self.data[x as usize] {
                return Some(SQ(x));
            }
            x += 1;
        }
        None
    }

    /// Returns whether any square holds the given piece of the given player.
    pub fn contains(&self, piece: PieceType, player: Player) -> (b: bool)
        ensures
            b == exists|i: int| 0 <= i < 64 && self@[i] == Some((player, piece)),
    {
        let found = self.first_square(piece, player);
        proof {
            if let Some(sq) = found {
                assert(0 <= sq.0 as int && (sq.0 as int) < 64 && self@[sq.0 as int] == Some(
                    (player, piece),
                ));
            }
        }
        found.is_some()
    }

    /// Returns the number of squares that hold the given piece of the
    /// given player.
    pub fn count_piece(&self, player: Player, piece: PieceType) -> (n: u8)
        ensures
            n == count_of(self@, Some((player, piece))),
            n <= 64,
    {
        proof {
            use_type_invariant(self);
        }
        let target = self.create_sq(player, piece);
        let mut n: u8 = 0;
        let mut x: usize = 0;
        assert(self@.take(0) =~= Seq::<Occupant>::empty());
        while x < 64
            invariant
                x <= 64,
                n <= x,
                self.wf(),
                target == encode(Some((player, piece))),
                n == count_of(self@.take(x as int), Some((player, piece))),
            decreases 64 - x,
        {
            proof {
                assert(self@.take(x + 1).drop_last() =~= self@.take(x as int));
                assert(self@.take(x + 1).last() == self@[x as int]);
                lemma_encode_decode(self.data@[x as int]);
            }
            if target == self.data[x] {
                n += 1;
            }
            x += 1;
        }
        assert(self@.take(64) =~= self@);
        n
    }

    /// Returns whether each player has exactly one king on the board, as a
    /// legal position must.
    pub fn has_both_kings(&self) -> (b: bool)
        ensures
            b == (count_of(self@, Some((Player::White, PieceType::K))) == 1 && count_of(
                self@,
                Some((Player::Black, PieceType::K)),
            ) == 1),
    {
        self.count_piece(Player::White, PieceType::K) == 1 && self.count_piece(
            Player::Black,
            PieceType::K,
        ) == 1
    }

    /// Reads the piece placement of a position from its ranks, top rank
    /// first, and counts the pieces of each player and type.
    pub fn from_partial_fen(ranks: &[&str]) -> (r: Result<
        (PieceLocations, [[u8; 6]; 2]),
        FenBuildError,
    >)
        requires
            ranks@.len() <= 8,
        ensures
            match r {
                Ok((loc, cnt)) => loc.wf() && fen_placement(ranks@) == Ok::<Placement, FenError>(
                    Placement { squares: loc@, counts: counts_view(cnt) },
                ),
                Err(e) => fen_placement(ranks@) == Err::<Placement, FenError>(e@),
            },
    {
        let mut loc = PieceLocations::blank();
        let mut piece_cnt: [[u8; 6]; 2] = [[0u8; 6]; 2];
        let ghost mut st = Placement::empty();
        assert(counts_view(piece_cnt) =~~= st.counts);
        let mut i: usize = 0;
        while i < ranks.len()
            invariant
                i <= ranks@.len() <= 8,
                loc.wf(),
                st.squares == loc@,
                st.counts =~~= counts_view(piece_cnt),
                forall|p: int, t: int|
                    0 <= p < 2 && 0 <= t < 6 ==> (#[trigger] piece_cnt@[p]@[t]) <= 8 * i,
                read_ranks(ranks@, i as int, st) == fen_placement(ranks@),
            decreases ranks@.len() - i,
        {
            let rank: &str = ranks[i];
            let min_sq: usize = (7 - i) * 8;
            let max_sq: usize = min_sq + 7;
            let mut idx: usize = min_sq;
            let len = rank.unicode_len();
            let mut k: usize = 0;
            let ghost mut placed: int = 0;
            let ghost st0 = st;
            assert(rank@.subrange(0, len as int) =~= rank@);
            while k < len
                invariant
                    k <= len,
                    len == rank@.len(),
                    i < ranks@.len() <= 8,
                    min_sq == (7 - i) * 8,
                    max_sq == min_sq + 7,
                    min_sq <= idx <= max_sq + 9,
                    0 <= placed <= 8,
                    placed <= idx - min_sq,
                    loc.wf(),
                    st.squares == loc@,
                    st.counts =~~= counts_view(piece_cnt),
                    forall|p: int, t: int|
                        0 <= p < 2 && 0 <= t < 6 ==> (#[trigger] piece_cnt@[p]@[t]) <= 8 * i
                            + placed,
                    read_rank(rank@.subrange(k as int, len as int), i as int, idx as int, st)
                        == read_rank(rank@, i as int, min_sq as int, st0),
                    read_ranks(ranks@, i as int, st0) == fen_placement(ranks@),
                    rank@ == ranks@[i as int]@,
                decreases len - k,
            {
                let ghost rest = rank@.subrange(k as int, len as int);
                assert(rest.drop_first() =~= rank@.subrange(k + 1, len as int));
                assert(rest[0] == rank@[k as int]);
                assert(read_ranks(ranks@, i as int, st0) == match read_rank(
                    ranks@[i as int]@,
                    i as int,
                    (7 - i) * 8,
                    st0,
                ) {
                    Ok(next) => read_ranks(ranks@, i + 1, next),
                    Err(e) => Err(e),
                });
                if idx < min_sq {
                    return Err(
                        FenBuildError::SquareSmallerRank {
                            rank: i,
                            square: SQ(idx as u8).to_string(),
                        },
                    );
                } else if idx > max_sq {
                    return Err(
                        FenBuildError::SquareLargerRank {
                            rank: i,
                            square: SQ(idx as u8).to_string(),
                        },
                    );
                }
                let ch = rank.get_char(k);
                match digit_for(ch) {
                    Some(digit) => {
                        idx += digit;
                    },
                    None => {
                        let (player, piece) = match piece_for(ch) {
                            Some(found) => found,
                            None => {
                                return Err(FenBuildError::UnrecognizedPiece { piece: ch });
                            },
                        };
                        loc.place(SQ(idx as u8), player, piece);
                        let p = player_index(player);
                        let t = piece_index(piece);
                        let ghost before = piece_cnt;
                        piece_cnt[p][t] += 1;
                        proof {
                            st = st.with_piece(idx as int, player, piece);
                            placed = placed + 1;
                            assert(st.counts =~~= counts_view(piece_cnt));
                        }
                        idx += 1;
                    },
                }
                k += 1;
            }
            assert(rank@.subrange(k as int, len as int).len() == 0);
            assert(read_rank(rank@, i as int, min_sq as int, st0) == Ok::<Placement, FenError>(st));
            assert(read_ranks(ranks@, i as int, st0) == read_ranks(ranks@, i + 1, st));
            i += 1;
        }
        Ok((loc, piece_cnt))
    }

    /// The byte for a piece of a player.
    fn create_sq(&self, player: Player, piece: PieceType) -> (code: u8)
        ensures
            code == encode(Some((player, piece))),
    {
        let mut loc: u8 = match piece {
            PieceType::P => 0b0000,
            PieceType::N => 0b0001,
            PieceType::B => 0b0010,
            PieceType::R => 0b0011,
            PieceType::Q => 0b0100,
            PieceType::K => 0b0101,
        };
        if player == Player::Black {
            let low = loc;
            loc |= 0b1000;
            assert(loc == low + 8) by (bit_vector)
                requires
                    low <= 5,
                    loc == low | 0b1000,
            ;
        }
        loc
    }
}

impl Clone for PieceLocations {
    fn clone(&self) -> (res: PieceLocations)
        ensures
            res.wf(),
            res@ == self@,
            res@.len() == 64,
    {
        proof {
            use_type_invariant(self);
        }
        PieceLocations { data: self.data }
    }
}

impl PartialEq for PieceLocations {
    fn eq(&self, other: &PieceLocations) -> (b: bool) {
        proof {
            use_type_invariant(self);
            use_type_invariant(other);
        }
        let mut sq: usize = 0;
        while sq < 64
            invariant
                sq <= 64,
                self.wf(),
                other.wf(),
                forall|i: int| 0 <= i < sq ==> self@[i] == other@[i],
            decreases 64 - sq,
        {
            if self.data[sq] != other.data[sq] {
                proof {
                    lemma_encode_decode(self.data@[sq as int]);
                    lemma_encode_decode(other.data@[sq as int]);
                    assert(self@[sq as int] != other@[sq as int]);
                }
                return false;
            }
            sq += 1;
        }
        assert(self@ =~= other@);
        true
    }
}

impl PartialEqSpecImpl for PieceLocations {
    open spec fn obeys_eq_spec() -> bool {
        true
    }

    open spec fn eq_spec(&self, other: &PieceLocations) -> bool {
        self@ == other@
    }
}

/// A square that a piece was placed on holds that piece, and every other
/// square is as it was.
pub proof fn lemma_place_then_query(
    squares: Seq<Occupant>,
    sq: int,
    other: int,
    player: Player,
    piece: PieceType,
)
    requires
        0 <= sq < squares.len(),
        0 <= other < squares.len(),
    ensures
        squares.update(sq, Some((player, piece)))[sq] == Some((player, piece)),
        other != sq ==> squares.update(sq, Some((player, piece)))[other] == squares[other],
{
}

/// A square that was emptied is empty, whatever stood on it, and emptying
/// it again changes nothing.
pub proof fn lemma_remove_then_query(squares: Seq<Occupant>, sq: int)
    requires
        0 <= sq < squares.len(),
    ensures
        squares.update(sq, None)[sq].is_none(),
        squares.update(sq, None).update(sq, None) == squares.update(sq, None),
{
    assert(squares.update(sq, None).update(sq, None) =~= squares.update(sq, None));
}

/// Two tables that describe the same position are the same table, however
/// each was arrived at.
pub proof fn lemma_same_position_same_table(a: PieceLocations, b: PieceLocations)
    requires
        a.wf(),
        b.wf(),
        a@ == b@,
    ensures
        a == b,
{
    assert forall|i: int| 0 <= i < 64 implies a.data[i] == b.data[i] by {
        lemma_encode_decode(a.data@[i]);
        lemma_encode_decode(b.data@[i]);
        assert(a@[i] == b@[i]);
    }
    assert(a.data =~= b.data);
}

} // verus!
