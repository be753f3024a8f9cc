//! Players, piece types and squares.

use vstd::prelude::*;
use vstd::string::StringExecFns;

verus! {

/// One of the two sides.
#[derive(Clone, Copy, PartialEq, Eq, Structural, Debug)]
pub enum Player {
    White,
    Black,
}

impl Player {
    /// Position of the player in per-player tables: White is 0, Black is 1.
    pub open spec fn index(self) -> int {
        match self {
            Player::White => 0,
            Player::Black => 1,
        }
    }

    /// The opposing side.
    pub open spec fn opponent(self) -> Player {
        match self {
            Player::White => Player::Black,
            Player::Black => Player::White,
        }
    }

    /// Returns the opposing side.
    pub fn other_player(self) -> (p: Player)
        ensures
            p == self.opponent(),
    {
        match self {
            Player::White => Player::Black,
            Player::Black => Player::White,
        }
    }
}

/// The six kinds of chess piece.
#[derive(Clone, Copy, PartialEq, Eq, Structural, Debug)]
pub enum PieceType {
    P,
    N,
    B,
    R,
    Q,
    K,
}

impl PieceType {
    /// Position of the piece type in per-piece tables, pawn first, king last.
    pub open spec fn index(self) -> int {
        match self {
            PieceType::P => 0,
            PieceType::N => 1,
            PieceType::B => 2,
            PieceType::R => 3,
            PieceType::Q => 4,
            PieceType::K => 5,
        }
    }

    /// Conventional exchange value used for ordering captures.
    pub open spec fn spec_value(self) -> int {
        match self {
            PieceType::P => 1,
            PieceType::N => 3,
            PieceType::B => 3,
            PieceType::R => 5,
            PieceType::Q => 8,
            PieceType::K => 0,
        }
    }

    /// Returns the exchange value of the piece.
    pub fn value(self) -> (v: i8)
        ensures
            v == self.spec_value(),
    {
        match self {
            PieceType::P => 1,
            PieceType::N => 3,
            PieceType::B => 3,
            PieceType::R => 5,
            PieceType::Q => 8,
            PieceType::K => 0,
        }
    }
}

/// What stands on a square: nothing, or a piece of one player.
pub type Occupant = Option<(Player, PieceType)>;

/// Letter of a file, `a` for file 0 up to `h` for file 7.
pub open spec fn file_char(file: int) -> char {
    if file == 0 {
        'a'
    } else if file == 1 {
        'b'
    } else if file == 2 {
        'c'
    } else if file == 3 {
        'd'
    } else if file == 4 {
        'e'
    } else if file == 5 {
        'f'
    } else if file == 6 {
        'g'
    } else {
        'h'
    }
}

/// Digit of a rank, `1` for rank 0 up to `8` for rank 7.
pub open spec fn rank_char(rank: int) -> char {
    if rank == 0 {
        '1'
    } else if rank == 1 {
        '2'
    } else if rank == 2 {
        '3'
    } else if rank == 3 {
        '4'
    } else if rank == 4 {
        '5'
    } else if rank == 5 {
        '6'
    } else if rank == 6 {
        '7'
    } else {
        '8'
    }
}

/// Algebraic name of a square index: file letter then rank digit for the 64
/// squares of the board, and a lone dash for any index beyond them.
pub open spec fn square_name(sq: int) -> Seq<char> {
    if 0 <= sq < 64 {
        seq![file_char(sq % 8), rank_char(sq / 8)]
    } else {
        seq!['-']
    }
}

fn file_str(file: u8) -> (s: &'static str)
    requires
        file < 8,
    ensures
        s@ == seq![file_char(file as int)],
{
    proof {
        reveal_strlit("a");
        reveal_strlit("b");
        reveal_strlit("c");
        reveal_strlit("d");
        reveal_strlit("e");
        reveal_strlit("f");
        reveal_strlit("g");
        reveal_strlit("h");
    }
    let s = if file == 0 {
        "a"
    } else if file == 1 {
        "b"
    } else if file == 2 {
        "c"
    } else if file == 3 {
        "d"
    } else if file == 4 {
        "e"
    } else if file == 5 {
        "f"
    } else if file == 6 {
        "g"
    } else {
        "h"
    };
    assert(s@ =~= seq![file_char(file as int)]);
    s
}

fn rank_str(rank: u8) -> (s: &'static str)
    requires
        rank < 8,
    ensures
        s@ == seq![rank_char(rank as int)],
{
    proof {
        reveal_strlit("1");
        reveal_strlit("2");
        reveal_strlit("3");
        reveal_strlit("4");
        reveal_strlit("5");
        reveal_strlit("6");
        reveal_strlit("7");
        reveal_strlit("8");
    }
    let s = if rank == 0 {
        "1"
    } else if rank == 1 {
        "2"
    } else if rank == 2 {
        "3"
    } else if rank == 3 {
        "4"
    } else if rank == 4 {
        "5"
    } else if rank == 5 {
        "6"
    } else if rank == 6 {
        "7"
    } else {
        "8"
    };
    assert(s@ =~= seq![rank_char(rank as int)]);
    s
}

/// A square of the board by index: `a1` is 0, `h1` is 7, `h8` is 63.
#[derive(Clone, Copy, PartialEq, Eq, Structural, Debug)]
pub struct SQ(pub u8);

impl SQ {
    /// Whether the index names one of the 64 squares.
    pub open spec fn spec_is_okay(self) -> bool {
        self.0 < 64
    }

    /// Returns whether the index names one of the 64 squares.
    #[verifier::when_used_as_spec(spec_is_okay)]
    pub fn is_okay(self) -> (b: bool)
        ensures
            b == self.spec_is_okay(),
    {
        self.0 < 64
    }

    /// Returns the algebraic name of the square.
    pub fn to_string(self) -> (s: String)
        ensures
            s@ == square_name(self.0 as int),
    {
        if self.0 < 64 {
            let s = String::from_str(file_str(self.0 % 8)).concat(rank_str(self.0 / 8));
            assert(s@ =~= square_name(self.0 as int));
            s
        } else {
            proof {
                reveal_strlit("-");
            }
            let s = String::from_str("-");
            assert(s@ =~= square_name(self.0 as int));
            s
        }
    }
}

} // verus!
