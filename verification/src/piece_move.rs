//! Moves packed into sixteen bits.

use vstd::prelude::*;
use vstd::string::StringExecFns;
use crate::types::{square_name, SQ};

verus! {

/// Flag of a quiet move.
pub const FLAG_QUIET: u16 = 0;

/// Flag of a pawn's double push.
pub const FLAG_DOUBLE_PAWN: u16 = 1;

/// Flag of castling on the king's side.
pub const FLAG_KING_CASTLE: u16 = 2;

/// Flag of castling on the queen's side.
pub const FLAG_QUEEN_CASTLE: u16 = 3;

/// Flag of a capture.
pub const FLAG_CAPTURE: u16 = 4;

/// Flag of a capture en passant.
pub const FLAG_EP_CAPTURE: u16 = 5;

/// Flag of a promotion to a knight; bishop, rook and queen follow.
pub const FLAG_PROMO_N: u16 = 8;

/// Flag of a capturing promotion to a knight; bishop, rook and queen follow.
pub const FLAG_PROMO_CAP_N: u16 = 12;

/// The source square index held in a packed move.
pub open spec fn raw_src(raw: u16) -> int {
    raw as int % 64
}

/// The destination square index held in a packed move.
pub open spec fn raw_dest(raw: u16) -> int {
    (raw as int / 64) % 64
}

/// The four flag bits held in a packed move.
pub open spec fn raw_flags(raw: u16) -> int {
    raw as int / 4096
}

/// The letter appended to a promotion, by flag.
pub open spec fn promo_suffix(flags: int) -> Seq<char> {
    if flags == 8 || flags == 12 {
        seq!['n']
    } else if flags == 9 || flags == 13 {
        seq!['b']
    } else if flags == 10 || flags == 14 {
        seq!['r']
    } else if flags == 11 || flags == 15 {
        seq!['q']
    } else {
        Seq::<char>::empty()
    }
}

/// The text of a packed move: four zeros for the null move, else the names
/// of source and destination and, for a promotion, the piece letter.
pub open spec fn move_text(raw: u16) -> Seq<char> {
    if raw == 0 {
        seq!['0', '0', '0', '0']
    } else {
        square_name(raw_src(raw)) + square_name(raw_dest(raw)) + promo_suffix(raw_flags(raw))
    }
}

/// A move: source square in bits 0 to 5, destination in bits 6 to 11, and
/// four flag bits on top. The value zero is the null move.
#[derive(Clone, Copy, PartialEq, Eq, Structural, Debug)]
pub struct BitMove {
    data: u16,
}

impl BitMove {
    /// The packed sixteen bits.
    pub closed spec fn raw(self) -> u16 {
        self.data
    }

    /// The source square.
    pub open spec fn src(self) -> SQ {
        SQ(raw_src(self.raw()) as u8)
    }

    /// The destination square.
    pub open spec fn dest(self) -> SQ {
        SQ(raw_dest(self.raw()) as u8)
    }

    /// The flag bits.
    pub open spec fn flags(self) -> int {
        raw_flags(self.raw())
    }

    /// Whether this is the null move.
    pub open spec fn null_move(self) -> bool {
        self.raw() == 0
    }

    /// The null move as a mathematical value.
    pub closed spec fn spec_null() -> BitMove {
        BitMove { data: 0 }
    }

    /// The move itself, or the null move where there is none.
    pub open spec fn or_null(m: Option<BitMove>) -> BitMove {
        match m {
            Some(found) => found,
            None => BitMove::spec_null(),
        }
    }

    /// Whether the move captures: flag bit 2 is set.
    pub open spec fn capture(self) -> bool {
        (self.flags() / 4) % 2 == 1
    }

    /// Whether the move castles, on either side.
    pub open spec fn castle(self) -> bool {
        self.flags() == 2 || self.flags() == 3
    }

    /// Whether the move is a pawn's double push.
    pub open spec fn double_push(self) -> bool {
        self.flags() == 1
    }

    /// Whether the move promotes: flag bit 3 is set.
    pub open spec fn promo(self) -> bool {
        self.flags() >= 8
    }

    /// The null move is the one move whose packed bits are zero.
    pub proof fn lemma_null(m: BitMove)
        ensures
            BitMove::spec_null().null_move(),
            m.null_move() <==> m == BitMove::spec_null(),
    {
    }

    /// A move from its packed bits.
    pub fn new(input: u16) -> (m: BitMove)
        ensures
            m.raw() == input,
    {
        BitMove { data: input }
    }

    /// A move from its flag bits, source and destination.
    pub fn make(flag_bits: u16, src: SQ, dest: SQ) -> (m: BitMove)
        requires
            flag_bits < 16,
            src.is_okay(),
            dest.is_okay(),
        ensures
            m.raw() == flag_bits * 4096 + dest.0 * 64 + src.0,
            m.flags() == flag_bits,
            m.src() == src,
            m.dest() == dest,
    {
        BitMove { data: flag_bits * 4096 + (dest.0 as u16) * 64 + (src.0 as u16) }
    }

    /// The null move.
    pub fn null() -> (m: BitMove)
        ensures
            m == BitMove::spec_null(),
            m.null_move(),
    {
        BitMove { data: 0 }
    }

    /// Returns whether this is the null move.
    pub fn is_null(self) -> (b: bool)
        ensures
            b == self.null_move(),
            b == (self == BitMove::spec_null()),
    {
        self.data == 0
    }

    /// Returns the packed sixteen bits.
    pub fn get_raw(self) -> (r: u16)
        ensures
            r == self.raw(),
    {
        self.data
    }

    /// Returns the source square.
    pub fn get_src(self) -> (sq: SQ)
        ensures
            sq == self.src(),
            sq.is_okay(),
    {
        SQ((self.data % 64) as u8)
    }

    /// Returns the destination square.
    pub fn get_dest(self) -> (sq: SQ)
        ensures
            sq == self.dest(),
            sq.is_okay(),
    {
        SQ(((self.data / 64) % 64) as u8)
    }

    /// Returns whether the move captures.
    pub fn is_capture(self) -> (b: bool)
        ensures
            b == self.capture(),
    {
        ((self.data / 4096) / 4) % 2 == 1
    }

    /// Returns whether the move castles.
    pub fn is_castle(self) -> (b: bool)
        ensures
            b == self.castle(),
    {
        let f = self.data / 4096;
        f == 2 || f == 3
    }

    /// Returns whether the move is a pawn's double push and, if it is, the
    /// index of the destination square (zero otherwise).
    pub fn is_double_push(self) -> (r: (bool, u8))
        ensures
            r.0 == self.double_push(),
            r.1 == if self.double_push() {
                self.dest().0
            } else {
                0
            },
    {
        if self.data / 4096 == 1 {
            (true, ((self.data / 64) % 64) as u8)
        } else {
            (false, 0)
        }
    }

    /// Returns whether the move promotes.
    pub fn is_promo(self) -> (b: bool)
        ensures
            b == self.promo(),
    {
        self.data / 4096 >= 8
    }

    /// Returns the move in long algebraic form.
    pub fn stringify(self) -> (s: String)
        ensures
            s@ == move_text(self.raw()),
    {
        if self.data == 0 {
            proof {
                reveal_strlit("0000");
            }
            let s = String::from_str("0000");
            assert(s@ =~= move_text(self.raw()));
            return s;
        }
        let f = self.data / 4096;
        proof {
            reveal_strlit("n");
            reveal_strlit("b");
            reveal_strlit("r");
            reveal_strlit("q");
            reveal_strlit("");
        }
        let suffix = if f == 8 || f == 12 {
            "n"
        } else if f == 9 || f == 13 {
            "b"
        } else if f == 10 || f == 14 {
            "r"
        } else if f == 11 || f == 15 {
            "q"
        } else {
            ""
        };
        assert(suffix@ =~= promo_suffix(f as int));
        let mut s = self.get_src().to_string();
        let d = self.get_dest().to_string();
        s.append(d.as_str());
        s.append(suffix);
        s
    }
}

} // verus!
