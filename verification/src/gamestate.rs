//! The reversible slice of the game state: the most recent capture, the
//! en-passant target square, and the four castling rights, together with the
//! parsers for the castling and en-passant fields of a position descriptor.

use crate::piece::{Piece, PieceColor};
use vstd::prelude::*;
use vstd::string::StrSliceExecFns;

verus! {

/// The reversible part of a position. A copy is pushed before every
/// `make_move` and popped by `unmake_move`.
#[derive(Copy, Clone, Debug)]
pub struct Gamestate {
    /// The piece captured by the most recent move, en-passant included.
    pub last_piece_captured: Option<Piece>,
    /// The square a capturing pawn would land on, set only when the previous
    /// move was a two-square pawn push.
    pub enpassant_square: Option<u64>,
    /// Bit 0: White kingside, bit 1: White queenside, bit 2: Black kingside,
    /// bit 3: Black queenside.
    pub castling_rights: u8,
}

/// Folds a castling-rights field into its bit set. `None` on an unknown or
/// repeated character; a `-` ends the field.
pub open spec fn spec_castling_bits(s: Seq<char>, acc: u8) -> Option<u8>
    decreases s.len(),
{
    if s.len() == 0 {
        Some(acc)
    } else if s[0] == '-' {
        Some(acc)
    } else if s[0] == 'K' {
        if acc & 1 != 0 {
            None
        } else {
            spec_castling_bits(s.skip(1), acc | 1)
        }
    } else if s[0] == 'Q' {
        if acc & 2 != 0 {
            None
        } else {
            spec_castling_bits(s.skip(1), acc | 2)
        }
    } else if s[0] == 'k' {
        if acc & 4 != 0 {
            None
        } else {
            spec_castling_bits(s.skip(1), acc | 4)
        }
    } else if s[0] == 'q' {
        if acc & 8 != 0 {
            None
        } else {
            spec_castling_bits(s.skip(1), acc | 8)
        }
    } else {
        None
    }
}

/// An algebraic square name (`a1` = 0 through `h8` = 63), or `None` when the
/// text is not one.
pub open spec fn spec_square_name(s: Seq<char>) -> Option<u64> {
    if s.len() == 2 && 'a' <= s[0] && s[0] <= 'h' && '1' <= s[1] && s[1] <= '8' {
        Some(((s[0] as int - 'a' as int) + 8 * (s[1] as int - '1' as int)) as u64)
    } else {
        None
    }
}

/// The en-passant field: `-` means no target, otherwise a square name.
/// `None` when the field is malformed.
pub open spec fn spec_enpassant_field(s: Seq<char>) -> Option<Option<u64>> {
    if s.len() == 1 && s[0] == '-' {
        Some(None)
    } else {
        match spec_square_name(s) {
            Some(sq) => Some(Some(sq)),
            None => None,
        }
    }
}

/// Reads an algebraic square name such as `e3`; `None` when malformed.
pub fn str_to_square(name: &str) -> (r: Option<u64>)
    ensures
        r == spec_square_name(name@),
{
    if name.unicode_len() != 2 {
        return None;
    }
    let c0 = name.get_char(0);
    let c1 = name.get_char(1);
    if 'a' <= c0 && c0 <= 'h' && '1' <= c1 && c1 <= '8' {
        let file = c0 as u64 - 'a' as u64;
        let rank = c1 as u64 - '1' as u64;
        Some(file + 8 * rank)
    } else {
        None
    }
}

impl Gamestate {
    /// Builds the initial reversible state from the castling-rights and
    /// en-passant fields of a position descriptor. `None` exactly when one of
    /// the two fields is malformed.
    pub fn new(castling_rights_str: &str, enpassant_square_str: &str) -> (r: Option<Gamestate>)
        ensures
            r is Some <==> (spec_castling_bits(castling_rights_str@, 0) is Some
                && spec_enpassant_field(enpassant_square_str@) is Some),
            r matches Some(g) ==> {
                &&& Some(g.castling_rights) == spec_castling_bits(castling_rights_str@, 0)
                &&& Some(g.enpassant_square) == spec_enpassant_field(enpassant_square_str@)
                &&& g.last_piece_captured is None
            },
    {
        let mut castling_rights: u8 = 0;
        let n = castling_rights_str.unicode_len();
        let mut i: usize = 0;
        let mut done = false;
        proof {
            assert(castling_rights_str@.skip(0) =~= castling_rights_str@);
        }
        while i < n && !done
            invariant
                i <= n,
                n == castling_rights_str@.len(),
                spec_castling_bits(castling_rights_str@, 0) == (if done {
                    Some(castling_rights)
                } else {
                    spec_castling_bits(castling_rights_str@.skip(i as int), castling_rights)
                }),
            decreases n - i + (if done {
                0int
            } else {
                1int
            }),
        {
            let c = castling_rights_str.get_char(i);
            proof {
                assert(castling_rights_str@.skip(i as int)[0] == castling_rights_str@[i as int]);
                assert(castling_rights_str@.skip(i as int).skip(1) =~= castling_rights_str@.skip(
                    i as int + 1,
                ));
            }
            match c {
                'K' => {
                    if castling_rights & 1 != 0 {
                        return None;
                    }
                    castling_rights |= 1;
                },
                'Q' => {
                    if castling_rights & 2 != 0 {
                        return None;
                    }
                    castling_rights |= 2;
                },
                'k' => {
                    if castling_rights & 4 != 0 {
                        return None;
                    }
                    castling_rights |= 4;
                },
                'q' => {
                    if castling_rights & 8 != 0 {
                        return None;
                    }
                    castling_rights |= 8;
                },
                '-' => {
                    done = true;
                },
                _ => {
                    return None;
                },
            };
            i += 1;
        }
        let enpassant_square = if enpassant_square_str.unicode_len() == 1
            && enpassant_square_str.get_char(0) == '-' {
            None
        } else {
            match str_to_square(enpassant_square_str) {
                Some(sq) => Some(sq),
                None => {
                    return None;
                },
            }
        };
        Some(Gamestate { last_piece_captured: None, enpassant_square, castling_rights })
    }

    #[inline]
    pub fn get_last_piece_captured(self) -> (r: Option<Piece>)
        ensures
            r == self.last_piece_captured,
    {
        self.last_piece_captured
    }

    #[inline]
    pub fn get_enpassant_square(self) -> (r: Option<u64>)
        ensures
            r == self.enpassant_square,
    {
        self.enpassant_square
    }

    /// Kingside castling right of `color_to_move`, as a spec-level bit test.
    pub open spec fn spec_can_castle_kingside(self, color_to_move: PieceColor) -> bool {
        match color_to_move {
            PieceColor::White => self.castling_rights & 1 != 0,
            PieceColor::Black => self.castling_rights & 4 != 0,
        }
    }

    /// Queenside castling right of `color_to_move`.
    pub open spec fn spec_can_castle_queenside(self, color_to_move: PieceColor) -> bool {
        match color_to_move {
            PieceColor::White => self.castling_rights & 2 != 0,
            PieceColor::Black => self.castling_rights & 8 != 0,
        }
    }

    #[inline]
    pub fn can_black_castle_queenside(self) -> (r: bool)
        ensures
            r == self.spec_can_castle_queenside(PieceColor::Black),
    {
        self.castling_rights & 8 != 0
    }

    #[inline]
    pub fn can_black_castle_kingside(self) -> (r: bool)
        ensures
            r == self.spec_can_castle_kingside(PieceColor::Black),
    {
        self.castling_rights & 4 != 0
    }

    #[inline]
    pub fn can_white_castle_queenside(self) -> (r: bool)
        ensures
            r == self.spec_can_castle_queenside(PieceColor::White),
    {
        self.castling_rights & 2 != 0
    }

    #[inline]
    pub fn can_white_castle_kingside(self) -> (r: bool)
        ensures
            r == self.spec_can_castle_kingside(PieceColor::White),
    {
        self.castling_rights & 1 != 0
    }

    #[inline]
    pub fn can_castle_kingside(self, color_to_move: PieceColor) -> (r: bool)
        ensures
            r == self.spec_can_castle_kingside(color_to_move),
    {
        match color_to_move {
            PieceColor::White => self.can_white_castle_kingside(),
            PieceColor::Black => self.can_black_castle_kingside(),
        }
    }

    #[inline]
    pub fn can_castle_queenside(self, color_to_move: PieceColor) -> (r: bool)
        ensures
            r == self.spec_can_castle_queenside(color_to_move),
    {
        match color_to_move {
            PieceColor::White => self.can_white_castle_queenside(),
            PieceColor::Black => self.can_black_castle_queenside(),
        }
    }

    /// The state after the kingside right of `color_to_move` is withdrawn.
    pub open spec fn spec_remove_castle_kingside(self, color_to_move: PieceColor) -> Gamestate {
        match color_to_move {
            PieceColor::White => Gamestate { castling_rights: self.castling_rights & !1, ..self },
            PieceColor::Black => Gamestate { castling_rights: self.castling_rights & !4, ..self },
        }
    }

    /// The state after the queenside right of `color_to_move` is withdrawn.
    pub open spec fn spec_remove_castle_queenside(self, color_to_move: PieceColor) -> Gamestate {
        match color_to_move {
            PieceColor::White => Gamestate { castling_rights: self.castling_rights & !2, ..self },
            PieceColor::Black => Gamestate { castling_rights: self.castling_rights & !8, ..self },
        }
    }

    #[inline]
    pub fn remove_castle_kingside(&mut self, color_to_move: PieceColor)
        ensures
            *final(self) == old(self).spec_remove_castle_kingside(color_to_move),
    {
        match color_to_move {
            PieceColor::White => self.castling_rights &= !1,
            PieceColor::Black => self.castling_rights &= !4,
        }
    }

    #[inline]
    pub fn remove_castle_queenside(&mut self, color_to_move: PieceColor)
        ensures
            *final(self) == old(self).spec_remove_castle_queenside(color_to_move),
    {
        match color_to_move {
            PieceColor::White => self.castling_rights &= !2,
            PieceColor::Black => self.castling_rights &= !8,
        }
    }
}

} // verus!
