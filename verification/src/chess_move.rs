//! The 16-bit move encoding.
//!
//! Bits 0-5 hold the origin square, bits 6-11 the destination. Bit 12 is the
//! promotion flag; while it is set, bits 13-15 hold the promotion piece-type
//! ordinal. While it is clear, bits 13, 14 and 15 are the en-passant,
//! castle-kingside and castle-queenside flags respectively, so the three
//! special-move flags are mutually exclusive with promotion by construction.
//!
//! The moved piece rides along in a separate field so that `make_move` and
//! `unmake_move` never have to re-query the board.

use crate::piece::{Piece, PieceType};
use vstd::prelude::*;

verus! {

/// A chess move: packed origin/destination/flags plus the moving piece.
#[derive(Clone, Copy, Debug)]
pub struct Move {
    pub move_code: u16,
    pub moved_piece: Piece,
}

/// The packed code of a plain move of `piece` from `start` to `land`.
pub open spec fn spec_new_move(start: u64, land: u64, piece: Piece) -> Move {
    Move { move_code: ((land << 6) + start) as u16, moved_piece: piece }
}

impl Move {
    /// This move with the en-passant flag added.
    pub open spec fn spec_with_enpassant(self) -> Move {
        Move { move_code: (self.move_code + 8192) as u16, ..self }
    }

    /// This move with the kingside-castle flag added.
    pub open spec fn spec_with_castle_kingside(self) -> Move {
        Move { move_code: (self.move_code + 16384) as u16, ..self }
    }

    /// This move with the queenside-castle flag added.
    pub open spec fn spec_with_castle_queenside(self) -> Move {
        Move { move_code: (self.move_code + 32768) as u16, ..self }
    }

    /// This move turned into a promotion to `pt`.
    pub open spec fn spec_with_promotion(self, pt: PieceType) -> Move {
        Move {
            move_code: (self.move_code + (4096 + ((pt.ord() as u16) << 13))) as u16,
            ..self
        }
    }

    /// Origin square, 0..64.
    pub open spec fn spec_from(self) -> u64 {
        (self.move_code & 0x3f) as u64
    }

    /// Destination square, 0..64.
    pub open spec fn spec_to(self) -> u64 {
        ((self.move_code >> 6) & 0x3f) as u64
    }

    /// Whether the promotion flag (bit 12) is set.
    pub open spec fn spec_is_promotion(self) -> bool {
        (self.move_code >> 12) & 1 == 1
    }

    /// The promotion piece-type ordinal held in bits 13-15.
    pub open spec fn spec_promotion_ord(self) -> int {
        ((self.move_code >> 13) & 7) as int
    }

    /// Whether this is an en-passant capture (bit 13, promotion clear).
    pub open spec fn spec_is_enpassant(self) -> bool {
        !self.spec_is_promotion() && (self.move_code >> 13) & 1 == 1
    }

    /// Whether this is a kingside castle (bit 14, promotion clear).
    pub open spec fn spec_is_castle_kingside(self) -> bool {
        !self.spec_is_promotion() && (self.move_code >> 14) & 1 == 1
    }

    /// Whether this is a queenside castle (bit 15, promotion clear).
    pub open spec fn spec_is_castle_queenside(self) -> bool {
        !self.spec_is_promotion() && (self.move_code >> 15) & 1 == 1
    }

    /// No flag bit is set: a plain origin-destination move.
    pub open spec fn spec_plain(self) -> bool {
        self.move_code >> 12 == 0
    }

    /// Move identity: origin, destination, and promotion target when either
    /// side promotes. The special-move flags are not part of identity, so a
    /// flag-less probe built by a driver can match a generated move.
    pub open spec fn spec_same_move(self, other: Move) -> bool {
        (self.move_code & 8191) == (other.move_code & 8191) && (!self.spec_is_promotion()
            || self.spec_promotion_ord() == other.spec_promotion_ord())
    }

    /// Builds a plain move of `piece` from `start_square` to `land_square`.
    #[inline]
    pub fn new(start_square: u64, land_square: u64, piece: Piece) -> (r: Move)
        requires
            start_square < 64,
            land_square < 64,
        ensures
            r == spec_new_move(start_square, land_square, piece),
            r.spec_from() == start_square,
            r.spec_to() == land_square,
            r.moved_piece == piece,
            r.spec_plain(),
    {
        proof {
            let l = land_square;
            let s = start_square;
            assert(l < 64 && s < 64 ==> {
                let c = ((l << 6) + s) as u16;
                (l << 6) + s < 65536 && (c & 0x3f) as u64 == s && ((c >> 6) & 0x3f) as u64 == l && c
                    >> 12 == 0
            }) by (bit_vector);
        }
        let code = ((land_square << 6) + start_square) as u16;
        Move { move_code: code, moved_piece: piece }
    }

    #[inline]
    pub fn get_from(self) -> (r: u64)
        ensures
            r == self.spec_from(),
            r < 64,
    {
        proof {
            let c = self.move_code;
            assert(((c & 0x3f) as u64) < 64) by (bit_vector);
        }
        (self.move_code & 0x3f) as u64
    }

    #[inline]
    pub fn get_to(self) -> (r: u64)
        ensures
            r == self.spec_to(),
            r < 64,
    {
        proof {
            let c = self.move_code;
            assert((((c >> 6) & 0x3f) as u64) < 64) by (bit_vector);
        }
        ((self.move_code >> 6) & 0x3f) as u64
    }

    #[inline]
    pub fn get_moved_piece(self) -> (r: Piece)
        ensures
            r == self.moved_piece,
    {
        self.moved_piece
    }

    /// Marks this move as an en-passant capture.
    #[inline]
    pub fn add_enpassant(&mut self)
        requires
            old(self).spec_plain(),
        ensures
            *final(self) == old(self).spec_with_enpassant(),
            final(self).spec_from() == old(self).spec_from(),
            final(self).spec_to() == old(self).spec_to(),
            final(self).moved_piece == old(self).moved_piece,
            final(self).spec_is_enpassant(),
            !final(self).spec_is_promotion(),
            !final(self).spec_is_castle_kingside(),
            !final(self).spec_is_castle_queenside(),
    {
        proof {
            let c = self.move_code;
            assert(c >> 12 == 0 ==> {
                let d = (c + 8192) as u16;
                d & 0x3f == c & 0x3f && (d >> 6) & 0x3f == (c >> 6) & 0x3f && (d >> 12) & 1 == 0
                    && (d >> 13) & 1 == 1 && (d >> 14) & 1 == 0 && (d >> 15) & 1 == 0 && c + 8192
                    < 65536
            }) by (bit_vector);
        }
        self.move_code += 8192;
    }

    #[inline]
    pub fn is_enpassant(self) -> (r: bool)
        ensures
            r == self.spec_is_enpassant(),
    {
        !self.is_promotion() && (self.move_code >> 13) & 1 == 1
    }

    /// Marks this move as a kingside castle.
    #[inline]
    pub fn add_castle_kingside(&mut self)
        requires
            old(self).spec_plain(),
        ensures
            *final(self) == old(self).spec_with_castle_kingside(),
            final(self).spec_from() == old(self).spec_from(),
            final(self).spec_to() == old(self).spec_to(),
            final(self).moved_piece == old(self).moved_piece,
            final(self).spec_is_castle_kingside(),
            !final(self).spec_is_promotion(),
            !final(self).spec_is_enpassant(),
            !final(self).spec_is_castle_queenside(),
    {
        proof {
            let c = self.move_code;
            assert(c >> 12 == 0 ==> {
                let d = (c + 16384) as u16;
                d & 0x3f == c & 0x3f && (d >> 6) & 0x3f == (c >> 6) & 0x3f && (d >> 12) & 1 == 0
                    && (d >> 13) & 1 == 0 && (d >> 14) & 1 == 1 && (d >> 15) & 1 == 0 && c + 16384
                    < 65536
            }) by (bit_vector);
        }
        self.move_code += 16384;
    }

    #[inline]
    pub fn is_castle_kingside(self) -> (r: bool)
        ensures
            r == self.spec_is_castle_kingside(),
    {
        !self.is_promotion() && (self.move_code >> 14) & 1 == 1
    }

    /// Marks this move as a queenside castle.
    #[inline]
    pub fn add_castle_queenside(&mut self)
        requires
            old(self).spec_plain(),
        ensures
            *final(self) == old(self).spec_with_castle_queenside(),
            final(self).spec_from() == old(self).spec_from(),
            final(self).spec_to() == old(self).spec_to(),
            final(self).moved_piece == old(self).moved_piece,
            final(self).spec_is_castle_queenside(),
            !final(self).spec_is_promotion(),
            !final(self).spec_is_enpassant(),
            !final(self).spec_is_castle_kingside(),
    {
        proof {
            let c = self.move_code;
            assert(c >> 12 == 0 ==> {
                let d = (c + 32768) as u16;
                d & 0x3f == c & 0x3f && (d >> 6) & 0x3f == (c >> 6) & 0x3f && (d >> 12) & 1 == 0
                    && (d >> 13) & 1 == 0 && (d >> 14) & 1 == 0 && (d >> 15) & 1 == 1 && c + 32768
                    < 65536
            }) by (bit_vector);
        }
        self.move_code += 32768;
    }

    #[inline]
    pub fn is_castle_queenside(self) -> (r: bool)
        ensures
            r == self.spec_is_castle_queenside(),
    {
        !self.is_promotion() && (self.move_code >> 15) & 1 == 1
    }

    /// Turns this move into a promotion to `piece_to_promote_to`.
    #[inline]
    pub fn add_promotion(&mut self, piece_to_promote_to: PieceType)
        requires
            old(self).spec_plain(),
        ensures
            *final(self) == old(self).spec_with_promotion(piece_to_promote_to),
            final(self).spec_from() == old(self).spec_from(),
            final(self).spec_to() == old(self).spec_to(),
            final(self).moved_piece == old(self).moved_piece,
            final(self).spec_is_promotion(),
            final(self).spec_promotion_ord() == piece_to_promote_to.ord(),
            !final(self).spec_is_enpassant(),
            !final(self).spec_is_castle_kingside(),
            !final(self).spec_is_castle_queenside(),
    {
        let p = piece_to_promote_to.idx() as u16;
        proof {
            let c = self.move_code;
            assert(c >> 12 == 0 && p <= 5 ==> {
                let d = (c + (4096 + (p << 13))) as u16;
                d & 0x3f == c & 0x3f && (d >> 6) & 0x3f == (c >> 6) & 0x3f && (d >> 12) & 1 == 1
                    && (d >> 13) & 7 == p && c + (4096 + (p << 13)) < 65536 && 4096 + (p << 13)
                    < 65536
            }) by (bit_vector);
        }
        self.move_code += 4096 + (p << 13);
    }

    #[inline]
    pub fn is_promotion(self) -> (r: bool)
        ensures
            r == self.spec_is_promotion(),
    {
        (self.move_code >> 12) & 1 == 1
    }

    /// The raw promotion piece-type ordinal in bits 13-15, without any
    /// claim that the promotion flag is set.
    #[inline]
    pub fn promotion_ord(self) -> (r: u16)
        ensures
            r as int == self.spec_promotion_ord(),
    {
        (self.move_code >> 13) & 7
    }

    /// The piece type this move promotes to.
    #[inline]
    pub fn get_promotion_type(self) -> (r: PieceType)
        requires
            self.spec_promotion_ord() <= 5,
        ensures
            r == PieceType::spec_from_index(self.spec_promotion_ord()),
    {
        PieceType::from_index(((self.move_code >> 13) & 7) as u64)
    }
}

impl PartialEq for Move {
    /// Move identity: same origin and destination, and the same promotion
    /// target when either side is a promotion.
    fn eq(&self, other: &Self) -> (r: bool) {
        (self.move_code & 8191) == (other.move_code & 8191) && (!self.is_promotion() || ((
        self.move_code >> 13) & 7) == ((other.move_code >> 13) & 7))
    }
}

impl vstd::std_specs::cmp::PartialEqSpecImpl for Move {
    open spec fn obeys_eq_spec() -> bool {
        true
    }

    open spec fn eq_spec(&self, other: &Move) -> bool {
        self.spec_same_move(*other)
    }
}

} // verus!
