//! Piece types, colors, and the (type, color) pair that occupies a square.

use vstd::prelude::*;

verus! {

/// The six kinds of chessmen. The numeric ordering (`Rook` = 0 through
/// `King` = 5) is stable: it indexes the per-type bitboard arrays and is
/// written into move encodings as the promotion target.
#[derive(Copy, Clone, Debug, PartialEq, Eq, Structural)]
pub enum PieceType {
    Rook,
    Bishop,
    Queen,
    Knight,
    Pawn,
    King,
}

impl PieceType {
    /// The numeric ordinal of this piece type, used as an array index.
    pub open spec fn ord(self) -> int {
        match self {
            PieceType::Rook => 0,
            PieceType::Bishop => 1,
            PieceType::Queen => 2,
            PieceType::Knight => 3,
            PieceType::Pawn => 4,
            PieceType::King => 5,
        }
    }

    /// Array index of this piece type.
    pub fn idx(self) -> (r: usize)
        ensures
            r == self.ord(),
    {
        match self {
            PieceType::Rook => 0,
            PieceType::Bishop => 1,
            PieceType::Queen => 2,
            PieceType::Knight => 3,
            PieceType::Pawn => 4,
            PieceType::King => 5,
        }
    }

    /// The inverse of `ord`.
    pub open spec fn spec_from_index(value: int) -> PieceType {
        if value == 0 {
            PieceType::Rook
        } else if value == 1 {
            PieceType::Bishop
        } else if value == 2 {
            PieceType::Queen
        } else if value == 3 {
            PieceType::Knight
        } else if value == 4 {
            PieceType::Pawn
        } else {
            PieceType::King
        }
    }

    /// Decodes a numeric ordinal back into a piece type.
    pub fn from_index(value: u64) -> (r: PieceType)
        requires
            value <= 5,
        ensures
            r == PieceType::spec_from_index(value as int),
            r.ord() == value,
    {
        if value == 0 {
            PieceType::Rook
        } else if value == 1 {
            PieceType::Bishop
        } else if value == 2 {
            PieceType::Queen
        } else if value == 3 {
            PieceType::Knight
        } else if value == 4 {
            PieceType::Pawn
        } else {
            PieceType::King
        }
    }
}

/// The two sides. `White` = 0, `Black` = 1 when used as an array index.
#[derive(Copy, Clone, Debug, PartialEq, Eq, Structural)]
pub enum PieceColor {
    White,
    Black,
}

impl PieceColor {
    /// The numeric ordinal of this color, used as an array index.
    pub open spec fn ord(self) -> int {
        match self {
            PieceColor::White => 0,
            PieceColor::Black => 1,
        }
    }

    /// Array index of this color.
    pub fn idx(self) -> (r: usize)
        ensures
            r == self.ord(),
    {
        match self {
            PieceColor::White => 0,
            PieceColor::Black => 1,
        }
    }

    /// The other side.
    pub open spec fn spec_opposite(self) -> PieceColor {
        match self {
            PieceColor::White => PieceColor::Black,
            PieceColor::Black => PieceColor::White,
        }
    }

    /// Logical negation of a color: the side that is not `self`.
    pub fn opposite(self) -> (r: PieceColor)
        ensures
            r == self.spec_opposite(),
    {
        match self {
            PieceColor::White => PieceColor::Black,
            PieceColor::Black => PieceColor::White,
        }
    }
}

/// A chessman: a piece type together with its color. Equality is structural.
#[derive(Copy, Clone, Debug, PartialEq, Eq, Structural)]
pub struct Piece {
    pub ptype: PieceType,
    pub color: PieceColor,
}

impl Piece {
    /// The type component.
    pub open spec fn spec_type(self) -> PieceType {
        self.ptype
    }

    /// The color component.
    pub open spec fn spec_color(self) -> PieceColor {
        self.color
    }

    /// Whether this piece is a long-range slider (rook, bishop, or queen).
    pub open spec fn spec_is_slider(self) -> bool {
        self.ptype == PieceType::Rook || self.ptype == PieceType::Bishop || self.ptype
            == PieceType::Queen
    }

    pub fn new(ptype: PieceType, color: PieceColor) -> (r: Piece)
        ensures
            r.spec_type() == ptype,
            r.spec_color() == color,
            r == (Piece { ptype, color }),
    {
        Piece { ptype, color }
    }

    pub fn get_type(self) -> (r: PieceType)
        ensures
            r == self.spec_type(),
    {
        self.ptype
    }

    pub fn get_color(self) -> (r: PieceColor)
        ensures
            r == self.spec_color(),
    {
        self.color
    }

    #[inline]
    pub fn is_slider(self) -> (r: bool)
        ensures
            r == self.spec_is_slider(),
    {
        matches!(self.ptype, PieceType::Bishop | PieceType::Rook | PieceType::Queen)
    }
}

} // verus!
