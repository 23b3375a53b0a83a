//! Per-square masks and precomputed-style attack sets.
//!
//! The classic engine keeps these in static tables built at start-up; here
//! each entry is computed on demand by a closed-form shift formula (or, for
//! `squares_between`, a short ray walk), and the spec function beside each
//! computation is its exact value.

use vstd::prelude::*;

verus! {

/// All squares except file a.
pub const NOT_A_FILE: u64 = 0xfefe_fefe_fefe_fefe;

/// All squares except file h.
pub const NOT_H_FILE: u64 = 0x7f7f_7f7f_7f7f_7f7f;

/// All squares except files a and b.
pub const NOT_AB_FILES: u64 = 0xfcfc_fcfc_fcfc_fcfc;

/// All squares except files g and h.
pub const NOT_GH_FILES: u64 = 0x3f3f_3f3f_3f3f_3f3f;

/// The a1-h8 main diagonal.
pub const MAIN_DIAGONAL: u64 = 0x8040_2010_0804_0201;

/// Ranks 1 and 8: the ranks a pawn promotes on.
pub const PROMOTION_RANKS: u64 = 0xff00_0000_0000_00ff;

/// Rank 4: the landing rank of a white double pawn push.
pub const RANK_4: u64 = 0x0000_0000_ff00_0000;

/// Rank 5: the landing rank of a black double pawn push.
pub const RANK_5: u64 = 0x0000_00ff_0000_0000;

/// The file through `sq`, excluding `sq` itself.
pub open spec fn spec_file_mask_ex(sq: u64) -> u64 {
    (0x0101_0101_0101_0101u64 << (sq % 8)) ^ (1u64 << sq)
}

/// The rank through `sq`, including `sq` itself.
pub open spec fn spec_rank_mask(sq: u64) -> u64 {
    0xffu64 << (8 * (sq / 8))
}

/// The a1-h8-direction diagonal through `sq`, including `sq`.
pub open spec fn spec_diagonal_mask(sq: u64) -> u64 {
    let r = sq / 8;
    let f = sq % 8;
    if r >= f {
        MAIN_DIAGONAL << ((8 * (r - f)) as u64)
    } else {
        MAIN_DIAGONAL >> ((8 * (f - r)) as u64)
    }
}

/// The a1-h8-direction diagonal through `sq`, excluding `sq` itself.
pub open spec fn spec_diagonal_mask_ex(sq: u64) -> u64 {
    spec_diagonal_mask(sq) ^ (1u64 << sq)
}

/// The a8-h1-direction antidiagonal through `sq`, including `sq`.
pub open spec fn spec_antidiag_mask(sq: u64) -> u64 {
    let r = sq / 8;
    let f = sq % 8;
    if r + f >= 7 {
        0x0102_0408_1020_4080u64 << ((8 * (r + f - 7)) as u64)
    } else {
        0x0102_0408_1020_4080u64 >> ((8 * (7 - r - f)) as u64)
    }
}

/// The a8-h1-direction antidiagonal through `sq`, excluding `sq` itself.
pub open spec fn spec_antidiag_mask_ex(sq: u64) -> u64 {
    spec_antidiag_mask(sq) ^ (1u64 << sq)
}

pub fn file_mask_ex(sq: u64) -> (r: u64)
    requires
        sq < 64,
    ensures
        r == spec_file_mask_ex(sq),
{
    (0x0101_0101_0101_0101u64 << (sq % 8)) ^ (1u64 << sq)
}

pub fn rank_mask(sq: u64) -> (r: u64)
    requires
        sq < 64,
    ensures
        r == spec_rank_mask(sq),
{
    0xffu64 << (8 * (sq / 8))
}

pub fn diagonal_mask_ex(sq: u64) -> (r: u64)
    requires
        sq < 64,
    ensures
        r == spec_diagonal_mask_ex(sq),
{
    let r = sq / 8;
    let f = sq % 8;
    let base = if r >= f {
        MAIN_DIAGONAL << (8 * (r - f))
    } else {
        MAIN_DIAGONAL >> (8 * (f - r))
    };
    base ^ (1u64 << sq)
}

pub fn antidiag_mask_ex(sq: u64) -> (r: u64)
    requires
        sq < 64,
    ensures
        r == spec_antidiag_mask_ex(sq),
{
    let r = sq / 8;
    let f = sq % 8;
    let base = if r + f >= 7 {
        0x0102_0408_1020_4080u64 << (8 * (r + f - 7))
    } else {
        0x0102_0408_1020_4080u64 >> (8 * (7 - r - f))
    };
    base ^ (1u64 << sq)
}

/// The knight's L-shaped targets from `sq`, clipped to the board.
pub open spec fn spec_knight_attack(sq: u64) -> u64 {
    let b = 1u64 << sq;
    (((b << 17) & NOT_A_FILE) | ((b << 15) & NOT_H_FILE) | ((b << 10) & NOT_AB_FILES) | ((b << 6)
        & NOT_GH_FILES) | ((b >> 17) & NOT_H_FILE) | ((b >> 15) & NOT_A_FILE) | ((b >> 10)
        & NOT_GH_FILES) | ((b >> 6) & NOT_AB_FILES))
}

pub fn knight_attack(sq: u64) -> (r: u64)
    requires
        sq < 64,
    ensures
        r == spec_knight_attack(sq),
{
    let b = 1u64 << sq;
    (((b << 17) & NOT_A_FILE) | ((b << 15) & NOT_H_FILE) | ((b << 10) & NOT_AB_FILES) | ((b << 6)
        & NOT_GH_FILES) | ((b >> 17) & NOT_H_FILE) | ((b >> 15) & NOT_A_FILE) | ((b >> 10)
        & NOT_GH_FILES) | ((b >> 6) & NOT_AB_FILES))
}

/// The king's one-step targets from `sq`, clipped to the board.
pub open spec fn spec_king_attack(sq: u64) -> u64 {
    let b = 1u64 << sq;
    ((b << 8) | (b >> 8) | (((b << 1) | (b << 9) | (b >> 7)) & NOT_A_FILE) | (((b >> 1) | (b >> 9)
        | (b << 7)) & NOT_H_FILE))
}

pub fn king_attack(sq: u64) -> (r: u64)
    requires
        sq < 64,
    ensures
        r == spec_king_attack(sq),
{
    let b = 1u64 << sq;
    ((b << 8) | (b >> 8) | (((b << 1) | (b << 9) | (b >> 7)) & NOT_A_FILE) | (((b >> 1) | (b >> 9)
        | (b << 7)) & NOT_H_FILE))
}

/// The step, in square indices, from `a` toward `b` along their common rank,
/// file, diagonal or antidiagonal; 0 when no common ray exists.
pub open spec fn spec_ray_step(a: u64, b: u64) -> int {
    let ra = a / 8;
    let fa = a % 8;
    let rb = b / 8;
    let fb = b % 8;
    if ra == rb {
        if b > a {
            1int
        } else {
            -1int
        }
    } else if fa == fb {
        if b > a {
            8int
        } else {
            -8int
        }
    } else if ra - fa == rb - fb {
        if b > a {
            9int
        } else {
            -9int
        }
    } else if ra + fa == rb + fb {
        if b > a {
            7int
        } else {
            -7int
        }
    } else {
        0int
    }
}

/// The squares visited walking from `cur` by `step` until `b`, the board
/// edge, or exhaustion of `fuel` is reached.
pub open spec fn spec_ray_walk(cur: int, b: int, step: int, fuel: nat) -> u64
    decreases fuel,
{
    if fuel == 0 || cur == b || cur < 0 || cur >= 64 {
        0
    } else {
        (1u64 << cur) | spec_ray_walk(cur + step, b, step, (fuel - 1) as nat)
    }
}

/// The squares strictly between `a` and `b` along a common rook or bishop
/// ray; empty when the two squares share no ray.
pub open spec fn spec_squares_between(a: u64, b: u64) -> u64 {
    if a == b {
        0u64
    } else {
        let step = spec_ray_step(a, b);
        if step == 0 {
            0u64
        } else {
            spec_ray_walk(a + step, b as int, step, 7)
        }
    }
}

/// Disjunction is associative; lets ray-walk accumulation be re-bracketed.
pub proof fn lemma_or_assoc(x: u64, y: u64, z: u64)
    by (bit_vector)
    ensures
        (x | y) | z == x | (y | z),
        x | 0 == x,
        0 | x == x,
{
}

pub fn squares_between(a: u64, b: u64) -> (r: u64)
    requires
        a < 64,
        b < 64,
    ensures
        r == spec_squares_between(a, b),
{
    if a == b {
        return 0;
    }
    let ra = (a / 8) as i64;
    let fa = (a % 8) as i64;
    let rb = (b / 8) as i64;
    let fb = (b % 8) as i64;
    let step: i64 = if ra == rb {
        if b > a {
            1
        } else {
            -1
        }
    } else if fa == fb {
        if b > a {
            8
        } else {
            -8
        }
    } else if ra - fa == rb - fb {
        if b > a {
            9
        } else {
            -9
        }
    } else if ra + fa == rb + fb {
        if b > a {
            7
        } else {
            -7
        }
    } else {
        0
    };
    if step == 0 {
        return 0;
    }
    let mut cur: i64 = a as i64 + step;
    let mut fuel: u64 = 7;
    let mut res: u64 = 0;
    proof {
        lemma_or_assoc(spec_ray_walk(cur as int, b as int, step as int, 7), 0, 0);
    }
    while fuel > 0 && cur != b as i64 && 0 <= cur && cur < 64
        invariant
            step == spec_ray_step(a, b),
            step != 0,
            -9 <= step <= 9,
            -9 <= cur <= 72,
            fuel <= 7,
            spec_squares_between(a, b) == res | spec_ray_walk(cur as int, b as int, step as int,
            fuel as nat),
        decreases fuel,
    {
        proof {
            lemma_or_assoc(res, 1u64 << cur, spec_ray_walk(cur + step, b as int, step as int, (fuel
                - 1) as nat));
        }
        res = res | (1u64 << (cur as u64));
        cur = cur + step;
        fuel = fuel - 1;
    }
    proof {
        lemma_or_assoc(res, 0, 0);
        assert(spec_ray_walk(cur as int, b as int, step as int, fuel as nat) == 0);
    }
    res
}

/// Kingside castling transit squares of `color`: must be both empty and
/// unattacked (f1, g1 for White; f8, g8 for Black).
pub open spec fn spec_castle_kingside_mask(color: crate::piece::PieceColor) -> u64 {
    match color {
        crate::piece::PieceColor::White => 0x60u64,
        crate::piece::PieceColor::Black => 0x6000_0000_0000_0000u64,
    }
}

/// Queenside squares of `color` that must be empty (b1, c1, d1 / b8, c8, d8).
pub open spec fn spec_castle_queenside_empty_mask(color: crate::piece::PieceColor) -> u64 {
    match color {
        crate::piece::PieceColor::White => 0x0eu64,
        crate::piece::PieceColor::Black => 0x0e00_0000_0000_0000u64,
    }
}

/// Queenside squares of `color` that must be unattacked (c1, d1 / c8, d8);
/// the b-file square may be attacked but not occupied.
pub open spec fn spec_castle_queenside_attacked_mask(color: crate::piece::PieceColor) -> u64 {
    match color {
        crate::piece::PieceColor::White => 0x0cu64,
        crate::piece::PieceColor::Black => 0x0c00_0000_0000_0000u64,
    }
}

/// The kingside rook's home square of `color`, as a bitboard (h1 / h8).
pub open spec fn spec_castle_rook_kingside(color: crate::piece::PieceColor) -> u64 {
    match color {
        crate::piece::PieceColor::White => 0x80u64,
        crate::piece::PieceColor::Black => 0x8000_0000_0000_0000u64,
    }
}

/// The queenside rook's home square of `color`, as a bitboard (a1 / a8).
pub open spec fn spec_castle_rook_queenside(color: crate::piece::PieceColor) -> u64 {
    match color {
        crate::piece::PieceColor::White => 0x1u64,
        crate::piece::PieceColor::Black => 0x0100_0000_0000_0000u64,
    }
}

pub fn castle_kingside_mask(color: crate::piece::PieceColor) -> (r: u64)
    ensures
        r == spec_castle_kingside_mask(color),
{
    match color {
        crate::piece::PieceColor::White => 0x60,
        crate::piece::PieceColor::Black => 0x6000_0000_0000_0000,
    }
}

pub fn castle_queenside_empty_mask(color: crate::piece::PieceColor) -> (r: u64)
    ensures
        r == spec_castle_queenside_empty_mask(color),
{
    match color {
        crate::piece::PieceColor::White => 0x0e,
        crate::piece::PieceColor::Black => 0x0e00_0000_0000_0000,
    }
}

pub fn castle_queenside_attacked_mask(color: crate::piece::PieceColor) -> (r: u64)
    ensures
        r == spec_castle_queenside_attacked_mask(color),
{
    match color {
        crate::piece::PieceColor::White => 0x0c,
        crate::piece::PieceColor::Black => 0x0c00_0000_0000_0000,
    }
}

pub fn castle_rook_kingside(color: crate::piece::PieceColor) -> (r: u64)
    ensures
        r == spec_castle_rook_kingside(color),
{
    match color {
        crate::piece::PieceColor::White => 0x80,
        crate::piece::PieceColor::Black => 0x8000_0000_0000_0000,
    }
}

pub fn castle_rook_queenside(color: crate::piece::PieceColor) -> (r: u64)
    ensures
        r == spec_castle_rook_queenside(color),
{
    match color {
        crate::piece::PieceColor::White => 0x1,
        crate::piece::PieceColor::Black => 0x0100_0000_0000_0000,
    }
}

} // verus!
