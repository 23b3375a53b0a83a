//! The legal move generator: enemy attack maps, check and pin detection,
//! per-piece move generation, and castling, over hyperbola-quintessence
//! sliding attacks.
//!
//! Every executable function's contract pins its result to a spec-level
//! mirror of the same computation, so `generate_legal_moves` returns exactly
//! `spec_legal_moves` of the board's model, capped at the buffer size.

use crate::bitboard::{
    bit, clear_ls1b, lemma_clear_ls1b_decreases, ls1b, popcount, spec_swap_bytes, swap_bytes,
    Bitmanip, count_set_bits,
};
use crate::board::{ep_victim_square, Board, Position};
use crate::chess_move::{spec_new_move, Move};
use crate::gamestate::Gamestate;
use crate::move_list::{
    cap_moves, lemma_and_bits_subset, lemma_cap_app, offsets_on_board, spec_moves_of_bb,
    spec_pawn_attacks_all, spec_pawn_pushes_all, spec_promotion_moves, spec_promotions_at, MoveList,
};
use crate::piece::{Piece, PieceColor, PieceType};
use crate::tables::{
    lemma_or_assoc, spec_antidiag_mask, spec_antidiag_mask_ex, spec_diagonal_mask,
    spec_diagonal_mask_ex, spec_file_mask_ex, spec_king_attack, spec_knight_attack, spec_rank_mask,
    spec_squares_between, NOT_A_FILE, NOT_H_FILE,
};
use vstd::prelude::*;
use vstd::std_specs::bits::u64_trailing_zeros;
use vstd::wrapping::u64_specs;

verus! {

/// Hyperbola quintessence: the attacked squares along the ray `mask` from
/// square `sq`, against blockers `o`.
pub open spec fn spec_line_moves(o: u64, sq: u64, mask: u64) -> u64 {
    let forward0 = o & mask;
    let reverse0 = spec_swap_bytes(forward0);
    let forward1 = u64_specs::wrapping_sub(forward0, 1u64 << sq);
    let reverse1 = u64_specs::wrapping_sub(reverse0, spec_swap_bytes(1u64 << sq));
    let forward2 = forward1 ^ spec_swap_bytes(reverse1);
    forward2 & mask
}

/// Attacks along the a1-h8 diagonal through `sq`.
pub open spec fn spec_diagonal_moves(o: u64, sq: u64) -> u64 {
    spec_line_moves(o, sq, spec_diagonal_mask_ex(sq))
}

/// Attacks along the a8-h1 antidiagonal through `sq`.
pub open spec fn spec_antidiag_moves(o: u64, sq: u64) -> u64 {
    spec_line_moves(o, sq, spec_antidiag_mask_ex(sq))
}

/// Attacks along the file through `sq`.
pub open spec fn spec_file_moves(o: u64, sq: u64) -> u64 {
    spec_line_moves(o, sq, spec_file_mask_ex(sq))
}

/// Attacks along the rank through `sq`: the rank byte is projected onto the
/// main diagonal, processed as a diagonal, and projected back.
pub open spec fn spec_rank_moves(o: u64, sq: u64) -> u64 {
    let rank_index = sq / 8;
    let occupancy0 = (o & spec_rank_mask(sq)) >> (rank_index * 8);
    let piece0 = (1u64 << sq) >> (rank_index * 8);
    let occupancy = u64_specs::wrapping_mul(occupancy0, 0x0101_0101_0101_0101) & 0x8040_2010_0804_0201;
    let piece = u64_specs::wrapping_mul(piece0, 0x0101_0101_0101_0101) & 0x8040_2010_0804_0201;
    let diag_index = u64_trailing_zeros(piece) as u64;
    let moves = u64_specs::wrapping_mul(spec_diagonal_moves(occupancy, diag_index), 0x0101_0101_0101_0101);
    (moves / 0x0100_0000_0000_0000) << (rank_index * 8)
}

/// Each exclusive line mask leaves out the square it runs through.
proof fn lemma_line_masks_exclude_own_square(sq: u64)
    requires
        sq < 64,
    ensures
        !bit(spec_file_mask_ex(sq), sq),
        !bit(spec_diagonal_mask_ex(sq), sq),
        !bit(spec_antidiag_mask_ex(sq), sq),
{
    assert(sq < 64 ==> (((0x0101_0101_0101_0101u64 << (sq % 8)) >> sq) & 1) == 1) by (bit_vector);
    assert(sq < 64 ==> ((spec_diagonal_mask(sq) >> sq) & 1) == 1) by (bit_vector);
    assert(sq < 64 ==> ((spec_antidiag_mask(sq) >> sq) & 1) == 1) by (bit_vector);
    crate::bitboard::lemma_bit_ops(sq);
    crate::bitboard::lemma_bit_single(sq, sq);
}

/// What the hyperbola-quintessence line formula guarantees without any
/// first-blocker analysis: the attack set stays on its exclusive line mask,
/// never contains the attacking square itself, and ignores blockers off the
/// line. The exact set of reached squares is what the formula computes; its
/// agreement with a square-by-square ray walk is not proved here.
pub proof fn lemma_line_moves_on_ray(o: u64, sq: u64, mask: u64)
    requires
        sq < 64,
        !bit(mask, sq),
    ensures
        spec_line_moves(o, sq, mask) & mask == spec_line_moves(o, sq, mask),
        !bit(spec_line_moves(o, sq, mask), sq),
        spec_line_moves(o & mask, sq, mask) == spec_line_moves(o, sq, mask),
{
    crate::bitboard::lemma_and_idem();
    crate::bitboard::lemma_bit_ops(sq);
}

/// The three single-line attack sets stay on their exclusive line, exclude
/// the attacking square, and ignore blockers off the line.
pub proof fn lemma_slider_moves_on_ray(o: u64, sq: u64)
    requires
        sq < 64,
    ensures
        spec_diagonal_moves(o, sq) & spec_diagonal_mask_ex(sq) == spec_diagonal_moves(o, sq),
        !bit(spec_diagonal_moves(o, sq), sq),
        spec_diagonal_moves(o & spec_diagonal_mask_ex(sq), sq) == spec_diagonal_moves(o, sq),
        spec_antidiag_moves(o, sq) & spec_antidiag_mask_ex(sq) == spec_antidiag_moves(o, sq),
        !bit(spec_antidiag_moves(o, sq), sq),
        spec_antidiag_moves(o & spec_antidiag_mask_ex(sq), sq) == spec_antidiag_moves(o, sq),
        spec_file_moves(o, sq) & spec_file_mask_ex(sq) == spec_file_moves(o, sq),
        !bit(spec_file_moves(o, sq), sq),
        spec_file_moves(o & spec_file_mask_ex(sq), sq) == spec_file_moves(o, sq),
{
    lemma_line_masks_exclude_own_square(sq);
    lemma_line_moves_on_ray(o, sq, spec_diagonal_mask_ex(sq));
    lemma_line_moves_on_ray(o, sq, spec_antidiag_mask_ex(sq));
    lemma_line_moves_on_ray(o, sq, spec_file_mask_ex(sq));
}

/// The rank attack set stays on the attacking square's rank, and blockers
/// off that rank do not affect it.
pub proof fn lemma_rank_moves_on_ray(o: u64, sq: u64)
    requires
        sq < 64,
    ensures
        spec_rank_moves(o, sq) & spec_rank_mask(sq) == spec_rank_moves(o, sq),
        spec_rank_moves(o & spec_rank_mask(sq), sq) == spec_rank_moves(o, sq),
{
    crate::bitboard::lemma_and_idem();
    let m = u64_specs::wrapping_mul(
        spec_diagonal_moves(
            u64_specs::wrapping_mul((o & spec_rank_mask(sq)) >> ((sq / 8) * 8), 0x0101_0101_0101_0101)
                & 0x8040_2010_0804_0201,
            u64_trailing_zeros(
                u64_specs::wrapping_mul((1u64 << sq) >> ((sq / 8) * 8), 0x0101_0101_0101_0101)
                    & 0x8040_2010_0804_0201,
            ) as u64,
        ),
        0x0101_0101_0101_0101,
    );
    assert(sq < 64 ==> ((m / 0x0100_0000_0000_0000) << ((sq / 8) * 8)) & (0xffu64 << (8 * (sq
        / 8))) == ((m / 0x0100_0000_0000_0000) << ((sq / 8) * 8))) by (bit_vector);
}

fn diagonal_moves(blockers_bb: u64, index: u64) -> (r: u64)
    requires
        index < 64,
    ensures
        r == spec_diagonal_moves(blockers_bb, index),
{
    let mask = crate::tables::diagonal_mask_ex(index);
    let mut forward = blockers_bb & mask;
    let mut reverse = swap_bytes(forward);
    forward = forward.wrapping_sub(1u64 << index);
    reverse = reverse.wrapping_sub(swap_bytes(1u64 << index));
    forward ^= swap_bytes(reverse);
    forward & mask
}

fn antidiagonal_moves(blockers_bb: u64, index: u64) -> (r: u64)
    requires
        index < 64,
    ensures
        r == spec_antidiag_moves(blockers_bb, index),
{
    let mask = crate::tables::antidiag_mask_ex(index);
    let mut forward = blockers_bb & mask;
    let mut reverse = swap_bytes(forward);
    forward = forward.wrapping_sub(1u64 << index);
    reverse = reverse.wrapping_sub(swap_bytes(1u64 << index));
    forward ^= swap_bytes(reverse);
    forward & mask
}

fn file_moves(blockers_bb: u64, index: u64) -> (r: u64)
    requires
        index < 64,
    ensures
        r == spec_file_moves(blockers_bb, index),
{
    let mask = crate::tables::file_mask_ex(index);
    let mut forward = blockers_bb & mask;
    let mut reverse = swap_bytes(forward);
    forward = forward.wrapping_sub(1u64 << index);
    reverse = reverse.wrapping_sub(swap_bytes(1u64 << index));
    forward ^= swap_bytes(reverse);
    forward & mask
}

fn rank_moves(blockers_bb: u64, index: u64) -> (r: u64)
    requires
        index < 64,
    ensures
        r == spec_rank_moves(blockers_bb, index),
{
    let rank_index = index / 8;
    let occupancy0 = (blockers_bb & crate::tables::rank_mask(index)) >> (rank_index * 8);
    let piece0 = (1u64 << index) >> (rank_index * 8);

    let occupancy = occupancy0.wrapping_mul(0x0101_0101_0101_0101) & 0x8040_2010_0804_0201;
    let mut piece = piece0.wrapping_mul(0x0101_0101_0101_0101) & 0x8040_2010_0804_0201;

    proof {
        let sq = index;
        assert(sq < 64 ==> (u64_specs::wrapping_mul(((1u64 << sq) >> ((sq / 8) * 8)),
            0x0101_0101_0101_0101) & 0x8040_2010_0804_0201) != 0) by (bit_vector);
    }
    let diag_index = piece.bitscan_reset();
    let moves = diagonal_moves(occupancy, diag_index).wrapping_mul(0x0101_0101_0101_0101);
    (moves / 0x0100_0000_0000_0000) << (rank_index * 8)
}

/// The union of attacks of rooks standing on `bb` (rank and file rays),
/// lowest square first.
pub open spec fn spec_rook_attacks_from(bb: u64, occ: u64) -> u64
    decreases bb,
    via spec_rook_attacks_from_decreases
{
    if bb == 0 {
        0u64
    } else {
        let sq = u64_trailing_zeros(bb) as u64;
        (spec_file_moves(occ, sq) | spec_rank_moves(occ, sq)) | spec_rook_attacks_from(
            clear_ls1b(bb),
            occ,
        )
    }
}

#[via_fn]
proof fn spec_rook_attacks_from_decreases(bb: u64, occ: u64) {
    if bb != 0 {
        lemma_clear_ls1b_decreases(bb);
    }
}

/// The union of attacks of bishops standing on `bb` (diagonal rays).
pub open spec fn spec_bishop_attacks_from(bb: u64, occ: u64) -> u64
    decreases bb,
    via spec_bishop_attacks_from_decreases
{
    if bb == 0 {
        0u64
    } else {
        let sq = u64_trailing_zeros(bb) as u64;
        (spec_diagonal_moves(occ, sq) | spec_antidiag_moves(occ, sq)) | spec_bishop_attacks_from(
            clear_ls1b(bb),
            occ,
        )
    }
}

#[via_fn]
proof fn spec_bishop_attacks_from_decreases(bb: u64, occ: u64) {
    if bb != 0 {
        lemma_clear_ls1b_decreases(bb);
    }
}

/// The union of queen attacks: bishop and rook rays together.
pub open spec fn spec_queen_attacks_from(bb: u64, occ: u64) -> u64 {
    spec_bishop_attacks_from(bb, occ) | spec_rook_attacks_from(bb, occ)
}

/// The union of knight attacks from every knight on `bb`.
pub open spec fn spec_knight_attacks_from(bb: u64) -> u64
    decreases bb,
    via spec_knight_attacks_from_decreases
{
    if bb == 0 {
        0u64
    } else {
        spec_knight_attack(u64_trailing_zeros(bb) as u64) | spec_knight_attacks_from(clear_ls1b(bb))
    }
}

#[via_fn]
proof fn spec_knight_attacks_from_decreases(bb: u64) {
    if bb != 0 {
        lemma_clear_ls1b_decreases(bb);
    }
}

/// The squares pawns on `pawn_bb` of `piece_color` attack: the two forward
/// diagonal shifts, clipped at the board edges.
pub open spec fn spec_pawn_attacks(pawn_bb: u64, piece_color: PieceColor) -> u64 {
    if piece_color == PieceColor::White {
        ((pawn_bb << 9) & NOT_A_FILE) | ((pawn_bb << 7) & NOT_H_FILE)
    } else {
        ((pawn_bb >> 7) & NOT_A_FILE) | ((pawn_bb >> 9) & NOT_H_FILE)
    }
}

fn generate_knight_attacks(knight_bb: u64) -> (r: u64)
    ensures
        r == spec_knight_attacks_from(knight_bb),
{
    let mut rest = knight_bb;
    let mut res: u64 = 0;
    proof {
        lemma_or_assoc(spec_knight_attacks_from(knight_bb), 0, 0);
    }
    while rest != 0
        invariant
            res | spec_knight_attacks_from(rest) == spec_knight_attacks_from(knight_bb),
        decreases rest,
    {
        let index = rest.bitscan_reset();
        let moves_bb = crate::tables::knight_attack(index);
        proof {
            lemma_or_assoc(res, moves_bb, spec_knight_attacks_from(rest));
        }
        res |= moves_bb;
    }
    proof {
        lemma_or_assoc(res, 0, 0);
    }
    res
}

fn generate_rook_attacks(rook_bb: u64, occupied_bb: u64) -> (r: u64)
    ensures
        r == spec_rook_attacks_from(rook_bb, occupied_bb),
{
    let mut rest = rook_bb;
    let mut res: u64 = 0;
    proof {
        lemma_or_assoc(spec_rook_attacks_from(rook_bb, occupied_bb), 0, 0);
    }
    while rest != 0
        invariant
            res | spec_rook_attacks_from(rest, occupied_bb) == spec_rook_attacks_from(rook_bb,
            occupied_bb),
        decreases rest,
    {
        let index = rest.bitscan_reset();
        let moves_bb = file_moves(occupied_bb, index) | rank_moves(occupied_bb, index);
        proof {
            lemma_or_assoc(res, moves_bb, spec_rook_attacks_from(rest, occupied_bb));
        }
        res |= moves_bb;
    }
    proof {
        lemma_or_assoc(res, 0, 0);
    }
    res
}

fn generate_bishop_attacks(bishop_bb: u64, occupied_bb: u64) -> (r: u64)
    ensures
        r == spec_bishop_attacks_from(bishop_bb, occupied_bb),
{
    let mut rest = bishop_bb;
    let mut res: u64 = 0;
    proof {
        lemma_or_assoc(spec_bishop_attacks_from(bishop_bb, occupied_bb), 0, 0);
    }
    while rest != 0
        invariant
            res | spec_bishop_attacks_from(rest, occupied_bb) == spec_bishop_attacks_from(bishop_bb,
            occupied_bb),
        decreases rest,
    {
        let index = rest.bitscan_reset();
        let moves_bb = diagonal_moves(occupied_bb, index) | antidiagonal_moves(occupied_bb, index);
        proof {
            lemma_or_assoc(res, moves_bb, spec_bishop_attacks_from(rest, occupied_bb));
        }
        res |= moves_bb;
    }
    proof {
        lemma_or_assoc(res, 0, 0);
    }
    res
}

fn generate_queen_attacks(queen_bb: u64, occupied_bb: u64) -> (r: u64)
    ensures
        r == spec_queen_attacks_from(queen_bb, occupied_bb),
{
    generate_bishop_attacks(queen_bb, occupied_bb) | generate_rook_attacks(queen_bb, occupied_bb)
}

fn generate_king_attacks(king_bb: u64) -> (r: u64)
    requires
        king_bb != 0,
    ensures
        r == spec_king_attack(u64_trailing_zeros(king_bb) as u64),
{
    let mut rest = king_bb;
    let index = rest.bitscan_reset();
    crate::tables::king_attack(index)
}

fn generate_pawn_attacks(pawn_bb: u64, piece_color: PieceColor) -> (r: u64)
    ensures
        r == spec_pawn_attacks(pawn_bb, piece_color),
{
    let east_attacks: u64;
    let west_attacks: u64;
    if piece_color.idx() == 0 {
        east_attacks = (pawn_bb << 9) & NOT_A_FILE;
        west_attacks = (pawn_bb << 7) & NOT_H_FILE;
    } else {
        east_attacks = (pawn_bb >> 7) & NOT_A_FILE;
        west_attacks = (pawn_bb >> 9) & NOT_H_FILE;
    }
    east_attacks | west_attacks
}

/// The six per-type attack bitboards of the side owning `pieces`: knight and
/// king entries stay zero when no such piece stands on the board.
pub open spec fn spec_attacks_entry(pieces: Seq<u64>, occ: u64, color: PieceColor, t: int) -> u64 {
    if t == 0 {
        spec_rook_attacks_from(pieces[0], occ)
    } else if t == 1 {
        spec_bishop_attacks_from(pieces[1], occ)
    } else if t == 2 {
        spec_queen_attacks_from(pieces[2], occ)
    } else if t == 3 {
        if pieces[3] != 0 {
            spec_knight_attacks_from(pieces[3])
        } else {
            0u64
        }
    } else if t == 4 {
        spec_pawn_attacks(pieces[4], color)
    } else {
        if pieces[5] != 0 {
            spec_king_attack(u64_trailing_zeros(pieces[5]) as u64)
        } else {
            0u64
        }
    }
}

/// The union of all six attack bitboards.
pub open spec fn spec_attacks_union(pieces: Seq<u64>, occ: u64, color: PieceColor) -> u64 {
    spec_attacks_entry(pieces, occ, color, 0) | spec_attacks_entry(pieces, occ, color, 1)
        | spec_attacks_entry(pieces, occ, color, 2) | spec_attacks_entry(pieces, occ, color, 3)
        | spec_attacks_entry(pieces, occ, color, 4) | spec_attacks_entry(pieces, occ, color, 5)
}

fn generate_attacks(pieces_bb: [u64; 6], occupied_bb: u64, piece_color: PieceColor) -> (r: [u64; 6])
    ensures
        forall|t: int| 0 <= t < 6 ==> r@[t] == spec_attacks_entry(pieces_bb@, occupied_bb, piece_color, t),
{
    let mut res = [0u64; 6];

    res[0] = generate_rook_attacks(pieces_bb[0], occupied_bb);
    if pieces_bb[3] != 0 {
        res[3] = generate_knight_attacks(pieces_bb[3]);
    }
    res[1] = generate_bishop_attacks(pieces_bb[1], occupied_bb);
    res[2] = generate_queen_attacks(pieces_bb[2], occupied_bb);
    if pieces_bb[5] != 0 {
        res[5] = generate_king_attacks(pieces_bb[5]);
    }
    res[4] = generate_pawn_attacks(pieces_bb[4], piece_color);

    res
}

/// The enemy pieces giving check to the king on `king_bb`: attacks are
/// generated from the king square as if it were each piece type in turn and
/// intersected with the enemy pieces of that type.
pub open spec fn spec_find_attackers(
    king_bb: u64,
    king_color: PieceColor,
    enemy_pieces: Seq<u64>,
    occ: u64,
) -> u64 {
    (spec_knight_attacks_from(king_bb) & enemy_pieces[3]) | (spec_bishop_attacks_from(king_bb, occ)
        & enemy_pieces[1]) | (spec_rook_attacks_from(king_bb, occ) & enemy_pieces[0]) | (
    spec_queen_attacks_from(king_bb, occ) & enemy_pieces[2]) | (spec_pawn_attacks(
        king_bb,
        king_color,
    ) & enemy_pieces[4])
}

/// Finds the enemy pieces that attack the king square.
pub fn find_attackers(
    king_bb: u64,
    king_color: PieceColor,
    enemy_pieces_bb: [u64; 6],
    occupied_bb: u64,
) -> (r: u64)
    ensures
        r == spec_find_attackers(king_bb, king_color, enemy_pieces_bb@, occupied_bb),
{
    let mut attackers: u64;
    let mut attacks: u64;

    attacks = generate_knight_attacks(king_bb);
    attackers = attacks & enemy_pieces_bb[3];

    attacks = generate_bishop_attacks(king_bb, occupied_bb);
    attackers |= attacks & enemy_pieces_bb[1];

    attacks = generate_rook_attacks(king_bb, occupied_bb);
    attackers |= attacks & enemy_pieces_bb[0];

    attacks = generate_queen_attacks(king_bb, occupied_bb);
    attackers |= attacks & enemy_pieces_bb[2];

    attacks = generate_pawn_attacks(king_bb, king_color);
    attackers |= attacks & enemy_pieces_bb[4];

    attackers
}

/// The xray of a rook on `rook_bit`: the squares it would attack along rank
/// and file if the nearest blockers were lifted off the board.
pub open spec fn spec_xray_rook(occ: u64, blockers: u64, rook_bit: u64) -> u64 {
    let attacks = spec_rook_attacks_from(rook_bit, occ);
    let b = blockers & attacks;
    attacks ^ spec_rook_attacks_from(rook_bit, occ ^ b)
}

/// The xray of a bishop on `bishop_bit` along its diagonals.
pub open spec fn spec_xray_bishop(occ: u64, blockers: u64, bishop_bit: u64) -> u64 {
    let attacks = spec_bishop_attacks_from(bishop_bit, occ);
    let b = blockers & attacks;
    attacks ^ spec_bishop_attacks_from(bishop_bit, occ ^ b)
}

fn xray_rook_attacks(occupied_bb: u64, blockers_bb: u64, rook_bit: u64) -> (r: u64)
    ensures
        r == spec_xray_rook(occupied_bb, blockers_bb, rook_bit),
{
    let attacks = generate_rook_attacks(rook_bit, occupied_bb);
    let blockers = blockers_bb & attacks;
    attacks ^ generate_rook_attacks(rook_bit, occupied_bb ^ blockers)
}

fn xray_bishop_attacks(occupied_bb: u64, blockers_bb: u64, bishop_bit: u64) -> (r: u64)
    ensures
        r == spec_xray_bishop(occupied_bb, blockers_bb, bishop_bit),
{
    let attacks = generate_bishop_attacks(bishop_bit, occupied_bb);
    let blockers = blockers_bb & attacks;
    attacks ^ generate_bishop_attacks(bishop_bit, occupied_bb ^ blockers)
}

/// A set bit of a left shift by `k` lies at or above `k`, and comes from the
/// bit `k` lower in the unshifted word.
proof fn lemma_shl_bits(x: u64, k: u64)
    requires
        k < 64,
    ensures
        forall|t: u64| t < 64 && #[trigger] bit(x << k, t) ==> t >= k && bit(x, ((t - k) as u64)),
{
    assert forall|t: u64| t < 64 && #[trigger] bit(x << k, t) implies t >= k && bit(
        x,
        ((t - k) as u64),
    ) by {
        crate::bitboard::lemma_shift_bit_range(x, k, t);
    }
}

/// A set bit of a right shift by `k` lies below `64 - k`.
proof fn lemma_shr_bits(x: u64, k: u64)
    requires
        k < 64,
    ensures
        forall|t: u64| t < 64 && #[trigger] bit(x >> k, t) ==> t < 64 - k,
{
    assert forall|t: u64| t < 64 && #[trigger] bit(x >> k, t) implies t < 64 - k by {
        crate::bitboard::lemma_shift_bit_range(x, k, t);
    }
}

/// The moves of the knights standing on `bb`, each restricted to squares
/// neither occupied by our side nor outside `legal_squares`.
pub open spec fn spec_knights_moves(bb: u64, us_bb: u64, legal: u64, piece: Piece) -> Seq<Move>
    decreases bb,
    via spec_knights_moves_decreases
{
    if bb == 0 {
        Seq::empty()
    } else {
        let sq = u64_trailing_zeros(bb) as u64;
        spec_moves_of_bb(spec_knight_attack(sq) & !us_bb & legal, sq, piece) + spec_knights_moves(
            clear_ls1b(bb),
            us_bb,
            legal,
            piece,
        )
    }
}

#[via_fn]
proof fn spec_knights_moves_decreases(bb: u64, us_bb: u64, legal: u64, piece: Piece) {
    if bb != 0 {
        lemma_clear_ls1b_decreases(bb);
    }
}

fn generate_knights_moves(
    knights_bb: u64,
    us_color_bb: u64,
    legal_squares_bb: u64,
    piece: Piece,
    move_list: &mut MoveList,
)
    ensures
        final(move_list)@ == cap_moves(
            old(move_list)@ + spec_knights_moves(knights_bb, us_color_bb, legal_squares_bb, piece),
        ),
{
    let mut rest = knights_bb;
    while rest != 0
        invariant
            cap_moves(
                move_list@ + spec_knights_moves(rest, us_color_bb, legal_squares_bb, piece),
            ) == cap_moves(
                old(move_list)@ + spec_knights_moves(knights_bb, us_color_bb, legal_squares_bb,
                    piece,
                ),
            ),
        decreases rest,
    {
        let ghost pre = move_list@;
        let ghost pre_rest = rest;
        let index = rest.bitscan_reset();
        let moves_bb = crate::tables::knight_attack(index) & !us_color_bb & legal_squares_bb;
        move_list.append_bb(moves_bb, index, piece);
        proof {
            let inner = spec_moves_of_bb(moves_bb, index, piece);
            lemma_cap_app(pre + inner, spec_knights_moves(rest, us_color_bb, legal_squares_bb,
                piece));
            assert(pre + inner + spec_knights_moves(rest, us_color_bb, legal_squares_bb, piece)
                =~= pre + spec_knights_moves(pre_rest, us_color_bb, legal_squares_bb, piece));
        }
    }
    proof {
        assert(move_list@ + spec_knights_moves(0, us_color_bb, legal_squares_bb, piece)
            =~= move_list@);
        assert(cap_moves(move_list@) == move_list@);
    }
}

/// The king's moves: one step in any direction, not onto our own pieces and
/// not into the enemy's attack map.
pub open spec fn spec_king_moves(king_bb: u64, us_bb: u64, attacks_bb: u64, piece: Piece) -> Seq<
    Move,
> {
    let sq = u64_trailing_zeros(king_bb) as u64;
    spec_moves_of_bb(spec_king_attack(sq) & !us_bb & !attacks_bb, sq, piece)
}

fn generate_king_moves(
    king_bb: u64,
    us_color_bb: u64,
    attacks_bb: u64,
    piece: Piece,
    move_list: &mut MoveList,
)
    requires
        king_bb != 0,
    ensures
        final(move_list)@ == cap_moves(
            old(move_list)@ + spec_king_moves(king_bb, us_color_bb, attacks_bb, piece),
        ),
{
    let mut rest = king_bb;
    let index = rest.bitscan_reset();
    let moves_bb = crate::tables::king_attack(index) & !us_color_bb & !attacks_bb;
    move_list.append_bb(moves_bb, index, piece);
}

/// The moves of the rooks standing on `bb`: rank and file rays against the
/// full occupancy, excluding our own pieces, restricted to `legal`.
pub open spec fn spec_rook_moves(bb: u64, us_bb: u64, enemy_bb: u64, legal: u64, piece: Piece) -> Seq<
    Move,
>
    decreases bb,
    via spec_rook_moves_decreases
{
    if bb == 0 {
        Seq::empty()
    } else {
        let sq = u64_trailing_zeros(bb) as u64;
        let blockers = us_bb | enemy_bb;
        spec_moves_of_bb(
            (spec_file_moves(blockers, sq) | spec_rank_moves(blockers, sq)) & !us_bb & legal,
            sq,
            piece,
        ) + spec_rook_moves(clear_ls1b(bb), us_bb, enemy_bb, legal, piece)
    }
}

#[via_fn]
proof fn spec_rook_moves_decreases(bb: u64, us_bb: u64, enemy_bb: u64, legal: u64, piece: Piece) {
    if bb != 0 {
        lemma_clear_ls1b_decreases(bb);
    }
}

fn generate_rook_moves(
    rook_bb: u64,
    us_color_bb: u64,
    enemy_color_bb: u64,
    legal_squares_bb: u64,
    piece: Piece,
    move_list: &mut MoveList,
)
    ensures
        final(move_list)@ == cap_moves(
            old(move_list)@ + spec_rook_moves(rook_bb, us_color_bb, enemy_color_bb,
                legal_squares_bb, piece,
            ),
        ),
{
    let blockers_bb = us_color_bb | enemy_color_bb;
    let mut rest = rook_bb;
    while rest != 0
        invariant
            blockers_bb == us_color_bb | enemy_color_bb,
            cap_moves(
                move_list@ + spec_rook_moves(rest, us_color_bb, enemy_color_bb, legal_squares_bb,
                    piece,
                ),
            ) == cap_moves(
                old(move_list)@ + spec_rook_moves(rook_bb, us_color_bb, enemy_color_bb,
                    legal_squares_bb, piece,
                ),
            ),
        decreases rest,
    {
        let ghost pre = move_list@;
        let ghost pre_rest = rest;
        let index = rest.bitscan_reset();
        let moves_bb = (file_moves(blockers_bb, index) | rank_moves(blockers_bb, index))
            & !us_color_bb & legal_squares_bb;
        move_list.append_bb(moves_bb, index, piece);
        proof {
            let inner = spec_moves_of_bb(moves_bb, index, piece);
            lemma_cap_app(pre + inner, spec_rook_moves(rest, us_color_bb, enemy_color_bb,
                legal_squares_bb, piece));
            assert(pre + inner + spec_rook_moves(rest, us_color_bb, enemy_color_bb,
                legal_squares_bb, piece) =~= pre + spec_rook_moves(pre_rest, us_color_bb,
                enemy_color_bb, legal_squares_bb, piece));
        }
    }
    proof {
        assert(move_list@ + spec_rook_moves(0, us_color_bb, enemy_color_bb, legal_squares_bb, piece)
            =~= move_list@);
        assert(cap_moves(move_list@) == move_list@);
    }
}

/// The moves of the bishops standing on `bb`: diagonal rays, excluding our
/// own pieces, restricted to `legal`.
pub open spec fn spec_bishop_moves(bb: u64, us_bb: u64, enemy_bb: u64, legal: u64, piece: Piece) -> Seq<
    Move,
>
    decreases bb,
    via spec_bishop_moves_decreases
{
    if bb == 0 {
        Seq::empty()
    } else {
        let sq = u64_trailing_zeros(bb) as u64;
        let blockers = us_bb | enemy_bb;
        spec_moves_of_bb(
            (spec_diagonal_moves(blockers, sq) | spec_antidiag_moves(blockers, sq)) & !us_bb
                & legal,
            sq,
            piece,
        ) + spec_bishop_moves(clear_ls1b(bb), us_bb, enemy_bb, legal, piece)
    }
}

#[via_fn]
proof fn spec_bishop_moves_decreases(bb: u64, us_bb: u64, enemy_bb: u64, legal: u64, piece: Piece) {
    if bb != 0 {
        lemma_clear_ls1b_decreases(bb);
    }
}

fn generate_bishop_moves(
    bishop_bb: u64,
    us_color_bb: u64,
    enemy_color_bb: u64,
    legal_squares_bb: u64,
    piece: Piece,
    move_list: &mut MoveList,
)
    ensures
        final(move_list)@ == cap_moves(
            old(move_list)@ + spec_bishop_moves(bishop_bb, us_color_bb, enemy_color_bb,
                legal_squares_bb, piece,
            ),
        ),
{
    let blockers_bb = us_color_bb | enemy_color_bb;
    let mut rest = bishop_bb;
    while rest != 0
        invariant
            blockers_bb == us_color_bb | enemy_color_bb,
            cap_moves(
                move_list@ + spec_bishop_moves(rest, us_color_bb, enemy_color_bb, legal_squares_bb,
                    piece,
                ),
            ) == cap_moves(
                old(move_list)@ + spec_bishop_moves(bishop_bb, us_color_bb, enemy_color_bb,
                    legal_squares_bb, piece,
                ),
            ),
        decreases rest,
    {
        let ghost pre = move_list@;
        let ghost pre_rest = rest;
        let index = rest.bitscan_reset();
        let moves_bb = (diagonal_moves(blockers_bb, index) | antidiagonal_moves(blockers_bb, index))
            & !us_color_bb & legal_squares_bb;
        move_list.append_bb(moves_bb, index, piece);
        proof {
            let inner = spec_moves_of_bb(moves_bb, index, piece);
            lemma_cap_app(pre + inner, spec_bishop_moves(rest, us_color_bb, enemy_color_bb,
                legal_squares_bb, piece));
            assert(pre + inner + spec_bishop_moves(rest, us_color_bb, enemy_color_bb,
                legal_squares_bb, piece) =~= pre + spec_bishop_moves(pre_rest, us_color_bb,
                enemy_color_bb, legal_squares_bb, piece));
        }
    }
    proof {
        assert(move_list@ + spec_bishop_moves(0, us_color_bb, enemy_color_bb, legal_squares_bb,
            piece) =~= move_list@);
        assert(cap_moves(move_list@) == move_list@);
    }
}

/// The queen's moves: her bishop moves followed by her rook moves.
pub open spec fn spec_queen_moves(bb: u64, us_bb: u64, enemy_bb: u64, legal: u64, piece: Piece) -> Seq<
    Move,
> {
    spec_bishop_moves(bb, us_bb, enemy_bb, legal, piece) + spec_rook_moves(
        bb,
        us_bb,
        enemy_bb,
        legal,
        piece,
    )
}

fn generate_queen_moves(
    queen_bb: u64,
    us_color_bb: u64,
    enemy_color_bb: u64,
    legal_squares_bb: u64,
    piece: Piece,
    move_list: &mut MoveList,
)
    ensures
        final(move_list)@ == cap_moves(
            old(move_list)@ + spec_queen_moves(queen_bb, us_color_bb, enemy_color_bb,
                legal_squares_bb, piece,
            ),
        ),
{
    generate_bishop_moves(
        queen_bb,
        us_color_bb,
        enemy_color_bb,
        legal_squares_bb,
        piece,
        move_list,
    );
    generate_rook_moves(queen_bb, us_color_bb, enemy_color_bb, legal_squares_bb, piece, move_list);
    proof {
        lemma_cap_app(old(move_list)@ + spec_bishop_moves(queen_bb, us_color_bb, enemy_color_bb,
            legal_squares_bb, piece), spec_rook_moves(queen_bb, us_color_bb, enemy_color_bb,
            legal_squares_bb, piece));
        assert(old(move_list)@ + spec_bishop_moves(queen_bb, us_color_bb, enemy_color_bb,
            legal_squares_bb, piece) + spec_rook_moves(queen_bb, us_color_bb, enemy_color_bb,
            legal_squares_bb, piece) =~= old(move_list)@ + spec_queen_moves(queen_bb, us_color_bb,
            enemy_color_bb, legal_squares_bb, piece));
    }
}

/// What the white pawn batch appends: single pushes, double pushes, then
/// east and west captures (an en-passant landing counts as a capture), each
/// batch restricted to `legal` and expanded for promotions.
pub open spec fn spec_white_pawn_moves(
    pawns_bb: u64,
    us_bb: u64,
    enemy_bb: u64,
    legal: u64,
    opt_enpassant: Option<u64>,
    piece: Piece,
) -> Seq<Move> {
    let empty = !(us_bb | enemy_bb);
    let single_all = (pawns_bb << 8) & empty;
    let double_pushes = (single_all << 8) & crate::tables::RANK_4 & empty & legal;
    let single_pushes = single_all & legal;
    let enemy2 = match opt_enpassant {
        Some(e) => if e < 64 {
            enemy_bb ^ (1u64 << e)
        } else {
            enemy_bb
        },
        None => enemy_bb,
    };
    let east = (pawns_bb << 9) & NOT_A_FILE & enemy2 & legal;
    let west = (pawns_bb << 7) & NOT_H_FILE & enemy2 & legal;
    spec_pawn_pushes_all(single_pushes, -8, piece) + spec_pawn_pushes_all(double_pushes, -16, piece)
        + spec_pawn_attacks_all(east, -9, opt_enpassant, piece) + spec_pawn_attacks_all(
        west,
        -7,
        opt_enpassant,
        piece,
    )
}

fn generate_white_pawns_moves(
    pawns_bb: u64,
    us_color_bb: u64,
    enemy_color_bb: u64,
    legal_squares_bb: u64,
    piece: Piece,
    opt_enpassant_square: Option<u64>,
    move_list: &mut MoveList,
)
    ensures
        final(move_list)@ == cap_moves(
            old(move_list)@ + spec_white_pawn_moves(pawns_bb, us_color_bb, enemy_color_bb,
                legal_squares_bb, opt_enpassant_square, piece,
            ),
        ),
{
    let empty_bb = !(us_color_bb | enemy_color_bb);
    let single_all = (pawns_bb << 8) & empty_bb;
    let double_pushes = (single_all << 8) & crate::tables::RANK_4 & empty_bb & legal_squares_bb;
    let single_pushes = single_all & legal_squares_bb;

    let mut enemy2 = enemy_color_bb;
    if let Some(enpassant_square) = opt_enpassant_square {
        if enpassant_square < 64 {
            enemy2 = enemy2 ^ (1u64 << enpassant_square);
        }
    }
    let east_attacks = (pawns_bb << 9) & NOT_A_FILE & enemy2 & legal_squares_bb;
    let west_attacks = (pawns_bb << 7) & NOT_H_FILE & enemy2 & legal_squares_bb;

    proof {
        lemma_shl_bits(pawns_bb, 8);
        lemma_shl_bits(single_all, 8);
        lemma_shl_bits(pawns_bb, 9);
        lemma_shl_bits(pawns_bb, 7);
        assert forall|t: u64| t < 64 && #[trigger] bit(single_pushes, t) implies 0 <= t + (-8) < 64 by {
            crate::bitboard::lemma_bit_ops(t);
        }
        assert forall|t: u64| t < 64 && #[trigger] bit(double_pushes, t) implies 0 <= t + (-16)
            < 64 by {
            crate::bitboard::lemma_bit_ops(t);
            assert(bit(single_all << 8, t));
            assert(t >= 8 && bit(single_all, ((t - 8) as u64)));
            crate::bitboard::lemma_bit_ops(((t - 8) as u64));
            assert(bit(pawns_bb << 8, ((t - 8) as u64)));
        }
        assert forall|t: u64| t < 64 && #[trigger] bit(east_attacks, t) implies 0 <= t + (-9) < 64 by {
            crate::bitboard::lemma_bit_ops(t);
        }
        assert forall|t: u64| t < 64 && #[trigger] bit(west_attacks, t) implies 0 <= t + (-7) < 64 by {
            crate::bitboard::lemma_bit_ops(t);
        }
    }

    let ghost l0 = move_list@;
    move_list.append_bb_pawn_pushes(single_pushes, -8, piece);
    let ghost s1 = spec_pawn_pushes_all(single_pushes, -8, piece);
    move_list.append_bb_pawn_pushes(double_pushes, -16, piece);
    let ghost s2 = spec_pawn_pushes_all(double_pushes, -16, piece);
    move_list.append_bb_pawn_attacks(east_attacks, -9, opt_enpassant_square, piece);
    let ghost s3 = spec_pawn_attacks_all(east_attacks, -9, opt_enpassant_square, piece);
    move_list.append_bb_pawn_attacks(west_attacks, -7, opt_enpassant_square, piece);
    let ghost s4 = spec_pawn_attacks_all(west_attacks, -7, opt_enpassant_square, piece);
    proof {
        lemma_cap_app(l0 + s1, s2);
        lemma_cap_app(l0 + s1 + s2, s3);
        lemma_cap_app(l0 + s1 + s2 + s3, s4);
        assert(l0 + s1 + s2 + s3 + s4 =~= l0 + spec_white_pawn_moves(pawns_bb, us_color_bb,
            enemy_color_bb, legal_squares_bb, opt_enpassant_square, piece));
    }
}

/// What the black pawn batch appends, mirroring the white one with the
/// shifts reversed.
pub open spec fn spec_black_pawn_moves(
    pawns_bb: u64,
    us_bb: u64,
    enemy_bb: u64,
    legal: u64,
    opt_enpassant: Option<u64>,
    piece: Piece,
) -> Seq<Move> {
    let empty = !(us_bb | enemy_bb);
    let single_all = (pawns_bb >> 8) & empty;
    let double_pushes = (single_all >> 8) & crate::tables::RANK_5 & empty & legal;
    let single_pushes = single_all & legal;
    let enemy2 = match opt_enpassant {
        Some(e) => if e < 64 {
            enemy_bb ^ (1u64 << e)
        } else {
            enemy_bb
        },
        None => enemy_bb,
    };
    let east = (pawns_bb >> 7) & NOT_A_FILE & enemy2 & legal;
    let west = (pawns_bb >> 9) & NOT_H_FILE & enemy2 & legal;
    spec_pawn_pushes_all(single_pushes, 8, piece) + spec_pawn_pushes_all(double_pushes, 16, piece)
        + spec_pawn_attacks_all(east, 7, opt_enpassant, piece) + spec_pawn_attacks_all(
        west,
        9,
        opt_enpassant,
        piece,
    )
}

fn generate_black_pawns_moves(
    pawns_bb: u64,
    us_color_bb: u64,
    enemy_color_bb: u64,
    legal_squares_bb: u64,
    piece: Piece,
    opt_enpassant_square: Option<u64>,
    move_list: &mut MoveList,
)
    ensures
        final(move_list)@ == cap_moves(
            old(move_list)@ + spec_black_pawn_moves(pawns_bb, us_color_bb, enemy_color_bb,
                legal_squares_bb, opt_enpassant_square, piece,
            ),
        ),
{
    let empty_bb = !(us_color_bb | enemy_color_bb);
    let single_all = (pawns_bb >> 8) & empty_bb;
    let double_pushes = (single_all >> 8) & crate::tables::RANK_5 & empty_bb & legal_squares_bb;
    let single_pushes = single_all & legal_squares_bb;

    let mut enemy2 = enemy_color_bb;
    if let Some(enpassant_square) = opt_enpassant_square {
        if enpassant_square < 64 {
            enemy2 = enemy2 ^ (1u64 << enpassant_square);
        }
    }
    let east_attacks = (pawns_bb >> 7) & NOT_A_FILE & enemy2 & legal_squares_bb;
    let west_attacks = (pawns_bb >> 9) & NOT_H_FILE & enemy2 & legal_squares_bb;

    proof {
        lemma_shr_bits(pawns_bb, 8);
        lemma_shr_bits(single_all, 8);
        lemma_shr_bits(pawns_bb, 9);
        lemma_shr_bits(pawns_bb, 7);
        assert forall|t: u64| t < 64 && #[trigger] bit(single_pushes, t) implies 0 <= t + 8 < 64 by {
            crate::bitboard::lemma_bit_ops(t);
        }
        assert forall|t: u64| t < 64 && #[trigger] bit(double_pushes, t) implies 0 <= t + 16
            < 64 by {
            crate::bitboard::lemma_bit_ops(t);
            assert(bit(single_all >> 8, t));
            crate::bitboard::lemma_shift_bit_range(single_all, 8, t);
            assert(bit(single_all, ((t + 8) as u64)));
            crate::bitboard::lemma_bit_ops(((t + 8) as u64));
            assert(bit(pawns_bb >> 8, ((t + 8) as u64)));
        }
        assert forall|t: u64| t < 64 && #[trigger] bit(east_attacks, t) implies 0 <= t + 7 < 64 by {
            crate::bitboard::lemma_bit_ops(t);
        }
        assert forall|t: u64| t < 64 && #[trigger] bit(west_attacks, t) implies 0 <= t + 9 < 64 by {
            crate::bitboard::lemma_bit_ops(t);
        }
    }

    let ghost l0 = move_list@;
    move_list.append_bb_pawn_pushes(single_pushes, 8, piece);
    let ghost s1 = spec_pawn_pushes_all(single_pushes, 8, piece);
    move_list.append_bb_pawn_pushes(double_pushes, 16, piece);
    let ghost s2 = spec_pawn_pushes_all(double_pushes, 16, piece);
    move_list.append_bb_pawn_attacks(east_attacks, 7, opt_enpassant_square, piece);
    let ghost s3 = spec_pawn_attacks_all(east_attacks, 7, opt_enpassant_square, piece);
    move_list.append_bb_pawn_attacks(west_attacks, 9, opt_enpassant_square, piece);
    let ghost s4 = spec_pawn_attacks_all(west_attacks, 9, opt_enpassant_square, piece);
    proof {
        lemma_cap_app(l0 + s1, s2);
        lemma_cap_app(l0 + s1 + s2, s3);
        lemma_cap_app(l0 + s1 + s2 + s3, s4);
        assert(l0 + s1 + s2 + s3 + s4 =~= l0 + spec_black_pawn_moves(pawns_bb, us_color_bb,
            enemy_color_bb, legal_squares_bb, opt_enpassant_square, piece));
    }
}

/// Expands every set bit of `promotions` into its four promotion moves
/// (rook, bishop, queen, knight), the origin being the destination displaced
/// by `offset`, and appends them to `move_list`.
pub fn generate_promotion_moves(promotions: u64, offset: i64, piece: Piece, move_list: &mut MoveList)
    requires
        offsets_on_board(promotions, offset as int),
        -16 <= offset <= 16,
    ensures
        final(move_list)@ == cap_moves(
            old(move_list)@ + spec_promotion_moves(promotions, offset as int, piece),
        ),
{
    let mut rest = promotions;
    while rest != 0
        invariant
            offsets_on_board(rest, offset as int),
            -16 <= offset <= 16,
            cap_moves(move_list@ + spec_promotion_moves(rest, offset as int, piece)) == cap_moves(
                old(move_list)@ + spec_promotion_moves(promotions, offset as int, piece),
            ),
        decreases rest,
    {
        let ghost pre = move_list@;
        let ghost pre_rest = rest;
        let to = rest.bitscan_reset();
        proof {
            vstd::std_specs::bits::axiom_u64_trailing_zeros(pre_rest);
            assert(bit(pre_rest, to));
            crate::move_list::lemma_and_bits_subset(pre_rest, ((pre_rest - 1) as u64));
        }
        let from = (to as i64 + offset) as u64;
        let base = Move::new(from, to, piece);
        let mut m1 = base;
        m1.add_promotion(PieceType::Rook);
        move_list.push(m1);
        let mut m2 = base;
        m2.add_promotion(PieceType::Bishop);
        move_list.push(m2);
        let mut m3 = base;
        m3.add_promotion(PieceType::Queen);
        move_list.push(m3);
        let mut m4 = base;
        m4.add_promotion(PieceType::Knight);
        move_list.push(m4);
        proof {
            let b = spec_new_move(((to + offset) as u64), to, piece);
            let quad = spec_promotions_at(to, offset as int, piece);
            lemma_cap_app(pre + seq![b.spec_with_promotion(PieceType::Rook)], seq![
                b.spec_with_promotion(PieceType::Bishop)]);
            lemma_cap_app(pre + seq![b.spec_with_promotion(PieceType::Rook)] + seq![
                b.spec_with_promotion(PieceType::Bishop)], seq![b.spec_with_promotion(
                PieceType::Queen)]);
            lemma_cap_app(pre + seq![b.spec_with_promotion(PieceType::Rook)] + seq![
                b.spec_with_promotion(PieceType::Bishop)] + seq![b.spec_with_promotion(
                PieceType::Queen)], seq![b.spec_with_promotion(PieceType::Knight)]);
            lemma_cap_app(pre + quad, spec_promotion_moves(rest, offset as int, piece));
            assert(pre + seq![b.spec_with_promotion(PieceType::Rook)] + seq![
                b.spec_with_promotion(PieceType::Bishop)] + seq![b.spec_with_promotion(
                PieceType::Queen)] + seq![b.spec_with_promotion(PieceType::Knight)] =~= pre + quad);
            assert(pre + quad + spec_promotion_moves(rest, offset as int, piece) =~= pre
                + spec_promotion_moves(pre_rest, offset as int, piece));
        }
    }
    proof {
        assert(move_list@ + spec_promotion_moves(0, offset as int, piece) =~= move_list@);
        assert(cap_moves(move_list@) == move_list@);
    }
}

/// The moves of the pieces of one type selected by `valid_mask`, restricted
/// to `restricted`: the dispatch table of the generator. A king is never
/// dispatched here.
pub open spec fn spec_piece_moves(piece: Piece, valid_mask: u64, restricted: u64, p: Position) -> Seq<
    Move,
> {
    let us = piece.color;
    let bb = p.pieces[us.ord()][piece.ptype.ord()] & valid_mask;
    let us_bb = p.colors[us.ord()];
    let enemy_bb = p.colors[us.spec_opposite().ord()];
    match piece.ptype {
        PieceType::Rook => spec_rook_moves(bb, us_bb, enemy_bb, restricted, piece),
        PieceType::Bishop => spec_bishop_moves(bb, us_bb, enemy_bb, restricted, piece),
        PieceType::Queen => spec_queen_moves(bb, us_bb, enemy_bb, restricted, piece),
        PieceType::Knight => if bb != 0 {
            spec_knights_moves(bb, us_bb, restricted, piece)
        } else {
            Seq::empty()
        },
        PieceType::Pawn => match us {
            PieceColor::White => spec_white_pawn_moves(
                bb,
                us_bb,
                enemy_bb,
                restricted,
                p.state.enpassant_square,
                piece,
            ),
            PieceColor::Black => spec_black_pawn_moves(
                bb,
                us_bb,
                enemy_bb,
                restricted,
                p.state.enpassant_square,
                piece,
            ),
        },
        PieceType::King => Seq::empty(),
    }
}

/// Generates the moves of one piece type, restricted by a selection mask and
/// a landing mask. Kings have their own generator and never come through
/// here.
fn generate_moves_for_piece(
    piece: Piece,
    valid_pieces_mask: u64,
    restricted_squares: u64,
    board: &Board,
    move_list: &mut MoveList,
)
    requires
        piece.spec_type() != PieceType::King,
    ensures
        final(move_list)@ == cap_moves(
            old(move_list)@ + spec_piece_moves(piece, valid_pieces_mask, restricted_squares,
                board.pos(),
            ),
        ),
{
    let piece_type = piece.get_type();
    let us_color = piece.get_color();
    let pieces = board.get_pieces_bb();
    let piece_bb = pieces[us_color.idx()][piece_type.idx()] & valid_pieces_mask;
    let (us_color_bb, enemy_color_bb) = board.get_us_enemy_colors_bb(us_color);

    match piece_type {
        PieceType::Rook => generate_rook_moves(
            piece_bb,
            us_color_bb,
            enemy_color_bb,
            restricted_squares,
            piece,
            move_list,
        ),
        PieceType::Bishop => generate_bishop_moves(
            piece_bb,
            us_color_bb,
            enemy_color_bb,
            restricted_squares,
            piece,
            move_list,
        ),
        PieceType::Queen => generate_queen_moves(
            piece_bb,
            us_color_bb,
            enemy_color_bb,
            restricted_squares,
            piece,
            move_list,
        ),
        PieceType::Knight => {
            if piece_bb != 0 {
                generate_knights_moves(
                    piece_bb,
                    us_color_bb,
                    restricted_squares,
                    piece,
                    move_list,
                );
            } else {
                proof {
                    assert(move_list@ + spec_piece_moves(piece, valid_pieces_mask,
                        restricted_squares, board.pos()) =~= move_list@);
                    assert(cap_moves(move_list@) == move_list@);
                }
            }
        },
        PieceType::Pawn => {
            match us_color {
                PieceColor::White => generate_white_pawns_moves(
                    piece_bb,
                    us_color_bb,
                    enemy_color_bb,
                    restricted_squares,
                    piece,
                    board.current_gamestate.get_enpassant_square(),
                    move_list,
                ),
                PieceColor::Black => generate_black_pawns_moves(
                    piece_bb,
                    us_color_bb,
                    enemy_color_bb,
                    restricted_squares,
                    piece,
                    board.current_gamestate.get_enpassant_square(),
                    move_list,
                ),
            }
        },
        PieceType::King => {
            proof {
                assert(false);
            }
        },
    }
}

/// The pins found along one family of rays: for each xray attacker in
/// `pinner`, the blockers of ours between it and the king, paired with the
/// squares the pinned piece may still move to (the ray between, plus a
/// capture of the pinning piece).
pub open spec fn spec_pins_scan(pinner: u64, king_sq: u64, us_bb: u64) -> Seq<(u64, u64)>
    decreases pinner,
    via spec_pins_scan_decreases
{
    if pinner == 0 {
        Seq::empty()
    } else {
        let idx = u64_trailing_zeros(pinner) as u64;
        let sb = spec_squares_between(idx, king_sq);
        let pinned = sb & us_bb;
        let allowed = sb | (1u64 << idx);
        (if pinned != 0 {
            seq![(pinned, allowed)]
        } else {
            Seq::empty()
        }) + spec_pins_scan(clear_ls1b(pinner), king_sq, us_bb)
    }
}

#[via_fn]
proof fn spec_pins_scan_decreases(pinner: u64, king_sq: u64, us_bb: u64) {
    if pinner != 0 {
        lemma_clear_ls1b_decreases(pinner);
    }
}

/// The en-passant discovered-check scan: the first enemy rook or queen on
/// the king's rank with exactly two pieces between it and the king yields a
/// pseudo-pin that forbids the en-passant capture.
pub open spec fn spec_ep_pin_scan(rq: u64, king_sq: u64, ep: u64, occ: u64, us_bb: u64) -> Seq<
    (u64, u64),
>
    decreases rq,
    via spec_ep_pin_scan_decreases
{
    if rq == 0 {
        Seq::empty()
    } else {
        let e = u64_trailing_zeros(rq) as u64;
        if king_sq / 8 == e / 8 {
            let pp = spec_squares_between(king_sq, e) & occ;
            if popcount(pp) == 2 {
                seq![(pp & us_bb, !(1u64 << ep))]
            } else {
                spec_ep_pin_scan(clear_ls1b(rq), king_sq, ep, occ, us_bb)
            }
        } else {
            spec_ep_pin_scan(clear_ls1b(rq), king_sq, ep, occ, us_bb)
        }
    }
}

#[via_fn]
proof fn spec_ep_pin_scan_decreases(rq: u64, king_sq: u64, ep: u64, occ: u64, us_bb: u64) {
    if rq != 0 {
        lemma_clear_ls1b_decreases(rq);
    }
}

/// All pins of `color_to_move` against the king on `king_bit`: rook-ray
/// pins, bishop-ray pins, then the en-passant pseudo-pin. With no king on
/// the board nothing is pinned.
pub open spec fn spec_pinned_pieces(p: Position, color_to_move: PieceColor, king_bit: u64) -> Seq<
    (u64, u64),
> {
    if king_bit == 0 {
        Seq::empty()
    } else {
        let king_sq = u64_trailing_zeros(king_bit) as u64;
        let us_pieces = p.pieces[color_to_move.ord()];
        let enemy_pieces = p.pieces[color_to_move.spec_opposite().ord()];
        let us_bb = p.colors[color_to_move.ord()];
        let enemy_bb = p.colors[color_to_move.spec_opposite().ord()];
        let occ = us_bb | enemy_bb;
        let pinner_r = spec_xray_rook(occ, us_bb, king_bit) & (enemy_pieces[0] | enemy_pieces[2]);
        let s1 = spec_pins_scan(pinner_r, king_sq, us_bb);
        let pinner_b = spec_xray_bishop(occ, us_bb, king_bit) & (enemy_pieces[1] | enemy_pieces[2]);
        let s2 = spec_pins_scan(pinner_b, king_sq, us_bb);
        let s3 = match p.state.enpassant_square {
            Some(ep) => if ep < 64 && rows_apart_one(king_sq, ep) && bit(
                spec_pawn_attacks(us_pieces[4], color_to_move),
                ep,
            ) {
                spec_ep_pin_scan(enemy_pieces[2] | enemy_pieces[0], king_sq, ep, occ, us_bb)
            } else {
                Seq::empty()
            },
            None => Seq::empty(),
        };
        s1 + s2 + s3
    }
}

/// Whether two squares stand on vertically adjacent rows.
pub open spec fn rows_apart_one(a: u64, b: u64) -> bool {
    a / 8 == b / 8 + 1 || b / 8 == a / 8 + 1
}

/// Finds every piece of `color_to_move` pinned to its king, paired with the
/// squares it may still move to.
fn recognize_pinned_pieces(king_bit: u64, board: &Board, color_to_move: PieceColor) -> (r: Vec<
    (u64, u64),
>)
    ensures
        r@ == spec_pinned_pieces(board.pos(), color_to_move, king_bit),
{
    let mut pinned_pieces: Vec<(u64, u64)> = Vec::new();
    if king_bit == 0 {
        return pinned_pieces;
    }
    let king_index = king_bit.bitscan();
    let (us_pieces_bb, enemy_pieces_bb, us_color_bb, enemy_color_bb) = board.get_us_enemy_bitboards(
        color_to_move,
    );
    let occupied_bb = us_color_bb | enemy_color_bb;

    // Rook and queen pins
    let mut pinner = xray_rook_attacks(occupied_bb, us_color_bb, king_bit) & (enemy_pieces_bb[0]
        | enemy_pieces_bb[2]);
    let ghost pinner_r0 = pinner;
    proof {
        assert(Seq::<(u64, u64)>::empty() + spec_pins_scan(pinner_r0, king_index, us_color_bb)
            =~= spec_pins_scan(pinner_r0, king_index, us_color_bb));
    }
    while pinner != 0
        invariant
            king_index == u64_trailing_zeros(king_bit) as u64,
            king_index < 64,
            pinned_pieces@ + spec_pins_scan(pinner, king_index, us_color_bb) == spec_pins_scan(
                pinner_r0,
                king_index,
                us_color_bb,
            ),
        decreases pinner,
    {
        let ghost pre = pinned_pieces@;
        let ghost pre_rest = pinner;
        let index = pinner.bitscan_reset();
        let mut squares_between = crate::tables::squares_between(index, king_index);
        let pinned = squares_between & us_color_bb;
        squares_between.set_square(index);
        if pinned != 0 {
            pinned_pieces.push((pinned, squares_between));
        }
        proof {
            assert(pinned_pieces@ + spec_pins_scan(pinner, king_index, us_color_bb) =~= pre
                + spec_pins_scan(pre_rest, king_index, us_color_bb));
        }
    }
    proof {
        assert(pinned_pieces@ + spec_pins_scan(0, king_index, us_color_bb) =~= pinned_pieces@);
    }
    let ghost s1 = pinned_pieces@;

    // Bishop and queen pins
    pinner = xray_bishop_attacks(occupied_bb, us_color_bb, king_bit) & (enemy_pieces_bb[1]
        | enemy_pieces_bb[2]);
    let ghost pinner_b0 = pinner;
    proof {
        assert(pinned_pieces@ + spec_pins_scan(pinner_b0, king_index, us_color_bb) =~= s1
            + spec_pins_scan(pinner_b0, king_index, us_color_bb));
    }
    while pinner != 0
        invariant
            king_index == u64_trailing_zeros(king_bit) as u64,
            king_index < 64,
            pinned_pieces@ + spec_pins_scan(pinner, king_index, us_color_bb) == s1 + spec_pins_scan(
                pinner_b0,
                king_index,
                us_color_bb,
            ),
        decreases pinner,
    {
        let ghost pre = pinned_pieces@;
        let ghost pre_rest = pinner;
        let index = pinner.bitscan_reset();
        let mut squares_between = crate::tables::squares_between(index, king_index);
        let pinned = squares_between & us_color_bb;
        squares_between.set_square(index);
        if pinned != 0 {
            pinned_pieces.push((pinned, squares_between));
        }
        proof {
            assert(pinned_pieces@ + spec_pins_scan(pinner, king_index, us_color_bb) =~= pre
                + spec_pins_scan(pre_rest, king_index, us_color_bb));
        }
    }
    proof {
        assert(pinned_pieces@ + spec_pins_scan(0, king_index, us_color_bb) =~= pinned_pieces@);
    }
    let ghost s12 = pinned_pieces@;

    // En-passant discovered check
    if let Some(enpassant_index) = board.current_gamestate.get_enpassant_square() {
        let rows_adjacent = king_index / 8 == enpassant_index / 8 + 1 || enpassant_index / 8
            == king_index / 8 + 1;
        if enpassant_index < 64 && rows_adjacent && generate_pawn_attacks(
            us_pieces_bb[4],
            color_to_move,
        ).contains_index(enpassant_index) {
            let mut enemy_rooks_queens_bb = enemy_pieces_bb[2] | enemy_pieces_bb[0];
            let ghost rq0 = enemy_rooks_queens_bb;
            let mut done = false;
            while enemy_rooks_queens_bb != 0 && !done
                invariant
                    king_index == u64_trailing_zeros(king_bit) as u64,
                    king_index < 64,
                    enpassant_index < 64,
                    occupied_bb == us_color_bb | enemy_color_bb,
                    if done {
                        pinned_pieces@ == s12 + spec_ep_pin_scan(rq0, king_index, enpassant_index,
                            occupied_bb, us_color_bb,
                        )
                    } else {
                        pinned_pieces@ == s12 && spec_ep_pin_scan(rq0, king_index, enpassant_index,
                            occupied_bb, us_color_bb,
                        ) == spec_ep_pin_scan(enemy_rooks_queens_bb, king_index, enpassant_index,
                            occupied_bb, us_color_bb,
                        )
                    },
                decreases enemy_rooks_queens_bb, (if done {
                    0int
                } else {
                    1int
                }),
            {
                let enemy_piece_index = enemy_rooks_queens_bb.bitscan_reset();
                if king_index / 8 == enemy_piece_index / 8 {
                    let pinned_pieces_bb = crate::tables::squares_between(
                        king_index,
                        enemy_piece_index,
                    ) & occupied_bb;
                    if count_set_bits(pinned_pieces_bb) == 2 {
                        pinned_pieces.push(
                            (pinned_pieces_bb & us_color_bb, !(1u64 << enpassant_index)),
                        );
                        done = true;
                        proof {
                            assert(pinned_pieces@ =~= s12 + spec_ep_pin_scan(rq0, king_index,
                                enpassant_index, occupied_bb, us_color_bb));
                        }
                    }
                }
            }
            proof {
                if !done {
                    assert(pinned_pieces@ =~= s12 + spec_ep_pin_scan(rq0, king_index,
                        enpassant_index, occupied_bb, us_color_bb));
                }
            }
        } else {
            proof {
                assert(pinned_pieces@ =~= s12 + Seq::<(u64, u64)>::empty());
            }
        }
    } else {
        proof {
            assert(pinned_pieces@ =~= s12 + Seq::<(u64, u64)>::empty());
        }
    }
    proof {
        assert(pinned_pieces@ =~= spec_pinned_pieces(board.pos(), color_to_move, king_bit));
    }
    pinned_pieces
}

/// The lowest piece-type ordinal whose bitboard meets `pinned`, or 6 when
/// none does.
pub open spec fn spec_first_type(us_pieces: Seq<u64>, pinned: u64, t: int) -> int
    decreases 6 - t,
{
    if t >= 6 {
        6
    } else if us_pieces[t] & pinned != 0 {
        t
    } else {
        spec_first_type(us_pieces, pinned, t + 1)
    }
}

/// The moves the pinned pieces may still make, pin by pin: each pinned
/// piece's ordinary moves restricted to its pin ray. A pinned king cannot
/// arise and contributes nothing.
pub open spec fn spec_pinned_moves(
    pins: Seq<(u64, u64)>,
    i: int,
    p: Position,
    color: PieceColor,
) -> Seq<Move>
    decreases pins.len() - i,
{
    if i >= pins.len() {
        Seq::empty()
    } else {
        let pinned_bb = pins[i].0;
        let restriction = pins[i].1;
        let t = spec_first_type(p.pieces[color.ord()], pinned_bb, 0);
        (if t < 5 {
            spec_piece_moves(
                Piece { ptype: PieceType::spec_from_index(t), color },
                pinned_bb,
                restriction,
                p,
            )
        } else {
            Seq::empty()
        }) + spec_pinned_moves(pins, i + 1, p, color)
    }
}

/// Generates the moves of every pinned piece, restricted to its pin ray.
#[verifier::rlimit(100)]
#[verifier::spinoff_prover]
fn generate_moves_for_pinned_pieces(
    pinned_pieces: &Vec<(u64, u64)>,
    us_color: PieceColor,
    board: &Board,
    move_list: &mut MoveList,
)
    ensures
        final(move_list)@ == cap_moves(
            old(move_list)@ + spec_pinned_moves(pinned_pieces@, 0, board.pos(), us_color),
        ),
{
    let us_pieces_bb = board.get_pieces_bb()[us_color.idx()];
    proof {
        assert(us_pieces_bb@ =~= board.pos().pieces[us_color.ord()]);
    }
    let mut i: usize = 0;
    while i < pinned_pieces.len()
        invariant
            us_pieces_bb@ == board.pos().pieces[us_color.ord()],
            i <= pinned_pieces@.len(),
            cap_moves(move_list@ + spec_pinned_moves(pinned_pieces@, i as int, board.pos(), us_color))
                == cap_moves(
                old(move_list)@ + spec_pinned_moves(pinned_pieces@, 0, board.pos(), us_color),
            ),
        decreases pinned_pieces@.len() - i,
    {
        let ghost pre = move_list@;
        let (pinned_bb, restriction_mask) = pinned_pieces[i];

        let mut type_found: usize = 6;
        let mut t: usize = 0;
        while t < 6 && type_found == 6
            invariant
                t <= 6,
                type_found <= 6,
                us_pieces_bb@ == board.pos().pieces[us_color.ord()],
                type_found == 6 ==> spec_first_type(us_pieces_bb@, pinned_bb, 0) == spec_first_type(
                    us_pieces_bb@,
                    pinned_bb,
                    t as int,
                ),
                type_found < 6 ==> type_found == spec_first_type(us_pieces_bb@, pinned_bb, 0),
            decreases 6 - t, (if type_found == 6 {
                1int
            } else {
                0int
            }),
        {
            if us_pieces_bb[t] & pinned_bb != 0 {
                type_found = t;
            } else {
                t = t + 1;
            }
        }
        proof {
            if type_found == 6 {
                assert(spec_first_type(us_pieces_bb@, pinned_bb, 0) == 6);
            }
        }

        if type_found < 5 {
            let piece = Piece::new(PieceType::from_index(type_found as u64), us_color);
            generate_moves_for_piece(piece, pinned_bb, restriction_mask, board, move_list);
        }
        proof {
            let t0 = spec_first_type(board.pos().pieces[us_color.ord()], pinned_bb, 0);
            let inner = if t0 < 5 {
                spec_piece_moves(
                    Piece { ptype: PieceType::spec_from_index(t0), color: us_color },
                    pinned_bb,
                    restriction_mask,
                    board.pos(),
                )
            } else {
                Seq::<Move>::empty()
            };
            if t0 >= 5 {
                assert(pre + inner =~= pre);
                assert(move_list@ == cap_moves(pre + inner));
            } else {
                assert(type_found < 5);
                assert(t0 == type_found as int);
                assert(inner == spec_piece_moves(
                    Piece { ptype: PieceType::spec_from_index(type_found as int), color: us_color },
                    pinned_bb,
                    restriction_mask,
                    board.pos(),
                ));
                assert(move_list@ == cap_moves(pre + inner));
            }
            let rec = spec_pinned_moves(pinned_pieces@, i + 1, board.pos(), us_color);
            lemma_cap_app(pre + inner, rec);
            assert(cap_moves(move_list@ + rec) == cap_moves(pre + inner + rec)) by {
                lemma_cap_app(pre + inner, rec);
            }
            assert(pre + inner + rec =~= pre + spec_pinned_moves(pinned_pieces@, i as int,
                board.pos(), us_color));
        }
        i = i + 1;
    }
    proof {
        assert(move_list@ + spec_pinned_moves(pinned_pieces@, pinned_pieces@.len() as int,
            board.pos(), us_color) =~= move_list@);
        assert(cap_moves(move_list@) == move_list@);
    }
}

/// The castling moves available to `color`: a two-square king move toward
/// either rook, emitted only when the right is held, the transit squares are
/// empty and unattacked as the masks demand, and the rook stands on its home
/// square.
pub open spec fn spec_castles(
    king_bit: u64,
    rooks_bb: u64,
    occupied_bb: u64,
    attacked_bb: u64,
    us_color: PieceColor,
    gamestate: Gamestate,
) -> Seq<Move> {
    if king_bit == 0 {
        Seq::empty()
    } else {
        let k = u64_trailing_zeros(king_bit) as u64;
        let king_piece = Piece { ptype: PieceType::King, color: us_color };
        let ks = if gamestate.spec_can_castle_kingside(us_color)
            && crate::tables::spec_castle_kingside_mask(us_color) & (occupied_bb | attacked_bb) == 0
            && crate::tables::spec_castle_rook_kingside(us_color) & rooks_bb != 0 && k + 2 < 64 {
            seq![spec_new_move(k, (k + 2) as u64, king_piece).spec_with_castle_kingside()]
        } else {
            Seq::empty()
        };
        let qs = if gamestate.spec_can_castle_queenside(us_color)
            && crate::tables::spec_castle_queenside_empty_mask(us_color) & occupied_bb == 0
            && crate::tables::spec_castle_queenside_attacked_mask(us_color) & attacked_bb == 0
            && crate::tables::spec_castle_rook_queenside(us_color) & rooks_bb != 0 && k >= 2 {
            seq![spec_new_move(k, (k - 2) as u64, king_piece).spec_with_castle_queenside()]
        } else {
            Seq::empty()
        };
        ks + qs
    }
}

/// Emits the legal castling moves.
fn generate_castles(
    king_bit: u64,
    rooks_bb: u64,
    occupied_bb: u64,
    attacked_bb: u64,
    us_color: PieceColor,
    gamestate: Gamestate,
    move_list: &mut MoveList,
)
    ensures
        final(move_list)@ == cap_moves(
            old(move_list)@ + spec_castles(king_bit, rooks_bb, occupied_bb, attacked_bb, us_color,
                gamestate,
            ),
        ),
{
    let ghost total = spec_castles(king_bit, rooks_bb, occupied_bb, attacked_bb, us_color,
        gamestate);
    if king_bit == 0 {
        proof {
            assert(move_list@ + total =~= move_list@);
            assert(cap_moves(move_list@) == move_list@);
        }
        return;
    }
    let king_index = king_bit.bitscan();
    let ghost l0 = move_list@;
    let ghost ks = if gamestate.spec_can_castle_kingside(us_color)
        && crate::tables::spec_castle_kingside_mask(us_color) & (occupied_bb | attacked_bb) == 0
        && crate::tables::spec_castle_rook_kingside(us_color) & rooks_bb != 0 && king_index + 2
        < 64 {
        seq![
            spec_new_move(king_index, (king_index + 2) as u64, Piece {
                ptype: PieceType::King,
                color: us_color,
            }).spec_with_castle_kingside(),
        ]
    } else {
        Seq::<Move>::empty()
    };

    if gamestate.can_castle_kingside(us_color) && crate::tables::castle_kingside_mask(us_color) & (
    occupied_bb | attacked_bb) == 0 && crate::tables::castle_rook_kingside(us_color) & rooks_bb != 0
        && king_index + 2 < 64 {
        let mut m = Move::new(king_index, king_index + 2, Piece::new(PieceType::King, us_color));
        m.add_castle_kingside();
        move_list.push(m);
    } else {
        proof {
            assert(move_list@ =~= cap_moves(l0 + ks));
        }
    }

    if gamestate.can_castle_queenside(us_color) && crate::tables::castle_queenside_empty_mask(
        us_color,
    ) & occupied_bb == 0 && crate::tables::castle_queenside_attacked_mask(us_color) & attacked_bb
        == 0 && crate::tables::castle_rook_queenside(us_color) & rooks_bb != 0 && king_index >= 2 {
        let mut m = Move::new(king_index, king_index - 2, Piece::new(PieceType::King, us_color));
        m.add_castle_queenside();
        move_list.push(m);
        proof {
            let qs = seq![
                spec_new_move(king_index, (king_index - 2) as u64, Piece {
                    ptype: PieceType::King,
                    color: us_color,
                }).spec_with_castle_queenside(),
            ];
            lemma_cap_app(l0 + ks, qs);
            assert(l0 + ks + qs =~= l0 + total);
        }
    } else {
        proof {
            lemma_cap_app(l0 + ks, Seq::<Move>::empty());
            assert(l0 + ks + Seq::<Move>::empty() =~= l0 + total);
            assert(move_list@ == cap_moves(l0 + ks + Seq::<Move>::empty()));
        }
    }
}

/// The union of the pinned-piece bitboards of a pin list, from entry `i` on.
pub open spec fn spec_pins_mask(pins: Seq<(u64, u64)>, i: int) -> u64
    decreases pins.len() - i,
{
    if i >= pins.len() {
        0u64
    } else {
        pins[i].0 | spec_pins_mask(pins, i + 1)
    }
}

/// Whether a slider stands on square `sq`.
pub open spec fn spec_slider_at(p: Position, sq: u64) -> bool {
    match p.squares[sq as int] {
        Some(pc) => pc.spec_is_slider(),
        None => false,
    }
}

/// The capture-or-block mask for the non-king pieces: everything with no
/// checker, the checker and (for a sliding checker) its check ray under a
/// single check.
pub open spec fn spec_legal_squares(p: Position, king_bit: u64, attackers: u64) -> u64 {
    let num = popcount(attackers);
    let capture_mask = if num == 0 {
        0xFFFF_FFFF_FFFF_FFFFu64
    } else {
        attackers
    };
    let block_mask = if num == 1 && king_bit != 0 && spec_slider_at(
        p,
        u64_trailing_zeros(attackers) as u64,
    ) {
        spec_squares_between(
            u64_trailing_zeros(king_bit) as u64,
            u64_trailing_zeros(attackers) as u64,
        )
    } else {
        0u64
    };
    capture_mask | block_mask
}

/// The legal-squares mask extended by the en-passant target when capturing
/// en passant would remove the checking pawn.
pub open spec fn spec_legal_squares_ep(p: Position, us: PieceColor, legal: u64) -> u64 {
    match p.state.enpassant_square {
        Some(ep) => {
            if ep < 64 {
                let victim = ep_victim_square(ep, us);
                if (match us {
                    PieceColor::White => ep >= 8,
                    PieceColor::Black => ep <= 55,
                }) && bit(legal, victim) {
                    legal | (1u64 << ep)
                } else {
                    legal
                }
            } else {
                legal
            }
        },
        None => legal,
    }
}

/// Every legal move of the side to move, in generation order: pinned-piece
/// moves and castles (only when not in check), then rooks, bishops, queens,
/// knights and pawns restricted to the capture-or-block mask (skipped
/// entirely under double check), and the king's steps out of the attack map
/// last.
#[verifier::opaque]
pub open spec fn spec_legal_moves(p: Position) -> Seq<Move> {
    let us = p.to_move;
    let ec = us.spec_opposite();
    let us_pieces = p.pieces[us.ord()];
    let enemy_pieces = p.pieces[ec.ord()];
    let us_bb = p.colors[us.ord()];
    let enemy_bb = p.colors[ec.ord()];
    let king_bit = ls1b(us_pieces[5]);
    let attacks_bb = spec_attacks_union(enemy_pieces, enemy_bb | (us_bb ^ king_bit), ec);
    let attackers = spec_find_attackers(king_bit, us, enemy_pieces, enemy_bb | us_bb);
    let num = popcount(attackers);
    let legal0 = spec_legal_squares(p, king_bit, attackers);
    let pins = spec_pinned_pieces(p, us, king_bit);
    let pmask = spec_pins_mask(pins, 0);
    let non_king = if num <= 1 {
        let head = if num == 0 {
            spec_pinned_moves(pins, 0, p, us) + spec_castles(
                king_bit,
                us_pieces[0],
                us_bb | enemy_bb,
                attacks_bb,
                us,
                p.state,
            )
        } else {
            Seq::<Move>::empty()
        };
        let legal1 = spec_legal_squares_ep(p, us, legal0);
        head + spec_piece_moves(Piece { ptype: PieceType::Rook, color: us }, !pmask, legal0, p)
            + spec_piece_moves(Piece { ptype: PieceType::Bishop, color: us }, !pmask, legal0, p)
            + spec_piece_moves(Piece { ptype: PieceType::Queen, color: us }, !pmask, legal0, p)
            + spec_piece_moves(Piece { ptype: PieceType::Knight, color: us }, !pmask, legal0, p)
            + spec_piece_moves(Piece { ptype: PieceType::Pawn, color: us }, !pmask, legal1, p)
    } else {
        Seq::<Move>::empty()
    };
    let king_part = if us_pieces[5] != 0 {
        spec_king_moves(us_pieces[5], us_bb, attacks_bb, Piece { ptype: PieceType::King, color: us })
    } else {
        Seq::<Move>::empty()
    };
    non_king + king_part
}

/// Generates every legal move of the side to move: check evasion, pins,
/// en passant, castling and promotion included. The result is exactly
/// `spec_legal_moves` of the board's model, capped at the buffer size.
#[verifier::rlimit(100)]
#[verifier::spinoff_prover]
pub fn generate_legal_moves(board: &Board) -> (res: MoveList)
    ensures
        res@ == cap_moves(spec_legal_moves(board.pos())),
        res@.len() <= 255,
{
    let ghost p = board.pos();
    let mut res = MoveList::new();
    let us_color = board.get_color_to_move();
    let enemy_color = us_color.opposite();
    let (us_pieces_bb, enemy_pieces_bb, us_color_bb, enemy_color_bb) = board.get_us_enemy_bitboards(
        us_color,
    );
    proof {
        assert(us_pieces_bb@ =~= p.pieces[us_color.ord()]);
        assert(enemy_pieces_bb@ =~= p.pieces[enemy_color.ord()]);
    }
    let king_bit = us_pieces_bb[5].isolate_ls1b();

    let attacks_per_piece_bb = generate_attacks(
        enemy_pieces_bb,
        enemy_color_bb | (us_color_bb ^ king_bit),
        enemy_color,
    );
    let attacks_bb = attacks_per_piece_bb[0] | attacks_per_piece_bb[1] | attacks_per_piece_bb[2]
        | attacks_per_piece_bb[3] | attacks_per_piece_bb[4] | attacks_per_piece_bb[5];
    proof {
        assert(attacks_bb == spec_attacks_union(p.pieces[enemy_color.ord()], enemy_color_bb | (
        us_color_bb ^ king_bit), enemy_color));
    }

    let attackers = find_attackers(
        king_bit,
        us_color,
        enemy_pieces_bb,
        enemy_color_bb | us_color_bb,
    );
    let num_attackers = count_set_bits(attackers);

    let capture_mask: u64 = if num_attackers == 0 {
        0xFFFF_FFFF_FFFF_FFFF
    } else {
        attackers
    };
    let is_slider_checker = if num_attackers == 1 && king_bit != 0 {
        match board.get_piece_at(attackers.bitscan()) {
            Some(pc) => pc.is_slider(),
            None => false,
        }
    } else {
        false
    };
    let block_mask: u64 = if num_attackers == 1 && king_bit != 0 && is_slider_checker {
        crate::tables::squares_between(king_bit.bitscan(), attackers.bitscan())
    } else {
        0
    };
    let mut legal_squares = capture_mask | block_mask;
    proof {
        assert(legal_squares == spec_legal_squares(p, king_bit, attackers));
    }

    if num_attackers <= 1 {
        let pinned_pieces = recognize_pinned_pieces(king_bit, board, us_color);
        let mut pinned_pieces_mask: u64 = 0;
        let mut pi: usize = 0;
        proof {
            lemma_or_assoc(spec_pins_mask(pinned_pieces@, 0), 0, 0);
        }
        while pi < pinned_pieces.len()
            invariant
                pi <= pinned_pieces@.len(),
                pinned_pieces_mask | spec_pins_mask(pinned_pieces@, pi as int) == spec_pins_mask(
                    pinned_pieces@,
                    0,
                ),
            decreases pinned_pieces@.len() - pi,
        {
            proof {
                lemma_or_assoc(pinned_pieces_mask, pinned_pieces@[pi as int].0, spec_pins_mask(
                    pinned_pieces@, pi as int + 1));
            }
            pinned_pieces_mask = pinned_pieces_mask | pinned_pieces[pi].0;
            pi = pi + 1;
        }
        proof {
            lemma_or_assoc(pinned_pieces_mask, 0, 0);
            assert(pinned_pieces_mask == spec_pins_mask(pinned_pieces@, 0));
        }

        if num_attackers == 0 {
            generate_moves_for_pinned_pieces(&pinned_pieces, us_color, board, &mut res);
            generate_castles(
                king_bit,
                us_pieces_bb[0],
                us_color_bb | enemy_color_bb,
                attacks_bb,
                us_color,
                board.current_gamestate,
                &mut res,
            );
            proof {
                let s_pin = spec_pinned_moves(pinned_pieces@, 0, p, us_color);
                let s_cas = spec_castles(king_bit, us_pieces_bb@[0], us_color_bb | enemy_color_bb,
                    attacks_bb, us_color, p.state);
                lemma_cap_app(s_pin, s_cas);
                assert(Seq::<Move>::empty() + s_pin =~= s_pin);
                assert(res@ == cap_moves(s_pin + s_cas));
            }
        }
        let ghost head = if num_attackers == 0 {
            spec_pinned_moves(pinned_pieces@, 0, p, us_color) + spec_castles(king_bit,
                us_pieces_bb@[0], us_color_bb | enemy_color_bb, attacks_bb, us_color, p.state)
        } else {
            Seq::<Move>::empty()
        };
        proof {
            if num_attackers != 0 {
                assert(res@ =~= cap_moves(head));
            }
        }

        let ghost legal0 = legal_squares;
        let piece_r = Piece::new(PieceType::Rook, us_color);
        generate_moves_for_piece(piece_r, !pinned_pieces_mask, legal_squares, board, &mut res);
        let ghost s_r = spec_piece_moves(piece_r, !pinned_pieces_mask, legal0, p);
        proof {
            lemma_cap_app(head, s_r);
        }
        let piece_b = Piece::new(PieceType::Bishop, us_color);
        generate_moves_for_piece(piece_b, !pinned_pieces_mask, legal_squares, board, &mut res);
        let ghost s_b = spec_piece_moves(piece_b, !pinned_pieces_mask, legal0, p);
        proof {
            lemma_cap_app(head + s_r, s_b);
        }
        let piece_q = Piece::new(PieceType::Queen, us_color);
        generate_moves_for_piece(piece_q, !pinned_pieces_mask, legal_squares, board, &mut res);
        let ghost s_q = spec_piece_moves(piece_q, !pinned_pieces_mask, legal0, p);
        proof {
            lemma_cap_app(head + s_r + s_b, s_q);
        }
        let piece_n = Piece::new(PieceType::Knight, us_color);
        generate_moves_for_piece(piece_n, !pinned_pieces_mask, legal_squares, board, &mut res);
        let ghost s_n = spec_piece_moves(piece_n, !pinned_pieces_mask, legal0, p);
        proof {
            lemma_cap_app(head + s_r + s_b + s_q, s_n);
        }

        // An en-passant capture can remove the one checking pawn even though
        // its landing square differs from the checker's square.
        let piece_p = Piece::new(PieceType::Pawn, us_color);
        if let Some(enpassant_index) = board.current_gamestate.get_enpassant_square() {
            if enpassant_index < 64 {
                let can_reach = match us_color {
                    PieceColor::White => enpassant_index >= 8,
                    PieceColor::Black => enpassant_index <= 55,
                };
                if can_reach {
                    let enemy_pawn_index = match us_color {
                        PieceColor::White => enpassant_index - 8,
                        PieceColor::Black => enpassant_index + 8,
                    };
                    if legal_squares.contains_index(enemy_pawn_index) {
                        legal_squares.set_square(enpassant_index);
                    }
                }
            }
        }
        proof {
            assert(legal_squares == spec_legal_squares_ep(p, us_color, legal0));
        }
        generate_moves_for_piece(piece_p, !pinned_pieces_mask, legal_squares, board, &mut res);
        let ghost s_p = spec_piece_moves(piece_p, !pinned_pieces_mask, spec_legal_squares_ep(p,
            us_color, legal0), p);
        proof {
            lemma_cap_app(head + s_r + s_b + s_q + s_n, s_p);
            assert(res@ == cap_moves(head + s_r + s_b + s_q + s_n + s_p));
        }
    }

    let ghost non_king = if popcount(spec_find_attackers(king_bit, us_color,
        p.pieces[enemy_color.ord()], enemy_color_bb | us_color_bb)) <= 1 {
        let pins = spec_pinned_pieces(p, us_color, king_bit);
        let pmask = spec_pins_mask(pins, 0);
        let head = if popcount(spec_find_attackers(king_bit, us_color,
            p.pieces[enemy_color.ord()], enemy_color_bb | us_color_bb)) == 0 {
            spec_pinned_moves(pins, 0, p, us_color) + spec_castles(king_bit, us_pieces_bb@[0],
                us_color_bb | enemy_color_bb, attacks_bb, us_color, p.state)
        } else {
            Seq::<Move>::empty()
        };
        let legal0 = spec_legal_squares(p, king_bit, spec_find_attackers(king_bit, us_color,
            p.pieces[enemy_color.ord()], enemy_color_bb | us_color_bb));
        head + spec_piece_moves(Piece { ptype: PieceType::Rook, color: us_color }, !pmask, legal0, p)
            + spec_piece_moves(Piece { ptype: PieceType::Bishop, color: us_color }, !pmask, legal0,
            p,
        ) + spec_piece_moves(Piece { ptype: PieceType::Queen, color: us_color }, !pmask, legal0, p)
            + spec_piece_moves(Piece { ptype: PieceType::Knight, color: us_color }, !pmask, legal0,
            p,
        ) + spec_piece_moves(Piece { ptype: PieceType::Pawn, color: us_color }, !pmask,
            spec_legal_squares_ep(p, us_color, legal0), p)
    } else {
        Seq::<Move>::empty()
    };
    proof {
        if popcount(spec_find_attackers(king_bit, us_color, p.pieces[enemy_color.ord()],
            enemy_color_bb | us_color_bb)) > 1 {
            assert(res@ =~= cap_moves(non_king));
        } else {
            assert(res@ == cap_moves(non_king));
        }
    }

    if us_pieces_bb[5] != 0 {
        generate_king_moves(
            us_pieces_bb[5],
            us_color_bb,
            attacks_bb,
            Piece::new(PieceType::King, us_color),
            &mut res,
        );
        proof {
            reveal(spec_legal_moves);
            let s_k = spec_king_moves(us_pieces_bb@[5], us_color_bb, attacks_bb, Piece {
                ptype: PieceType::King,
                color: us_color,
            });
            lemma_cap_app(non_king, s_k);
            assert(non_king + s_k =~= spec_legal_moves(p));
            assert(res@ == cap_moves(spec_legal_moves(p)));
        }
    } else {
        proof {
            reveal(spec_legal_moves);
            assert(non_king + Seq::<Move>::empty() =~= spec_legal_moves(p));
            assert(res@ == cap_moves(spec_legal_moves(p)));
        }
    }

    res
}

} // verus!
