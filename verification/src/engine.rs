//! Fixed-depth negamax search with alpha-beta pruning over a material-only
//! evaluation, with an MVV-LVA-style capture-and-promotion move ordering.
//!
//! The search is proved correct against `spec_negamax`, the full-width
//! search value: `alpha_beta` restores the board exactly on every return
//! path and returns a fail-soft value — exact inside its window, an upper
//! bound when it fails low, a lower bound when it fails high — and
//! `play_next_move` plays a move achieving the position's search value
//! whenever that value lies below the window's top.

use crate::bitboard::{count_set_bits, lemma_popcount_le_64, popcount};
use crate::board::{
    lemma_unmake_inverts_make, move_ok, spec_make, Board, Position,
};
use crate::chess_move::Move;
use crate::move_generation::{generate_legal_moves, spec_legal_moves};
use crate::move_list::{cap_moves, lemma_segment_multiset, lemma_swap_multiset, MoveList};
use crate::piece::PieceColor;
use vstd::prelude::*;

verus! {

/// The centipawn weight of piece-type ordinal `t`: rook 500, bishop 330,
/// queen 900, knight 300, pawn 100, king 0, and 0 off the table.
pub open spec fn spec_weight(t: int) -> int {
    if t == 0 {
        500
    } else if t == 1 {
        330
    } else if t == 2 {
        900
    } else if t == 3 {
        300
    } else if t == 4 {
        100
    } else {
        0
    }
}

fn weight_of(t: usize) -> (r: i32)
    ensures
        r == spec_weight(t as int),
        0 <= r <= 900,
{
    if t == 0 {
        500
    } else if t == 1 {
        330
    } else if t == 2 {
        900
    } else if t == 3 {
        300
    } else if t == 4 {
        100
    } else {
        0
    }
}

/// The material balance of a position from White's side, in centipawns.
pub open spec fn spec_material(p: Position) -> int {
    500 * popcount(p.pieces[0][0]) + 330 * popcount(p.pieces[0][1]) + 900 * popcount(p.pieces[0][2])
        + 300 * popcount(p.pieces[0][3]) + 100 * popcount(p.pieces[0][4]) - 500 * popcount(
        p.pieces[1][0],
    ) - 330 * popcount(p.pieces[1][1]) - 900 * popcount(p.pieces[1][2]) - 300 * popcount(
        p.pieces[1][3],
    ) - 100 * popcount(p.pieces[1][4])
}

/// The static evaluation: the material balance signed so that the side to
/// move sees its own advantage as positive.
pub open spec fn spec_eval(p: Position) -> int {
    spec_material(p) * (if p.to_move == PieceColor::White {
        1int
    } else {
        -1int
    })
}

/// The static evaluation stays within the material bound.
pub proof fn lemma_eval_bounds(p: Position)
    ensures
        -136320 <= spec_eval(p) <= 136320,
{
    lemma_popcount_le_64(p.pieces[0][0]);
    lemma_popcount_le_64(p.pieces[0][1]);
    lemma_popcount_le_64(p.pieces[0][2]);
    lemma_popcount_le_64(p.pieces[0][3]);
    lemma_popcount_le_64(p.pieces[0][4]);
    lemma_popcount_le_64(p.pieces[1][0]);
    lemma_popcount_le_64(p.pieces[1][1]);
    lemma_popcount_le_64(p.pieces[1][2]);
    lemma_popcount_le_64(p.pieces[1][3]);
    lemma_popcount_le_64(p.pieces[1][4]);
    let m = spec_material(p);
    assert(m * 1int == m) by (nonlinear_arith);
    assert(m * -1int == -m) by (nonlinear_arith);
}

/// The ordering score of a move: the captured piece's weight minus the
/// mover's for a capture, plus the promotion target's weight.
pub open spec fn spec_move_score(m: Move, p: Position) -> int {
    (match p.squares[m.spec_to() as int] {
        Some(captured) => spec_weight(captured.ptype.ord()) - spec_weight(
            m.moved_piece.ptype.ord(),
        ),
        None => 0int,
    }) + (if m.spec_is_promotion() {
        spec_weight(m.spec_promotion_ord())
    } else {
        0int
    })
}

/// The value of a full-width negamax search `depth` plies deep: the static
/// evaluation at the horizon, and otherwise the best negated child value
/// over the fitting generated moves — the sentinel where none fits, so
/// checkmate and stalemate read alike.
pub open spec fn spec_negamax(p: Position, depth: nat) -> int
    decreases depth, 257int,
    when true
    via spec_negamax_decreases
{
    if depth == 0 {
        spec_eval(p)
    } else {
        spec_negamax_best(p, cap_moves(spec_legal_moves(p)), 0, depth)
    }
}

#[via_fn]
proof fn spec_negamax_decreases(p: Position, depth: nat) {
    if depth > 0 {
        assert(cap_moves(spec_legal_moves(p)).len() <= 255);
    }
}

/// The best negated child value over the fitting moves of `ms` from entry
/// `i` on; the sentinel where no entry fits.
pub open spec fn spec_negamax_best(p: Position, ms: Seq<Move>, i: int, depth: nat) -> int
    decreases depth, ms.len() - i,
    when depth >= 1 && 0 <= i
{
    if i >= ms.len() {
        -0x7fff_ffff
    } else if !move_ok(p, ms[i]) {
        spec_negamax_best(p, ms, i + 1, depth)
    } else {
        let child = -spec_negamax(spec_make(p, ms[i]), (depth - 1) as nat);
        let rest = spec_negamax_best(p, ms, i + 1, depth);
        if child >= rest {
            child
        } else {
            rest
        }
    }
}

/// The search value never leaves the symmetric window that makes negation
/// safe.
pub proof fn lemma_negamax_bounds(p: Position, depth: nat)
    ensures
        -0x7fff_ffff <= spec_negamax(p, depth) <= 0x7fff_ffff,
    decreases depth, 257int,
{
    if depth == 0 {
        lemma_eval_bounds(p);
    } else {
        let ms = cap_moves(spec_legal_moves(p));
        assert(ms.len() <= 255);
        lemma_negamax_best_bounds(p, ms, 0, depth);
    }
}

/// As `lemma_negamax_bounds`, for the per-entry maximum.
pub proof fn lemma_negamax_best_bounds(p: Position, ms: Seq<Move>, i: int, depth: nat)
    requires
        depth >= 1,
        0 <= i,
    ensures
        -0x7fff_ffff <= spec_negamax_best(p, ms, i, depth) <= 0x7fff_ffff,
    decreases depth, (if i <= ms.len() {
        ms.len() - i
    } else {
        0int
    }),
{
    if i < ms.len() {
        lemma_negamax_best_bounds(p, ms, i + 1, depth);
        if move_ok(p, ms[i]) {
            lemma_negamax_bounds(spec_make(p, ms[i]), (depth - 1) as nat);
        }
    }
}

/// The per-entry maximum dominates every fitting entry's negated child
/// value, and is the sentinel or achieved by some fitting entry.
pub proof fn lemma_negamax_best_props(p: Position, ms: Seq<Move>, i: int, depth: nat)
    requires
        depth >= 1,
        0 <= i <= ms.len(),
    ensures
        forall|j: int|
            i <= j < ms.len() && #[trigger] move_ok(p, ms[j]) ==> spec_negamax_best(p, ms, i, depth)
                >= -spec_negamax(spec_make(p, ms[j]), (depth - 1) as nat),
        spec_negamax_best(p, ms, i, depth) == -0x7fff_ffff || exists|j: int|
            i <= j < ms.len() && #[trigger] move_ok(p, ms[j]) && spec_negamax_best(p, ms, i, depth)
                == -spec_negamax(spec_make(p, ms[j]), (depth - 1) as nat),
    decreases ms.len() - i,
{
    if i < ms.len() {
        lemma_negamax_best_props(p, ms, i + 1, depth);
    }
}

/// The per-entry maximum does not depend on the order of the entries.
pub proof fn lemma_negamax_best_permutation(p: Position, ms1: Seq<Move>, ms2: Seq<Move>, depth: nat)
    requires
        depth >= 1,
        ms1.to_multiset() == ms2.to_multiset(),
    ensures
        spec_negamax_best(p, ms1, 0, depth) == spec_negamax_best(p, ms2, 0, depth),
{
    broadcast use vstd::seq_lib::group_to_multiset_ensures;

    lemma_negamax_best_props(p, ms1, 0, depth);
    lemma_negamax_best_props(p, ms2, 0, depth);
    lemma_negamax_best_bounds(p, ms1, 0, depth);
    lemma_negamax_best_bounds(p, ms2, 0, depth);
    let b1 = spec_negamax_best(p, ms1, 0, depth);
    let b2 = spec_negamax_best(p, ms2, 0, depth);
    assert(b1 >= b2) by {
        if b2 != -0x7fff_ffff {
            let j2 = choose|j: int|
                0 <= j < ms2.len() && #[trigger] move_ok(p, ms2[j]) && b2 == -spec_negamax(
                    spec_make(p, ms2[j]),
                    (depth - 1) as nat,
                );
            assert(ms2.contains(ms2[j2]));
            assert(ms1.to_multiset().count(ms2[j2]) > 0);
            assert(ms1.contains(ms2[j2]));
            let j1 = choose|j: int| 0 <= j < ms1.len() && ms1[j] == ms2[j2];
            assert(move_ok(p, ms1[j1]));
            assert(b1 >= -spec_negamax(spec_make(p, ms1[j1]), (depth - 1) as nat));
        }
    }
    assert(b2 >= b1) by {
        if b1 != -0x7fff_ffff {
            let j1 = choose|j: int|
                0 <= j < ms1.len() && #[trigger] move_ok(p, ms1[j]) && b1 == -spec_negamax(
                    spec_make(p, ms1[j]),
                    (depth - 1) as nat,
                );
            assert(ms1.contains(ms1[j1]));
            assert(ms2.to_multiset().count(ms1[j1]) > 0);
            assert(ms2.contains(ms1[j1]));
            let j2 = choose|j: int| 0 <= j < ms2.len() && ms2[j] == ms1[j1];
            assert(move_ok(p, ms2[j2]));
            assert(b2 >= -spec_negamax(spec_make(p, ms2[j2]), (depth - 1) as nat));
        }
    }
}

/// Evaluates the position: material only, from the side to move.
pub fn eval(board: &Board) -> (r: i32)
    ensures
        r == spec_eval(board.pos()),
        -136320 <= r <= 136320,
{
    let pieces = board.get_pieces_bb();
    proof {
        lemma_popcount_le_64(pieces@[0][0]);
        lemma_popcount_le_64(pieces@[0][1]);
        lemma_popcount_le_64(pieces@[0][2]);
        lemma_popcount_le_64(pieces@[0][3]);
        lemma_popcount_le_64(pieces@[0][4]);
        lemma_popcount_le_64(pieces@[1][0]);
        lemma_popcount_le_64(pieces@[1][1]);
        lemma_popcount_le_64(pieces@[1][2]);
        lemma_popcount_le_64(pieces@[1][3]);
        lemma_popcount_le_64(pieces@[1][4]);
    }
    let wr = count_set_bits(pieces[0][0]) as i32;
    let wb = count_set_bits(pieces[0][1]) as i32;
    let wq = count_set_bits(pieces[0][2]) as i32;
    let wn = count_set_bits(pieces[0][3]) as i32;
    let wp = count_set_bits(pieces[0][4]) as i32;
    let br = count_set_bits(pieces[1][0]) as i32;
    let bb = count_set_bits(pieces[1][1]) as i32;
    let bq = count_set_bits(pieces[1][2]) as i32;
    let bn = count_set_bits(pieces[1][3]) as i32;
    let bp = count_set_bits(pieces[1][4]) as i32;
    let material = 500 * wr + 330 * wb + 900 * wq + 300 * wn + 100 * wp - 500 * br - 330 * bb - 900
        * bq - 300 * bn - 100 * bp;
    proof {
        assert(material == spec_material(board.pos()));
        assert(spec_material(board.pos()) * 1int == spec_material(board.pos()))
            by (nonlinear_arith);
        assert(spec_material(board.pos()) * -1int == -spec_material(board.pos()))
            by (nonlinear_arith);
    }
    match board.get_color_to_move() {
        PieceColor::White => material,
        PieceColor::Black => -material,
    }
}

/// Partitions `moves[low..=high]` around the score of the last entry:
/// strictly larger scores to the left of the returned pivot position,
/// smaller or equal scores to its right. The move and score arrays move in
/// lockstep, entries outside the segment stay put, and the moves are only
/// permuted.
fn partition(
    moves: &mut MoveList,
    scores: &mut Vec<i32>,
    low: isize,
    high: isize,
    Ghost(p): Ghost<Position>,
) -> (r: isize)
    requires
        old(scores)@.len() == old(moves)@.len(),
        0 <= low <= high < old(moves)@.len(),
        forall|t: int|
            0 <= t < old(moves)@.len() ==> old(scores)@[t] as int == spec_move_score(
                #[trigger] old(moves)@[t],
                p,
            ),
    ensures
        final(moves)@.to_multiset() == old(moves)@.to_multiset(),
        final(moves)@.len() == old(moves)@.len(),
        final(scores)@.len() == old(scores)@.len(),
        forall|t: int|
            0 <= t < final(moves)@.len() ==> final(scores)@[t] as int == spec_move_score(
                #[trigger] final(moves)@[t],
                p,
            ),
        forall|t: int|
            0 <= t < final(moves)@.len() && !(low <= t <= high) ==> final(moves)@[t] == old(
                moves,
            )@[t],
        low <= r <= high,
        forall|t: int|
            low <= t < r ==> spec_move_score(#[trigger] final(moves)@[t], p) > spec_move_score(
                final(moves)@[r as int],
                p,
            ),
        forall|t: int|
            r < t <= high ==> spec_move_score(#[trigger] final(moves)@[t], p) <= spec_move_score(
                final(moves)@[r as int],
                p,
            ),
{
    let pivot_score = scores[high as usize];
    let mut i = low - 1;

    let mut j = low;
    while j < high
        invariant
            0 <= low,
            low - 1 <= i < j <= high,
            high < moves@.len(),
            scores@.len() == moves@.len(),
            moves@.len() == old(moves)@.len(),
            scores@.len() == old(scores)@.len(),
            moves@.to_multiset() == old(moves)@.to_multiset(),
            forall|t: int|
                0 <= t < moves@.len() ==> scores@[t] as int == spec_move_score(
                    #[trigger] moves@[t],
                    p,
                ),
            forall|t: int|
                0 <= t < moves@.len() && !(low <= t <= high) ==> moves@[t] == old(moves)@[t],
            scores@[high as int] == pivot_score,
            forall|t: int|
                low <= t <= i ==> spec_move_score(#[trigger] moves@[t], p) > pivot_score as int,
            forall|t: int|
                i < t < j ==> spec_move_score(#[trigger] moves@[t], p) <= pivot_score as int,
        decreases high - j,
    {
        if scores[j as usize] > pivot_score {
            i = i + 1;
            proof {
                lemma_swap_multiset(moves@, i as int, j as int);
            }
            moves.swap(i as usize, j as usize);
            let si = scores[i as usize];
            let sj = scores[j as usize];
            scores.set(i as usize, sj);
            scores.set(j as usize, si);
        }
        j = j + 1;
    }

    proof {
        lemma_swap_multiset(moves@, (i + 1) as int, high as int);
    }
    moves.swap((i + 1) as usize, high as usize);
    let si = scores[(i + 1) as usize];
    let sh = scores[high as usize];
    scores.set((i + 1) as usize, sh);
    scores.set(high as usize, si);

    i + 1
}

/// Quicksorts `moves[low..=high]` by score, larger first, with Lomuto
/// partitioning on the parallel score array; entries outside the segment
/// stay put and the moves are only permuted.
fn quick_sort(
    moves: &mut MoveList,
    scores: &mut Vec<i32>,
    low: isize,
    high: isize,
    Ghost(p): Ghost<Position>,
)
    requires
        old(scores)@.len() == old(moves)@.len(),
        0 <= low,
        high < old(moves)@.len(),
        forall|t: int|
            0 <= t < old(moves)@.len() ==> old(scores)@[t] as int == spec_move_score(
                #[trigger] old(moves)@[t],
                p,
            ),
    ensures
        final(moves)@.to_multiset() == old(moves)@.to_multiset(),
        final(moves)@.len() == old(moves)@.len(),
        final(scores)@.len() == old(scores)@.len(),
        forall|t: int|
            0 <= t < final(moves)@.len() ==> final(scores)@[t] as int == spec_move_score(
                #[trigger] final(moves)@[t],
                p,
            ),
        forall|t: int|
            0 <= t < final(moves)@.len() && !(low <= t <= high) ==> final(moves)@[t] == old(
                moves,
            )@[t],
        forall|a: int, b: int|
            low <= a < b <= high ==> spec_move_score(#[trigger] final(moves)@[a], p)
                >= spec_move_score(#[trigger] final(moves)@[b], p),
    decreases high - low + 1,
{
    if low < high {
        let ghost before = moves@;
        let pivot_index = partition(moves, scores, low, high, Ghost(p));
        let ghost after_part = moves@;
        let ghost pivot_move = moves@[pivot_index as int];
        quick_sort(moves, scores, low, pivot_index - 1, Ghost(p));
        let ghost after_left = moves@;
        proof {
            broadcast use vstd::seq_lib::group_to_multiset_ensures;

            if low <= pivot_index - 1 {
                lemma_segment_multiset(after_left, after_part, low as int, pivot_index - 1);
            }
            assert forall|t: int|
                low <= t < pivot_index implies spec_move_score(
                #[trigger] after_left[t],
                p,
            ) > spec_move_score(pivot_move, p) by {
                let seg_new = after_left.subrange(low as int, pivot_index as int);
                let seg_old = after_part.subrange(low as int, pivot_index as int);
                assert(seg_new[t - low] == after_left[t]);
                assert(seg_new.contains(after_left[t]));
                assert(seg_old.to_multiset().count(after_left[t]) > 0);
                assert(seg_old.contains(after_left[t]));
                let u = choose|u: int| 0 <= u < seg_old.len() && seg_old[u] == after_left[t];
                assert(after_part[low + u] == after_left[t]);
            }
        }
        quick_sort(moves, scores, pivot_index + 1, high, Ghost(p));
        proof {
            broadcast use vstd::seq_lib::group_to_multiset_ensures;

            let after_right = moves@;
            if pivot_index + 1 <= high {
                lemma_segment_multiset(after_right, after_left, pivot_index + 1, high as int);
            }
            assert(after_right[pivot_index as int] == pivot_move);
            assert forall|t: int|
                pivot_index < t <= high implies spec_move_score(
                #[trigger] after_right[t],
                p,
            ) <= spec_move_score(pivot_move, p) by {
                let seg_new = after_right.subrange(pivot_index + 1, high + 1);
                let seg_old = after_left.subrange(pivot_index + 1, high + 1);
                assert(seg_new[t - (pivot_index + 1)] == after_right[t]);
                assert(seg_new.contains(after_right[t]));
                assert(seg_old.to_multiset().count(after_right[t]) > 0);
                assert(seg_old.contains(after_right[t]));
                let u = choose|u: int| 0 <= u < seg_old.len() && seg_old[u] == after_right[t];
                assert(after_left[pivot_index + 1 + u] == after_right[t]);
                assert(after_part[pivot_index + 1 + u] == after_right[t]);
            }
            assert forall|a: int, b: int|
                low <= a < b <= high implies spec_move_score(#[trigger] after_right[a], p)
                >= spec_move_score(#[trigger] after_right[b], p) by {
                if b < pivot_index {
                    assert(after_right[a] == after_left[a] && after_right[b] == after_left[b]);
                } else if b == pivot_index {
                    assert(after_right[a] == after_left[a]);
                } else if a > pivot_index {
                } else if a == pivot_index {
                } else {
                    assert(after_right[a] == after_left[a]);
                }
            }
        }
    }
}

/// Orders the move list for search: captures scored as victim weight minus
/// attacker weight, promotions by the promotion target's weight, best
/// first. The list is only permuted.
pub fn order_moves(moves: &mut MoveList, board: &Board)
    ensures
        final(moves)@.to_multiset() == old(moves)@.to_multiset(),
        final(moves)@.len() == old(moves)@.len(),
        forall|a: int, b: int|
            0 <= a < b < final(moves)@.len() ==> spec_move_score(#[trigger] final(moves)@[a],
                board.pos(),
            ) >= spec_move_score(#[trigger] final(moves)@[b], board.pos()),
{
    let n = moves.len() as usize;
    let mut scores: Vec<i32> = Vec::new();
    let mut i: usize = 0;
    while i < n
        invariant
            i <= n,
            n == moves@.len(),
            moves@ == old(moves)@,
            scores@.len() == i,
            forall|t: int|
                0 <= t < i ==> scores@[t] as int == spec_move_score(
                    #[trigger] moves@[t],
                    board.pos(),
                ),
        decreases n - i,
    {
        let m = moves.get(i);
        let mut score: i32 = 0;
        if let Some(captured_piece) = board.get_piece_at(m.get_to()) {
            score = weight_of(captured_piece.get_type().idx()) - weight_of(
                m.get_moved_piece().get_type().idx(),
            );
        }
        if m.is_promotion() {
            score = score + weight_of(m.promotion_ord() as usize);
        }
        scores.push(score);
        i = i + 1;
    }

    if n > 0 {
        quick_sort(moves, &mut scores, 0, n as isize - 1, Ghost(board.pos()));
    }
}

/// Negamax with alpha-beta pruning: evaluates the position `depth` plies
/// deep and leaves the board exactly as it found it. A position without
/// moves scores as the most negative value, checkmate and stalemate alike.
/// The result is fail-soft against the full-width value `spec_negamax`:
/// exact when it lies strictly inside the window, an upper bound on the
/// true value when at most `alpha`, a lower bound when at least `beta`.
#[verifier::rlimit(100)]
#[verifier::spinoff_prover]
pub fn alpha_beta(board: &mut Board, alpha: i32, beta: i32, depth: u8) -> (r: i32)
    requires
        -0x7fff_ffff <= alpha <= 0x7fff_ffff,
        -0x7fff_ffff <= beta <= 0x7fff_ffff,
    ensures
        final(board).pos() == old(board).pos(),
        final(board).cached_moves() == old(board).cached_moves(),
        -0x7fff_ffff <= r <= 0x7fff_ffff,
        depth == 0 ==> r == spec_eval(old(board).pos()),
        depth > 0 && cap_moves(spec_legal_moves(old(board).pos())).len() == 0 ==> r
            == -0x7fff_ffff,
        alpha < beta && r <= alpha ==> spec_negamax(old(board).pos(), depth as nat) <= r,
        alpha < beta && r >= beta ==> spec_negamax(old(board).pos(), depth as nat) >= r,
        alpha < r < beta ==> r == spec_negamax(old(board).pos(), depth as nat),
    decreases depth,
{
    let ghost p0 = old(board).pos();
    if depth == 0 {
        return eval(board);
    }

    let mut max_eval: i32 = -0x7fff_ffff;
    let mut cur_alpha = alpha;

    let mut legal_moves = generate_legal_moves(board);
    if legal_moves.len() == 0 {
        proof {
            assert(spec_negamax(p0, depth as nat) == -0x7fff_ffff);
        }
        return max_eval;
    }
    order_moves(&mut legal_moves, board);
    let ghost lmseq = legal_moves@;
    let ghost truev = spec_negamax(p0, depth as nat);
    proof {
        if alpha < beta {
            lemma_negamax_best_permutation(
                p0,
                cap_moves(spec_legal_moves(p0)),
                lmseq,
                depth as nat,
            );
            lemma_negamax_best_props(p0, lmseq, 0, depth as nat);
            lemma_negamax_bounds(p0, depth as nat);
            assert(truev == spec_negamax_best(p0, lmseq, 0, depth as nat));
        }
    }

    let n = legal_moves.len() as usize;
    let mut k: usize = 0;
    while k < n
        invariant
            depth >= 1,
            n == legal_moves@.len(),
            n > 0,
            n == cap_moves(spec_legal_moves(old(board).pos())).len(),
            board.pos() == old(board).pos(),
            board.cached_moves() == old(board).cached_moves(),
            -0x7fff_ffff <= cur_alpha <= 0x7fff_ffff,
            -0x7fff_ffff <= max_eval <= 0x7fff_ffff,
            -0x7fff_ffff <= beta <= 0x7fff_ffff,
            -0x7fff_ffff <= alpha <= 0x7fff_ffff,
            p0 == old(board).pos(),
            lmseq == legal_moves@,
            alpha < beta ==> {
                &&& truev == spec_negamax(p0, depth as nat)
                &&& truev == spec_negamax_best(p0, lmseq, 0, depth as nat)
                &&& -0x7fff_ffff <= truev <= 0x7fff_ffff
                &&& cur_alpha == (if max_eval > alpha {
                    max_eval as int
                } else {
                    alpha as int
                })
                &&& (max_eval == -0x7fff_ffff || max_eval < beta)
                &&& (forall|j: int|
                    0 <= j < n && #[trigger] move_ok(p0, lmseq[j]) ==> truev >= -spec_negamax(
                        spec_make(p0, lmseq[j]),
                        (depth - 1) as nat,
                    ))
                &&& (max_eval > alpha ==> truev >= max_eval)
                &&& truev <= (if max_eval as int >= spec_negamax_best(p0, lmseq, k as int,
                    depth as nat,
                ) {
                    max_eval as int
                } else {
                    spec_negamax_best(p0, lmseq, k as int, depth as nat)
                })
            },
        decreases n - k,
    {
        let m = legal_moves.get(k);
        if board.move_fits(m) {
            let ghost pre = board.pos();
            board.make_move(m);
            let this_move_eval = -alpha_beta(board, -beta, -cur_alpha, depth - 1);
            board.unmake_move(m);
            proof {
                lemma_unmake_inverts_make(pre, m);
                if alpha < beta {
                    let dm1 = (depth - 1) as nat;
                    let child = spec_make(p0, m);
                    lemma_negamax_bounds(child, dm1);
                    assert(cur_alpha < beta);
                    let candidate = -spec_negamax(child, dm1);
                    if this_move_eval >= beta {
                        // the child failed low in its window, so the true
                        // child value is at most what it returned
                        assert(candidate >= this_move_eval);
                    } else if this_move_eval <= cur_alpha {
                        assert(candidate <= this_move_eval);
                    } else {
                        assert(candidate == this_move_eval);
                    }
                    assert(spec_negamax_best(p0, lmseq, k as int, depth as nat) == (if candidate
                        >= spec_negamax_best(p0, lmseq, k as int + 1, depth as nat) {
                        candidate
                    } else {
                        spec_negamax_best(p0, lmseq, k as int + 1, depth as nat)
                    }));
                }
            }

            if this_move_eval > max_eval {
                max_eval = this_move_eval;
                if this_move_eval > cur_alpha {
                    cur_alpha = this_move_eval;
                }
            }

            if this_move_eval >= beta {
                proof {
                    if alpha < beta {
                        assert(max_eval == this_move_eval);
                        assert(truev >= -spec_negamax(spec_make(p0, lmseq[k as int]), (depth
                            - 1) as nat));
                        assert(truev >= max_eval);
                    }
                }
                return max_eval;
            }
        } else {
            proof {
                if alpha < beta {
                    assert(spec_negamax_best(p0, lmseq, k as int, depth as nat)
                        == spec_negamax_best(p0, lmseq, k as int + 1, depth as nat));
                }
            }
        }
        k = k + 1;
    }
    proof {
        if alpha < beta {
            assert(spec_negamax_best(p0, lmseq, n as int, depth as nat) == -0x7fff_ffff);
            assert(truev <= max_eval);
        }
    }
    max_eval
}

/// Searches `depth` plies and plays the best move found on the board.
/// Whenever any generated move fits the position a move is played and
/// returned, and so long as the position's search value stays below the
/// window's top the played move achieves exactly that value; `None` comes
/// only with no playable move (checkmate or stalemate), and then the board
/// is unchanged.
#[verifier::rlimit(100)]
#[verifier::spinoff_prover]
pub fn play_next_move(board: &mut Board, depth: u8) -> (r: Option<Move>)
    requires
        depth >= 1,
    ensures
        final(board).cached_moves() == old(board).cached_moves(),
        r matches Some(mv) ==> {
            &&& move_ok(old(board).pos(), mv)
            &&& cap_moves(spec_legal_moves(old(board).pos())).to_multiset().count(mv) > 0
            &&& final(board).pos() == spec_make(old(board).pos(), mv)
        },
        r is None ==> final(board).pos() == old(board).pos(),
        cap_moves(spec_legal_moves(old(board).pos())).len() == 0 ==> r is None,
        (exists|i: int|
            0 <= i < cap_moves(spec_legal_moves(old(board).pos())).len() && move_ok(
                old(board).pos(),
                #[trigger] cap_moves(spec_legal_moves(old(board).pos()))[i],
            )) ==> r is Some,
        r matches Some(mv) ==> (spec_negamax(old(board).pos(), depth as nat) < 0x7fff_fffe
            ==> -spec_negamax(spec_make(old(board).pos(), mv), (depth - 1) as nat) == spec_negamax(
            old(board).pos(),
            depth as nat,
        )),
{
    broadcast use vstd::seq_lib::group_to_multiset_ensures;

    let mut best_move: Option<Move> = None;
    let mut max_eval: i32 = i32::MIN;
    let mut cur_alpha: i32 = -0x7fff_ffff;
    let beta: i32 = 0x7fff_fffe;

    let mut legal_moves = generate_legal_moves(board);
    order_moves(&mut legal_moves, board);
    let ghost p0 = old(board).pos();
    let ghost lmseq = legal_moves@;
    let ghost truev = spec_negamax(p0, depth as nat);
    proof {
        lemma_negamax_best_permutation(p0, cap_moves(spec_legal_moves(p0)), lmseq, depth as nat);
        lemma_negamax_best_props(p0, lmseq, 0, depth as nat);
        lemma_negamax_bounds(p0, depth as nat);
        assert(truev == spec_negamax_best(p0, lmseq, 0, depth as nat));
    }

    let n = legal_moves.len() as usize;
    let mut k: usize = 0;
    while k < n
        invariant
            depth >= 1,
            n == legal_moves@.len(),
            legal_moves@.to_multiset() == cap_moves(
                spec_legal_moves(old(board).pos()),
            ).to_multiset(),
            board.pos() == old(board).pos(),
            board.cached_moves() == old(board).cached_moves(),
            beta == 0x7fff_fffe,
            -0x7fff_ffff <= cur_alpha <= 0x7fff_ffff,
            i32::MIN <= max_eval <= 0x7fff_ffff,
            best_move is None <==> max_eval == i32::MIN,
            best_move is None ==> (forall|j: int|
                0 <= j < k ==> !move_ok(old(board).pos(), #[trigger] legal_moves@[j])),
            best_move matches Some(mv) ==> {
                &&& move_ok(old(board).pos(), mv)
                &&& cap_moves(spec_legal_moves(old(board).pos())).to_multiset().count(mv) > 0
            },
            p0 == old(board).pos(),
            lmseq == legal_moves@,
            truev == spec_negamax(p0, depth as nat),
            truev == spec_negamax_best(p0, lmseq, 0, depth as nat),
            -0x7fff_ffff <= truev <= 0x7fff_ffff,
            forall|j: int|
                0 <= j < n && #[trigger] move_ok(p0, lmseq[j]) ==> truev >= -spec_negamax(
                    spec_make(p0, lmseq[j]),
                    (depth - 1) as nat,
                ),
            truev < 0x7fff_fffe ==> {
                &&& cur_alpha == (if max_eval > -0x7fff_ffff {
                    max_eval as int
                } else {
                    -0x7fff_ffff
                })
                &&& max_eval < 0x7fff_fffe
                &&& (best_move matches Some(mv) ==> -spec_negamax(spec_make(p0, mv), (depth
                    - 1) as nat) <= max_eval)
                &&& (best_move matches Some(mv) ==> (max_eval > -0x7fff_ffff ==> -spec_negamax(
                    spec_make(p0, mv),
                    (depth - 1) as nat,
                ) == max_eval))
                &&& (best_move is Some ==> truev >= max_eval)
                &&& truev <= (if best_move is Some && max_eval as int >= spec_negamax_best(p0,
                    lmseq, k as int, depth as nat) {
                    max_eval as int
                } else {
                    spec_negamax_best(p0, lmseq, k as int, depth as nat)
                })
            },
        decreases n - k,
    {
        let m = legal_moves.get(k);
        if board.move_fits(m) {
            let ghost pre = board.pos();
            board.make_move(m);
            let this_move_eval = -alpha_beta(board, -beta, -cur_alpha, depth - 1);
            board.unmake_move(m);
            proof {
                lemma_unmake_inverts_make(pre, m);
                assert(legal_moves@.contains(m));
                assert(legal_moves@.to_multiset().count(m) > 0) by {
                    broadcast use vstd::seq_lib::group_to_multiset_ensures;
                }
                if truev < 0x7fff_fffe {
                    let dm1 = (depth - 1) as nat;
                    let child = spec_make(p0, m);
                    lemma_negamax_bounds(child, dm1);
                    let candidate = -spec_negamax(child, dm1);
                    assert(truev >= candidate);
                    if this_move_eval >= beta {
                        // a root fail-high would put the candidate above the
                        // whole position's value: impossible below the cap
                        assert(candidate >= this_move_eval);
                        assert(false);
                    } else if this_move_eval <= cur_alpha {
                        assert(candidate <= this_move_eval);
                    } else {
                        assert(candidate == this_move_eval);
                    }
                    assert(spec_negamax_best(p0, lmseq, k as int, depth as nat) == (if candidate
                        >= spec_negamax_best(p0, lmseq, k as int + 1, depth as nat) {
                        candidate
                    } else {
                        spec_negamax_best(p0, lmseq, k as int + 1, depth as nat)
                    }));
                }
            }
            if this_move_eval > max_eval {
                max_eval = this_move_eval;
                best_move = Some(m);
                cur_alpha = this_move_eval;
            }
        } else {
            proof {
                if truev < 0x7fff_fffe {
                    assert(spec_negamax_best(p0, lmseq, k as int, depth as nat)
                        == spec_negamax_best(p0, lmseq, k as int + 1, depth as nat));
                }
            }
        }
        k = k + 1;
    }
    proof {
        if truev < 0x7fff_fffe && best_move is Some {
            assert(spec_negamax_best(p0, lmseq, n as int, depth as nat) == -0x7fff_ffff);
            assert(truev <= max_eval);
            assert(truev == max_eval);
            let mv = best_move->Some_0;
            if max_eval > -0x7fff_ffff {
                assert(-spec_negamax(spec_make(p0, mv), (depth - 1) as nat) == max_eval);
            } else {
                assert(max_eval == -0x7fff_ffff);
                lemma_negamax_bounds(spec_make(p0, mv), (depth - 1) as nat);
                assert(-spec_negamax(spec_make(p0, mv), (depth - 1) as nat) <= max_eval);
            }
        }
    }

    proof {
        let p0 = old(board).pos();
        let generated = cap_moves(spec_legal_moves(p0));
        if best_move is None && exists|i: int|
            0 <= i < generated.len() && move_ok(p0, #[trigger] generated[i]) {
            let i = choose|i: int| 0 <= i < generated.len() && move_ok(p0, #[trigger] generated[i]);
            assert(generated.contains(generated[i]));
            assert(legal_moves@.to_multiset().count(generated[i]) > 0);
            assert(legal_moves@.contains(generated[i]));
            let j = choose|j: int| 0 <= j < legal_moves@.len() && legal_moves@[j] == generated[i];
            assert(!move_ok(p0, legal_moves@[j]));
            assert(false);
        }
    }
    match best_move {
        Some(mv) => {
            board.make_move(mv);
            Some(mv)
        },
        None => None,
    }
}

} // verus!
