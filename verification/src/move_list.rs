//! A fixed-capacity move buffer: an inline array of 255 moves and a length.
//!
//! 218 is the known upper bound on the number of legal moves in any chess
//! position, so the buffer never fills in play; a push against a full buffer
//! leaves it unchanged, which every contract states through `cap_moves`.

use crate::bitboard::{bit, clear_ls1b, lemma_bit_ops, lemma_clear_ls1b_decreases, Bitmanip};
use crate::chess_move::{spec_new_move, Move};
use crate::piece::{Piece, PieceColor, PieceType};
use crate::tables::PROMOTION_RANKS;
use vstd::prelude::*;
use vstd::std_specs::bits::u64_trailing_zeros;

verus! {

/// A move sequence truncated to the buffer capacity.
pub open spec fn cap_moves(s: Seq<Move>) -> Seq<Move> {
    if s.len() <= 255 {
        s
    } else {
        s.take(255)
    }
}

/// Capping distributes over appending: capping, appending more, and capping
/// again is the same as capping the whole.
pub proof fn lemma_cap_app(s: Seq<Move>, t: Seq<Move>)
    ensures
        cap_moves(cap_moves(s) + t) == cap_moves(s + t),
{
    if s.len() <= 255 {
    } else {
        if s.take(255).len() + t.len() <= 255 {
            assert(t.len() == 0);
            assert(s.take(255) + t =~= s.take(255));
            assert((s + t).take(255) =~= s.take(255));
        } else {
            assert((s.take(255) + t).take(255) =~= (s + t).take(255));
        }
    }
}

/// The plain moves of `piece` from `from` to each set bit of `bb`, in
/// ascending square order.
pub open spec fn spec_moves_of_bb(bb: u64, from: u64, piece: Piece) -> Seq<Move>
    decreases bb,
    via spec_moves_of_bb_decreases
{
    if bb == 0 {
        Seq::empty()
    } else {
        seq![spec_new_move(from, u64_trailing_zeros(bb) as u64, piece)] + spec_moves_of_bb(
            clear_ls1b(bb),
            from,
            piece,
        )
    }
}

#[via_fn]
proof fn spec_moves_of_bb_decreases(bb: u64, from: u64, piece: Piece) {
    if bb != 0 {
        lemma_clear_ls1b_decreases(bb);
    }
}

/// The four promotion moves expanded from a pawn arriving at `to`, in the
/// fixed target order rook, bishop, queen, knight.
pub open spec fn spec_promotions_at(to: u64, offset: int, piece: Piece) -> Seq<Move> {
    let m = spec_new_move(((to + offset) as u64), to, piece);
    seq![
        m.spec_with_promotion(PieceType::Rook),
        m.spec_with_promotion(PieceType::Bishop),
        m.spec_with_promotion(PieceType::Queen),
        m.spec_with_promotion(PieceType::Knight),
    ]
}

/// The promotion moves of each set bit of `bb`, ascending; the origin of each
/// is its destination displaced by `offset`.
pub open spec fn spec_promotion_moves(bb: u64, offset: int, piece: Piece) -> Seq<Move>
    decreases bb,
    via spec_promotion_moves_decreases
{
    if bb == 0 {
        Seq::empty()
    } else {
        spec_promotions_at(u64_trailing_zeros(bb) as u64, offset, piece) + spec_promotion_moves(
            clear_ls1b(bb),
            offset,
            piece,
        )
    }
}

#[via_fn]
proof fn spec_promotion_moves_decreases(bb: u64, offset: int, piece: Piece) {
    if bb != 0 {
        lemma_clear_ls1b_decreases(bb);
    }
}

/// The pawn moves to each set bit of `bb` (no promotion expansion); the
/// origin of each is its destination displaced by `offset`.
pub open spec fn spec_pawn_moves_plain(bb: u64, offset: int, piece: Piece) -> Seq<Move>
    decreases bb,
    via spec_pawn_moves_plain_decreases
{
    if bb == 0 {
        Seq::empty()
    } else {
        let to = u64_trailing_zeros(bb) as u64;
        seq![spec_new_move(((to + offset) as u64), to, piece)] + spec_pawn_moves_plain(
            clear_ls1b(bb),
            offset,
            piece,
        )
    }
}

#[via_fn]
proof fn spec_pawn_moves_plain_decreases(bb: u64, offset: int, piece: Piece) {
    if bb != 0 {
        lemma_clear_ls1b_decreases(bb);
    }
}

/// As `spec_pawn_moves_plain`, but the move landing on `enpassant_index`
/// carries the en-passant flag.
pub open spec fn spec_pawn_moves_ep(bb: u64, offset: int, enpassant_index: u64, piece: Piece) -> Seq<
    Move,
>
    decreases bb,
    via spec_pawn_moves_ep_decreases
{
    if bb == 0 {
        Seq::empty()
    } else {
        let to = u64_trailing_zeros(bb) as u64;
        let m = spec_new_move(((to + offset) as u64), to, piece);
        let m2 = if to == enpassant_index {
            m.spec_with_enpassant()
        } else {
            m
        };
        seq![m2] + spec_pawn_moves_ep(clear_ls1b(bb), offset, enpassant_index, piece)
    }
}

#[via_fn]
proof fn spec_pawn_moves_ep_decreases(bb: u64, offset: int, enpassant_index: u64, piece: Piece) {
    if bb != 0 {
        lemma_clear_ls1b_decreases(bb);
    }
}

/// What a batch of pawn pushes appends: the non-promotion moves first, then
/// the promotion expansions of the back-rank arrivals.
pub open spec fn spec_pawn_pushes_all(bb: u64, offset: int, piece: Piece) -> Seq<Move> {
    spec_pawn_moves_plain(bb & !PROMOTION_RANKS, offset, piece) + spec_promotion_moves(
        bb & PROMOTION_RANKS,
        offset,
        piece,
    )
}

/// What a batch of pawn captures appends. With an en-passant target the
/// promotion expansions come first and the landing on the target is flagged;
/// without one the batch reads as a push batch.
pub open spec fn spec_pawn_attacks_all(
    bb: u64,
    offset: int,
    opt_enpassant: Option<u64>,
    piece: Piece,
) -> Seq<Move> {
    match opt_enpassant {
        Some(ep) => spec_promotion_moves(bb & PROMOTION_RANKS, offset, piece)
            + spec_pawn_moves_ep(bb & !PROMOTION_RANKS, offset, ep, piece),
        None => spec_pawn_pushes_all(bb, offset, piece),
    }
}

/// Every set bit of `bb`, displaced by `offset`, stays on the board.
pub open spec fn offsets_on_board(bb: u64, offset: int) -> bool {
    forall|t: u64| t < 64 && #[trigger] bit(bb, t) ==> 0 <= t + offset < 64
}

/// Set bits survive intersection only where the original word had them.
pub proof fn lemma_and_bits_subset(x: u64, m: u64)
    ensures
        forall|t: u64| t < 64 && #[trigger] bit(x & m, t) ==> bit(x, t),
{
    assert forall|t: u64| t < 64 && #[trigger] bit(x & m, t) implies bit(x, t) by {
        lemma_bit_ops(t);
    }
}

/// Exchanging two entries of a sequence keeps its multiset of elements.
pub proof fn lemma_swap_multiset<A>(s: Seq<A>, i: int, j: int)
    requires
        0 <= i < s.len(),
        0 <= j < s.len(),
    ensures
        s.update(i, s[j]).update(j, s[i]).to_multiset() == s.to_multiset(),
{
    broadcast use vstd::seq_lib::group_to_multiset_ensures;

    if i == j {
        assert(s.update(i, s[j]).update(j, s[i]) =~= s);
    } else {
        let t = s.update(i, s[j]);
        vstd::seq_lib::to_multiset_update(s, i, s[j]);
        vstd::seq_lib::to_multiset_update(t, j, s[i]);
        assert(t[j] == s[j]);
        assert(t.update(j, s[i]).to_multiset() =~= s.to_multiset());
    }
}

/// Two sequences of the same multiset that agree outside a segment have the
/// same multiset on the segment too.
pub proof fn lemma_segment_multiset<A>(s1: Seq<A>, s2: Seq<A>, lo: int, hi: int)
    requires
        s1.len() == s2.len(),
        0 <= lo <= hi < s1.len(),
        s1.to_multiset() == s2.to_multiset(),
        forall|j: int| 0 <= j < s1.len() && !(lo <= j <= hi) ==> s1[j] == s2[j],
    ensures
        s1.subrange(lo, hi + 1).to_multiset() == s2.subrange(lo, hi + 1).to_multiset(),
{
    broadcast use vstd::multiset::group_multiset_axioms;

    let n = s1.len() as int;
    let pre1 = s1.subrange(0, lo);
    let seg1 = s1.subrange(lo, hi + 1);
    let post1 = s1.subrange(hi + 1, n);
    let pre2 = s2.subrange(0, lo);
    let seg2 = s2.subrange(lo, hi + 1);
    let post2 = s2.subrange(hi + 1, n);
    assert(pre1 =~= pre2);
    assert(post1 =~= post2);
    assert(s1 =~= pre1 + seg1 + post1);
    assert(s2 =~= pre2 + seg2 + post2);
    vstd::seq_lib::lemma_multiset_commutative(pre1 + seg1, post1);
    vstd::seq_lib::lemma_multiset_commutative(pre1, seg1);
    vstd::seq_lib::lemma_multiset_commutative(pre2 + seg2, post2);
    vstd::seq_lib::lemma_multiset_commutative(pre2, seg2);
    assert(pre1.to_multiset().add(seg1.to_multiset()).add(post1.to_multiset())
        == pre1.to_multiset().add(seg2.to_multiset()).add(post1.to_multiset()));
    assert(seg1.to_multiset() =~= seg2.to_multiset()) by {
        assert(forall|x: A|
            #[trigger] seg1.to_multiset().count(x) == seg2.to_multiset().count(x)) by {
            assert forall|x: A|
                #[trigger] seg1.to_multiset().count(x) == seg2.to_multiset().count(x) by {
                assert(pre1.to_multiset().add(seg1.to_multiset()).add(post1.to_multiset()).count(x)
                    == pre1.to_multiset().add(seg2.to_multiset()).add(post1.to_multiset()).count(
                    x,
                ));
            }
        }
    }
}

/// A fixed-capacity list of moves: an inline buffer of 255 entries plus a
/// size. Its view is the sequence of the first `size` entries.
#[derive(Copy, Clone)]
pub struct MoveList {
    pub list: [Move; 255],
    pub size: u8,
}

impl View for MoveList {
    type V = Seq<Move>;

    open spec fn view(&self) -> Seq<Move> {
        self.list@.take(self.size as int)
    }
}

impl MoveList {
    /// An empty list.
    pub fn new() -> (r: MoveList)
        ensures
            r@ == Seq::<Move>::empty(),
    {
        let filler = Move::new(0, 0, Piece::new(PieceType::Pawn, PieceColor::White));
        let r = MoveList { list: [filler; 255], size: 0 };
        proof {
            assert(r@ =~= Seq::<Move>::empty());
        }
        r
    }

    /// Appends a move; a push against a full buffer leaves it unchanged.
    #[inline]
    pub fn push(&mut self, m: Move)
        ensures
            final(self)@ == cap_moves(old(self)@ + seq![m]),
    {
        if self.size < 255 {
            self.list[self.size as usize] = m;
            self.size = self.size + 1;
            proof {
                assert(self@ =~= cap_moves(old(self)@ + seq![m]));
            }
        } else {
            proof {
                assert(self@ =~= cap_moves(old(self)@ + seq![m]));
            }
        }
    }

    /// How many moves the list holds.
    #[inline]
    pub fn len(&self) -> (r: u8)
        ensures
            r == self@.len(),
    {
        self.size
    }

    /// The move at position `index`.
    #[inline]
    pub fn get(&self, index: usize) -> (r: Move)
        requires
            index < self@.len(),
        ensures
            r == self@[index as int],
    {
        self.list[index]
    }

    /// A cursor over the list.
    pub fn iter(&self) -> (r: MoveListIter<'_>)
        ensures
            r.movelist == self,
            r.index == 0,
    {
        MoveListIter { movelist: self, index: 0 }
    }

    /// Exchanges the moves at `index1` and `index2`.
    pub fn swap(&mut self, index1: usize, index2: usize)
        requires
            index1 < old(self)@.len(),
            index2 < old(self)@.len(),
        ensures
            final(self)@ == old(self)@.update(index1 as int, old(self)@[index2 as int]).update(
                index2 as int,
                old(self)@[index1 as int],
            ),
    {
        let a = self.list[index1];
        let b = self.list[index2];
        self.list[index1] = b;
        self.list[index2] = a;
        proof {
            assert(self@ =~= old(self)@.update(index1 as int, old(self)@[index2 as int]).update(
                index2 as int,
                old(self)@[index1 as int],
            ));
        }
    }

    /// Appends a move of `piece` from `from` to every set bit of `bb`, in
    /// ascending square order.
    pub fn append_bb(&mut self, bb: u64, from: u64, piece: Piece)
        requires
            from < 64,
        ensures
            final(self)@ == cap_moves(old(self)@ + spec_moves_of_bb(bb, from, piece)),
    {
        let mut rest = bb;
        while rest != 0
            invariant
                from < 64,
                cap_moves(self@ + spec_moves_of_bb(rest, from, piece)) == cap_moves(
                    old(self)@ + spec_moves_of_bb(bb, from, piece),
                ),
            decreases rest,
        {
            let ghost pre = self@;
            let ghost pre_rest = rest;
            let to = rest.bitscan_reset();
            self.push(Move::new(from, to, piece));
            proof {
                lemma_cap_app(pre + seq![spec_new_move(from, to, piece)], spec_moves_of_bb(rest,
                    from, piece));
                assert(pre + seq![spec_new_move(from, to, piece)] + spec_moves_of_bb(rest, from,
                    piece) =~= pre + spec_moves_of_bb(pre_rest, from, piece));
                assert(cap_moves(self@ + spec_moves_of_bb(rest, from, piece)) == cap_moves(
                    old(self)@ + spec_moves_of_bb(bb, from, piece),
                ));
            }
        }
        proof {
            assert(self@ + spec_moves_of_bb(0, from, piece) =~= self@);
            assert(cap_moves(self@) == self@);
        }
    }

    /// Appends a pawn push to every set bit of `bb`; arrivals on the back
    /// ranks expand into the four promotions. Each origin is the destination
    /// displaced by `offset`.
    pub fn append_bb_pawn_pushes(&mut self, bb: u64, offset: i64, piece: Piece)
        requires
            offsets_on_board(bb, offset as int),
            -16 <= offset <= 16,
        ensures
            final(self)@ == cap_moves(old(self)@ + spec_pawn_pushes_all(bb, offset as int, piece)),
    {
        proof {
            lemma_and_bits_subset(bb, !PROMOTION_RANKS);
            lemma_and_bits_subset(bb, PROMOTION_RANKS);
        }
        let promotions = bb & PROMOTION_RANKS;
        let mut rest = bb & !PROMOTION_RANKS;
        let ghost plain_bb = rest;
        while rest != 0
            invariant
                offsets_on_board(plain_bb, offset as int),
                offsets_on_board(rest, offset as int),
                -16 <= offset <= 16,
                cap_moves(self@ + spec_pawn_moves_plain(rest, offset as int, piece)) == cap_moves(
                    old(self)@ + spec_pawn_moves_plain(plain_bb, offset as int, piece),
                ),
            decreases rest,
        {
            let ghost pre = self@;
            let ghost pre_rest = rest;
            let to = rest.bitscan_reset();
            proof {
                vstd::std_specs::bits::axiom_u64_trailing_zeros(pre_rest);
                assert(bit(pre_rest, to));
                lemma_and_bits_subset(pre_rest, ((pre_rest - 1) as u64));
            }
            let from = (offset + to as i64) as u64;
            let m = Move::new(from, to, piece);
            self.push(m);
            proof {
                let ghost mspec = spec_new_move(((to + offset) as u64), to, piece);
                lemma_cap_app(pre + seq![mspec], spec_pawn_moves_plain(rest, offset as int, piece));
                assert(pre + seq![mspec] + spec_pawn_moves_plain(rest, offset as int, piece) =~= pre
                    + spec_pawn_moves_plain(pre_rest, offset as int, piece));
            }
        }
        proof {
            assert(self@ + spec_pawn_moves_plain(0, offset as int, piece) =~= self@);
            assert(cap_moves(self@) == self@);
        }
        crate::move_generation::generate_promotion_moves(promotions, offset, piece, self);
        proof {
            lemma_cap_app(old(self)@ + spec_pawn_moves_plain(plain_bb, offset as int, piece),
                spec_promotion_moves(promotions, offset as int, piece));
            assert(old(self)@ + spec_pawn_moves_plain(plain_bb, offset as int, piece)
                + spec_promotion_moves(promotions, offset as int, piece) =~= old(self)@
                + spec_pawn_pushes_all(bb, offset as int, piece));
        }
    }

    /// Appends a pawn capture to every set bit of `bb`. When an en-passant
    /// target exists, the promotion expansions are appended first and the
    /// capture landing on the target carries the en-passant flag.
    pub fn append_bb_pawn_attacks(
        &mut self,
        bb: u64,
        offset: i64,
        opt_enpassant: Option<u64>,
        piece: Piece,
    )
        requires
            offsets_on_board(bb, offset as int),
            -16 <= offset <= 16,
        ensures
            final(self)@ == cap_moves(
                old(self)@ + spec_pawn_attacks_all(bb, offset as int, opt_enpassant, piece),
            ),
    {
        if let Some(enpassant_index) = opt_enpassant {
            proof {
                lemma_and_bits_subset(bb, !PROMOTION_RANKS);
                lemma_and_bits_subset(bb, PROMOTION_RANKS);
            }
            let promotions = bb & PROMOTION_RANKS;
            let mut rest = bb & !PROMOTION_RANKS;
            let ghost plain_bb = rest;
            crate::move_generation::generate_promotion_moves(promotions, offset, piece, self);
            let ghost after_promo = self@;
            while rest != 0
                invariant
                    offsets_on_board(rest, offset as int),
                    -16 <= offset <= 16,
                    cap_moves(
                        self@ + spec_pawn_moves_ep(rest, offset as int, enpassant_index, piece),
                    ) == cap_moves(
                        after_promo + spec_pawn_moves_ep(plain_bb, offset as int, enpassant_index,
                            piece,
                        ),
                    ),
                decreases rest,
            {
                let ghost pre = self@;
                let ghost pre_rest = rest;
                let to = rest.bitscan_reset();
                proof {
                    vstd::std_specs::bits::axiom_u64_trailing_zeros(pre_rest);
                    assert(bit(pre_rest, to));
                    lemma_and_bits_subset(pre_rest, ((pre_rest - 1) as u64));
                }
                let from = (to as i64 + offset) as u64;
                let mut m = Move::new(from, to, piece);
                if to == enpassant_index {
                    m.add_enpassant();
                }
                self.push(m);
                proof {
                    let ghost m0 = spec_new_move(((to + offset) as u64), to, piece);
                    let ghost mspec = if to == enpassant_index {
                        m0.spec_with_enpassant()
                    } else {
                        m0
                    };
                    lemma_cap_app(pre + seq![mspec], spec_pawn_moves_ep(rest, offset as int,
                        enpassant_index, piece));
                    assert(pre + seq![mspec] + spec_pawn_moves_ep(rest, offset as int,
                        enpassant_index, piece) =~= pre + spec_pawn_moves_ep(pre_rest,
                        offset as int, enpassant_index, piece));
                }
            }
            proof {
                assert(self@ + spec_pawn_moves_ep(0, offset as int, enpassant_index, piece)
                    =~= self@);
                assert(cap_moves(self@) == self@);
                lemma_cap_app(old(self)@ + spec_promotion_moves(promotions, offset as int, piece),
                    spec_pawn_moves_ep(plain_bb, offset as int, enpassant_index, piece));
                assert(old(self)@ + spec_promotion_moves(promotions, offset as int, piece)
                    + spec_pawn_moves_ep(plain_bb, offset as int, enpassant_index, piece) =~= old(
                    self,
                )@ + spec_pawn_attacks_all(bb, offset as int, opt_enpassant, piece));
            }
        } else {
            self.append_bb_pawn_pushes(bb, offset, piece);
        }
    }
}

/// A cursor over a `MoveList`.
pub struct MoveListIter<'a> {
    pub movelist: &'a MoveList,
    pub index: u8,
}

impl<'a> MoveListIter<'a> {
    /// The next move, or `None` when the cursor has passed the end.
    pub fn next(&mut self) -> (r: Option<Move>)
        ensures
            final(self).movelist == old(self).movelist,
            old(self).index < old(self).movelist@.len() ==> {
                &&& r == Some(old(self).movelist@[old(self).index as int])
                &&& final(self).index == old(self).index + 1
            },
            old(self).index >= old(self).movelist@.len() ==> {
                &&& r is None
                &&& final(self).index == old(self).index
            },
    {
        if self.index < self.movelist.len() {
            let item = self.movelist.get(self.index as usize);
            self.index = self.index + 1;
            Some(item)
        } else {
            None
        }
    }
}

} // verus!
