//! The mutable game position: piece placement in three redundant forms
//! (per-type bitboards, per-color occupancy, and a 64-entry mailbox), the
//! side to move, and the reversible `Gamestate` with its undo stack.
//!
//! `make_move` and `unmake_move` are specified exactly: each ends in the
//! position the spec-level transition functions `spec_make` and `spec_unmake`
//! compute from the model, and the round-trip and consistency laws are proved
//! over those functions.

use crate::bitboard::{bit, lemma_bit_ops, lemma_bit_single, lemma_bit_toggle_one, lemma_bit_toggle_pair};
use crate::chess_move::Move;
use crate::gamestate::{spec_castling_bits, spec_enpassant_field, Gamestate};
use crate::move_list::{cap_moves, MoveList};
use crate::piece::{Piece, PieceColor, PieceType};
use vstd::prelude::*;
use vstd::string::StrSliceExecFns;

verus! {

/// The index of the first space at or after `from`, or the length of `s`.
pub open spec fn field_end(s: Seq<char>, from: int) -> int
    decreases s.len() - from,
{
    if from >= s.len() || from < 0 {
        s.len() as int
    } else if s[from] == ' ' {
        from
    } else {
        field_end(s, from + 1)
    }
}

/// An empty mailbox.
pub open spec fn empty_squares() -> Seq<Option<Piece>> {
    Seq::new(64, |i: int| None::<Piece>)
}

/// The piece a placement-field letter stands for, lower case meaning Black.
pub open spec fn spec_piece_of_char(c: char) -> Option<Piece> {
    if c == 'r' {
        Some(Piece { ptype: PieceType::Rook, color: PieceColor::Black })
    } else if c == 'n' {
        Some(Piece { ptype: PieceType::Knight, color: PieceColor::Black })
    } else if c == 'b' {
        Some(Piece { ptype: PieceType::Bishop, color: PieceColor::Black })
    } else if c == 'q' {
        Some(Piece { ptype: PieceType::Queen, color: PieceColor::Black })
    } else if c == 'k' {
        Some(Piece { ptype: PieceType::King, color: PieceColor::Black })
    } else if c == 'p' {
        Some(Piece { ptype: PieceType::Pawn, color: PieceColor::Black })
    } else if c == 'R' {
        Some(Piece { ptype: PieceType::Rook, color: PieceColor::White })
    } else if c == 'N' {
        Some(Piece { ptype: PieceType::Knight, color: PieceColor::White })
    } else if c == 'B' {
        Some(Piece { ptype: PieceType::Bishop, color: PieceColor::White })
    } else if c == 'Q' {
        Some(Piece { ptype: PieceType::Queen, color: PieceColor::White })
    } else if c == 'K' {
        Some(Piece { ptype: PieceType::King, color: PieceColor::White })
    } else if c == 'P' {
        Some(Piece { ptype: PieceType::Pawn, color: PieceColor::White })
    } else {
        None
    }
}

/// Reads one placement-field letter.
fn piece_of_char(c: char) -> (r: Option<Piece>)
    ensures
        r == spec_piece_of_char(c),
{
    match c {
        'r' => Some(Piece::new(PieceType::Rook, PieceColor::Black)),
        'n' => Some(Piece::new(PieceType::Knight, PieceColor::Black)),
        'b' => Some(Piece::new(PieceType::Bishop, PieceColor::Black)),
        'q' => Some(Piece::new(PieceType::Queen, PieceColor::Black)),
        'k' => Some(Piece::new(PieceType::King, PieceColor::Black)),
        'p' => Some(Piece::new(PieceType::Pawn, PieceColor::Black)),
        'R' => Some(Piece::new(PieceType::Rook, PieceColor::White)),
        'N' => Some(Piece::new(PieceType::Knight, PieceColor::White)),
        'B' => Some(Piece::new(PieceType::Bishop, PieceColor::White)),
        'Q' => Some(Piece::new(PieceType::Queen, PieceColor::White)),
        'K' => Some(Piece::new(PieceType::King, PieceColor::White)),
        'P' => Some(Piece::new(PieceType::Pawn, PieceColor::White)),
        _ => None,
    }
}

/// Finds the end of the whitespace-separated field starting at `from`.
fn find_field_end(s: &str, from: usize) -> (r: usize)
    requires
        from <= s@.len(),
    ensures
        r == field_end(s@, from as int),
        from <= r <= s@.len(),
{
    let n = s.unicode_len();
    let mut i = from;
    while i < n && s.get_char(i) != ' '
        invariant
            from <= i <= n,
            n == s@.len(),
            field_end(s@, from as int) == field_end(s@, i as int),
        decreases n - i,
    {
        i = i + 1;
    }
    i
}

/// Collects the bitboard of the pieces of color ordinal `c` and type
/// ordinal `t` on the mailbox.
fn build_bb(squares: &[Option<Piece>; 64], c: usize, t: usize) -> (r: u64)
    requires
        c < 2,
        t < 6,
    ensures
        r == spec_bb_of(squares@, c as int, t as int, 0),
{
    let color = if c == 0 {
        PieceColor::White
    } else {
        PieceColor::Black
    };
    let expected = Piece::new(PieceType::from_index(t as u64), color);
    let mut acc: u64 = 0;
    let mut i: usize = 0;
    proof {
        crate::tables::lemma_or_assoc(spec_bb_of(squares@, c as int, t as int, 0), 0, 0);
    }
    while i < 64
        invariant
            i <= 64,
            c < 2,
            t < 6,
            expected == (Piece {
                ptype: PieceType::spec_from_index(t as int),
                color: if c == 0 {
                    PieceColor::White
                } else {
                    PieceColor::Black
                },
            }),
            acc | spec_bb_of(squares@, c as int, t as int, i as int) == spec_bb_of(
                squares@,
                c as int,
                t as int,
                0,
            ),
        decreases 64 - i,
    {
        let here = match squares[i] {
            Some(p) => p == expected,
            None => false,
        };
        if here {
            proof {
                crate::tables::lemma_or_assoc(acc, 1u64 << i, spec_bb_of(squares@, c as int,
                    t as int, i as int + 1));
            }
            acc = acc | (1u64 << (i as u64));
        } else {
            proof {
                crate::tables::lemma_or_assoc(acc, 0, spec_bb_of(squares@, c as int, t as int,
                    i as int + 1));
            }
        }
        i = i + 1;
    }
    proof {
        crate::tables::lemma_or_assoc(acc, 0, 0);
    }
    acc
}

/// Reads the placement field of a position descriptor, characters `i` up to
/// `end` of `s`, onto the mailbox `squares`. Ranks run from 8 down to 1,
/// separated by `/`; digits skip files; letters place pieces; characters
/// that name nothing are passed over. `None` where the text walks off the
/// board.
pub open spec fn spec_placement(
    s: Seq<char>,
    i: int,
    end: int,
    rank: int,
    file: int,
    squares: Seq<Option<Piece>>,
) -> Option<Seq<Option<Piece>>>
    decreases end - i,
{
    if i >= end {
        Some(squares)
    } else {
        let c = s[i];
        if c == '/' {
            if file != 8 {
                None
            } else {
                spec_placement(s, i + 1, end, rank + 1, 0, squares)
            }
        } else if '1' <= c && c <= '8' {
            if file + (c as int - '0' as int) > 8 {
                None
            } else {
                spec_placement(s, i + 1, end, rank, file + (c as int - '0' as int), squares)
            }
        } else if ('a' <= c && c <= 'z') || ('A' <= c && c <= 'Z') {
            match spec_piece_of_char(c) {
                None => None,
                Some(piece) => {
                    if rank > 7 || file >= 8 {
                        None
                    } else {
                        spec_placement(
                            s,
                            i + 1,
                            end,
                            rank,
                            file + 1,
                            squares.update((7 - rank) * 8 + file, Some(piece)),
                        )
                    }
                },
            }
        } else {
            spec_placement(s, i + 1, end, rank, file, squares)
        }
    }
}

/// The bitboard of pieces of color ordinal `c` and type ordinal `t` standing
/// on `squares` at or after square `i`.
pub open spec fn spec_bb_of(squares: Seq<Option<Piece>>, c: int, t: int, i: int) -> u64
    decreases 64 - i,
{
    if i >= 64 || i < 0 {
        0u64
    } else {
        (if squares[i] == Some(
            Piece {
                ptype: PieceType::spec_from_index(t),
                color: if c == 0 {
                    PieceColor::White
                } else {
                    PieceColor::Black
                },
            },
        ) {
            1u64 << (i as u64)
        } else {
            0u64
        }) | spec_bb_of(squares, c, t, i + 1)
    }
}

/// Bit `s` of the bitboard collected from a mailbox is set exactly when the
/// matching piece stands on square `s` at or past the collection start.
pub proof fn lemma_bb_of_bits(squares: Seq<Option<Piece>>, c: int, t: int, i: int)
    requires
        0 <= c < 2,
        0 <= t < 6,
        0 <= i <= 64,
    ensures
        forall|s: u64|
            s < 64 ==> #[trigger] bit(spec_bb_of(squares, c, t, i), s) == (i <= s
                && squares[s as int] == Some(
                Piece {
                    ptype: PieceType::spec_from_index(t),
                    color: if c == 0 {
                        PieceColor::White
                    } else {
                        PieceColor::Black
                    },
                },
            )),
    decreases 64 - i,
{
    if i < 64 {
        lemma_bb_of_bits(squares, c, t, i + 1);

        assert forall|s: u64|
            s < 64 implies #[trigger] bit(spec_bb_of(squares, c, t, i), s) == (i <= s
            && squares[s as int] == Some(
            Piece {
                ptype: PieceType::spec_from_index(t),
                color: if c == 0 {
                    PieceColor::White
                } else {
                    PieceColor::Black
                },
            },
        )) by {
            lemma_bit_ops(s);
            lemma_bit_single(s, i as u64);
            assert(bit(0u64, s) == false) by (bit_vector);
            let piece = Piece {
                ptype: PieceType::spec_from_index(t),
                color: if c == 0 {
                    PieceColor::White
                } else {
                    PieceColor::Black
                },
            };
            let here = if squares[i] == Some(piece) {
                1u64 << (i as u64)
            } else {
                0u64
            };
            let rec = spec_bb_of(squares, c, t, i + 1);
            assert(spec_bb_of(squares, c, t, i) == here | rec);
            assert(bit(here | rec, s) == (bit(here, s) || bit(rec, s)));
            assert(bit(rec, s) == (i + 1 <= s && squares[s as int] == Some(piece)));
            assert(bit(here, s) == (s == i && squares[i] == Some(piece)));
        }
    } else {
        assert forall|s: u64| s < 64 implies !bit(spec_bb_of(squares, c, t, i), s) by {
            assert(bit(0u64, s) == false) by (bit_vector);
        }
    }
}

/// A position whose bitboards are collected from its mailbox is
/// well-formed.
pub proof fn lemma_derived_position_wf(p: Position)
    requires
        pos_shape(p),
        forall|c: int, t: int|
            0 <= c < 2 && 0 <= t < 6 ==> p.pieces[c][t] == spec_bb_of(p.squares, c, t, 0),
        forall|c: int|
            0 <= c < 2 ==> p.colors[c] == p.pieces[c][0] | p.pieces[c][1] | p.pieces[c][2]
                | p.pieces[c][3] | p.pieces[c][4] | p.pieces[c][5],
    ensures
        pos_wf(p),
{
    assert forall|c: int, t: int, s: u64|
        0 <= c < 2 && 0 <= t < 6 && s < 64 && #[trigger] bit(p.pieces[c][t], s) implies p.squares[s as int]
        == Some(
        Piece {
            ptype: PieceType::spec_from_index(t),
            color: if c == 0 {
                PieceColor::White
            } else {
                PieceColor::Black
            },
        },
    ) by {
        lemma_bb_of_bits(p.squares, c, t, 0);
        assert(p.pieces[c][t] == spec_bb_of(p.squares, c, t, 0));
        assert(bit(spec_bb_of(p.squares, c, t, 0), s));
    }
    assert forall|s: u64|
        s < 64 && p.squares[s as int] is Some implies bit(
        p.pieces[(p.squares[s as int]->Some_0).color.ord()][(p.squares[s as int]->Some_0).ptype.ord()],
        s,
    ) by {
        let pc = p.squares[s as int]->Some_0;
        lemma_bb_of_bits(p.squares, pc.color.ord(), pc.ptype.ord(), 0);
        assert(PieceType::spec_from_index(pc.ptype.ord()) == pc.ptype);
        assert((if pc.color.ord() == 0 {
            PieceColor::White
        } else {
            PieceColor::Black
        }) == pc.color);
        assert(p.pieces[pc.color.ord()][pc.ptype.ord()] == spec_bb_of(p.squares, pc.color.ord(),
            pc.ptype.ord(), 0));
        assert(bit(spec_bb_of(p.squares, pc.color.ord(), pc.ptype.ord(), 0), s));
    }
    assert forall|c: int, s: u64| 0 <= c < 2 && s < 64 implies #[trigger] bit(p.colors[c], s) == (
    bit(p.pieces[c][0], s) || bit(p.pieces[c][1], s) || bit(p.pieces[c][2], s) || bit(
        p.pieces[c][3],
        s,
    ) || bit(p.pieces[c][4], s) || bit(p.pieces[c][5], s)) by {
        lemma_bit_ops(s);
    }
    assert forall|s: u64| s < 64 implies !(#[trigger] bit(p.colors[0], s) && bit(
        p.colors[1],
        s,
    )) by {
        lemma_bit_ops(s);
    }
}

/// A pointwise bitboard-mailbox correspondence and pointwise occupancy
/// unions imply the well-formedness invariant.
proof fn lemma_pointwise_wf(p: Position)
    requires
        pos_shape(p),
        forall|c: int, t: int, s: u64|
            0 <= c < 2 && 0 <= t < 6 && s < 64 ==> #[trigger] bit(p.pieces[c][t], s) == (
            p.squares[s as int] == Some(
                Piece {
                    ptype: PieceType::spec_from_index(t),
                    color: if c == 0 {
                        PieceColor::White
                    } else {
                        PieceColor::Black
                    },
                },
            )),
        forall|c: int, s: u64|
            0 <= c < 2 && s < 64 ==> #[trigger] bit(p.colors[c], s) == (bit(p.pieces[c][0], s)
                || bit(p.pieces[c][1], s) || bit(p.pieces[c][2], s) || bit(p.pieces[c][3], s)
                || bit(p.pieces[c][4], s) || bit(p.pieces[c][5], s)),
    ensures
        pos_wf(p),
{
    assert forall|s: u64|
        s < 64 && p.squares[s as int] is Some implies bit(
        p.pieces[(p.squares[s as int]->Some_0).color.ord()][(p.squares[s as int]->Some_0).ptype.ord()],
        s,
    ) by {
        let pc = p.squares[s as int]->Some_0;
        assert(PieceType::spec_from_index(pc.ptype.ord()) == pc.ptype);
        assert((if pc.color.ord() == 0 {
            PieceColor::White
        } else {
            PieceColor::Black
        }) == pc.color);
        assert(bit(p.pieces[pc.color.ord()][pc.ptype.ord()], s) == (p.squares[s as int] == Some(pc)));
    }
}

/// The well-formedness invariant, read as a pointwise iff between the
/// bitboards and the mailbox.
proof fn lemma_wf_pointwise(p: Position)
    requires
        pos_wf(p),
    ensures
        forall|c: int, t: int, s: u64|
            0 <= c < 2 && 0 <= t < 6 && s < 64 ==> #[trigger] bit(p.pieces[c][t], s) == (
            p.squares[s as int] == Some(
                Piece {
                    ptype: PieceType::spec_from_index(t),
                    color: if c == 0 {
                        PieceColor::White
                    } else {
                        PieceColor::Black
                    },
                },
            )),
{
    assert forall|c: int, t: int, s: u64|
        0 <= c < 2 && 0 <= t < 6 && s < 64 implies #[trigger] bit(p.pieces[c][t], s) == (
    p.squares[s as int] == Some(
        Piece {
            ptype: PieceType::spec_from_index(t),
            color: if c == 0 {
                PieceColor::White
            } else {
                PieceColor::Black
            },
        },
    )) by {
        let piece = Piece {
            ptype: PieceType::spec_from_index(t),
            color: if c == 0 {
                PieceColor::White
            } else {
                PieceColor::Black
            },
        };
        if p.squares[s as int] == Some(piece) {
            assert(piece.color.ord() == c && piece.ptype.ord() == t);
        }
    }
}

/// Making a fitting move on a well-formed position leaves it well-formed:
/// each color's occupancy stays the union of its piece bitboards, the two
/// occupancies stay disjoint, and the mailbox keeps matching the bitboards.
#[verifier::rlimit(100)]
#[verifier::spinoff_prover]
pub proof fn lemma_make_preserves_wf(p: Position, m: Move)
    requires
        pos_wf(p),
        move_ok(p, m),
    ensures
        pos_wf(spec_make(p, m)),
{
    let code = m.move_code;
    assert(((code & 0x3f) as u64) < 64 && (((code >> 6) & 0x3f) as u64) < 64) by (bit_vector);
    let start = m.spec_from();
    let land = m.spec_to();
    let mc = m.moved_piece.color;
    let mt = m.moved_piece.ptype;
    let ec = mc.spec_opposite();
    let mci = mc.ord();
    let eci = ec.ord();
    let mti = mt.ord();
    let ft = (1u64 << start) | (1u64 << land);
    let pm = spec_make(p, m);
    lemma_wf_pointwise(p);
    assert(mci != eci);
    assert(pos_shape(pm)) by {
        lemma_make_shape(p, m);
    }

    assert forall|c: int, t: int, s: u64|
        0 <= c < 2 && 0 <= t < 6 && s < 64 implies #[trigger] bit(pm.pieces[c][t], s) == (
    pm.squares[s as int] == Some(
        Piece {
            ptype: PieceType::spec_from_index(t),
            color: if c == 0 {
                PieceColor::White
            } else {
                PieceColor::Black
            },
        },
    )) by {
        lemma_bit_toggle_pair(p.pieces[mci][mti], start, land, s);
        lemma_bit_toggle_one((p.pieces[mci][mti] ^ ft), land, s);
        if m.spec_is_promotion() {
            let pt = PieceType::spec_from_index(m.spec_promotion_ord());
            lemma_bit_toggle_one(p.pieces[mci][pt.ord()], land, s);
        }
        if m.spec_is_enpassant() {
            let epi = ep_victim_square(land, mc);
            lemma_bit_toggle_one(p.pieces[eci][4], epi, s);
        }
        match p.squares[land as int] {
            Some(captured) => {
                lemma_bit_toggle_one(p.pieces[eci][captured.ptype.ord()], land, s);
            },
            None => {},
        }
        if m.spec_is_castle_kingside() {
            lemma_bit_toggle_pair(p.pieces[mci][0], ((start + 3) as u64), ((start + 1) as u64), s);
        }
        if m.spec_is_castle_queenside() {
            lemma_bit_toggle_pair(p.pieces[mci][0], ((start - 4) as u64), ((start - 1) as u64), s);
        }
    }

    assert forall|c: int, s: u64|
        0 <= c < 2 && s < 64 implies #[trigger] bit(pm.colors[c], s) == (bit(pm.pieces[c][0], s)
        || bit(pm.pieces[c][1], s) || bit(pm.pieces[c][2], s) || bit(pm.pieces[c][3], s) || bit(
        pm.pieces[c][4],
        s,
    ) || bit(pm.pieces[c][5], s)) by {
        lemma_bit_toggle_pair(p.pieces[mci][mti], start, land, s);
        lemma_bit_toggle_one((p.pieces[mci][mti] ^ ft), land, s);
        lemma_bit_toggle_pair(p.colors[mci], start, land, s);
        if m.spec_is_promotion() {
            let pt = PieceType::spec_from_index(m.spec_promotion_ord());
            lemma_bit_toggle_one(p.pieces[mci][pt.ord()], land, s);
        }
        if m.spec_is_enpassant() {
            let epi = ep_victim_square(land, mc);
            lemma_bit_toggle_one(p.pieces[eci][4], epi, s);
            lemma_bit_toggle_one(p.colors[eci], epi, s);
        }
        match p.squares[land as int] {
            Some(captured) => {
                lemma_bit_toggle_one(p.pieces[eci][captured.ptype.ord()], land, s);
                lemma_bit_toggle_one(p.colors[eci], land, s);
            },
            None => {},
        }
        if m.spec_is_castle_kingside() {
            let rmask = (1u64 << ((start + 3) as u64)) | (1u64 << ((start + 1) as u64));
            lemma_bit_toggle_pair(p.pieces[mci][0], ((start + 3) as u64), ((start + 1) as u64), s);
            lemma_bit_toggle_pair((p.colors[mci] ^ ft), ((start + 3) as u64), ((start + 1) as u64), s);
        }
        if m.spec_is_castle_queenside() {
            lemma_bit_toggle_pair(p.pieces[mci][0], ((start - 4) as u64), ((start - 1) as u64), s);
            lemma_bit_toggle_pair((p.colors[mci] ^ ft), ((start - 4) as u64), ((start - 1) as u64), s);
        }
    }

    lemma_pointwise_wf(pm);
}

/// What a whole position descriptor denotes: the mailbox and the bitboards
/// derived from it, the side to move, and the castling and en-passant state,
/// or `None` where any of the four fields is malformed.
pub open spec fn spec_parse_fen(s: Seq<char>) -> Option<Position> {
    let e0 = field_end(s, 0);
    match spec_placement(s, 0, e0, 0, 0, empty_squares()) {
        None => None,
        Some(squares) => {
            if e0 >= s.len() {
                None
            } else {
                let e1 = field_end(s, e0 + 1);
                if e1 == e0 + 1 {
                    None
                } else {
                    let color = if s[e0 + 1] == 'w' {
                        Some(PieceColor::White)
                    } else if s[e0 + 1] == 'b' {
                        Some(PieceColor::Black)
                    } else {
                        None
                    };
                    match color {
                        None => None,
                        Some(to_move) => {
                            if e1 >= s.len() {
                                None
                            } else {
                                let e2 = field_end(s, e1 + 1);
                                if e2 >= s.len() {
                                    None
                                } else {
                                    let e3 = field_end(s, e2 + 1);
                                    match spec_castling_bits(s.subrange(e1 + 1, e2), 0) {
                                        None => None,
                                        Some(rights) => match spec_enpassant_field(
                                            s.subrange(e2 + 1, e3),
                                        ) {
                                            None => None,
                                            Some(ep) => Some(
                                                Position {
                                                    pieces: Seq::new(
                                                        2,
                                                        |c: int|
                                                            Seq::new(
                                                                6,
                                                                |t: int| spec_bb_of(squares, c, t, 0),
                                                            ),
                                                    ),
                                                    colors: Seq::new(
                                                        2,
                                                        |c: int|
                                                            spec_bb_of(squares, c, 0, 0) | spec_bb_of(
                                                                squares,
                                                                c,
                                                                1,
                                                                0,
                                                            ) | spec_bb_of(squares, c, 2, 0)
                                                                | spec_bb_of(squares, c, 3, 0)
                                                                | spec_bb_of(squares, c, 4, 0)
                                                                | spec_bb_of(squares, c, 5, 0),
                                                    ),
                                                    to_move,
                                                    squares,
                                                    state: Gamestate {
                                                        last_piece_captured: None,
                                                        enpassant_square: ep,
                                                        castling_rights: rights,
                                                    },
                                                    stack: Seq::empty(),
                                                },
                                            ),
                                        },
                                    }
                                }
                            }
                        },
                    }
                }
            }
        },
    }
}

/// The mathematical model of a board: the same data as `Board`, with
/// sequences for the arrays and without the cached move list.
pub struct Position {
    /// 2 x 6 piece bitboards, indexed by color then piece type ordinal.
    pub pieces: Seq<Seq<u64>>,
    /// 2 occupancy bitboards, indexed by color ordinal.
    pub colors: Seq<u64>,
    /// Side to move.
    pub to_move: PieceColor,
    /// The mailbox: what stands on each of the 64 squares.
    pub squares: Seq<Option<Piece>>,
    /// The reversible state of the latest position.
    pub state: Gamestate,
    /// Previous reversible states, innermost last.
    pub stack: Seq<Gamestate>,
}

/// The shapes of the model's sequences.
pub open spec fn pos_shape(p: Position) -> bool {
    &&& p.pieces.len() == 2
    &&& p.pieces[0].len() == 6
    &&& p.pieces[1].len() == 6
    &&& p.colors.len() == 2
    &&& p.squares.len() == 64
}

/// The consistency invariant tying the three redundant representations
/// together: each color's occupancy is the union of its six piece bitboards,
/// the two occupancies are disjoint, and the mailbox holds piece `P` on
/// square `s` exactly when bit `s` is set in `P`'s bitboard.
pub open spec fn pos_wf(p: Position) -> bool {
    &&& pos_shape(p)
    &&& forall|c: int, s: u64|
        0 <= c < 2 && s < 64 ==> #[trigger] bit(p.colors[c], s) == (bit(p.pieces[c][0], s) || bit(
            p.pieces[c][1],
            s,
        ) || bit(p.pieces[c][2], s) || bit(p.pieces[c][3], s) || bit(p.pieces[c][4], s) || bit(
            p.pieces[c][5],
            s,
        ))
    &&& forall|s: u64| s < 64 ==> !(#[trigger] bit(p.colors[0], s) && bit(p.colors[1], s))
    &&& forall|c: int, t: int, s: u64|
        0 <= c < 2 && 0 <= t < 6 && s < 64 && #[trigger] bit(p.pieces[c][t], s) ==> p.squares[s as int]
            == Some(
            Piece {
                ptype: PieceType::spec_from_index(t),
                color: if c == 0 {
                    PieceColor::White
                } else {
                    PieceColor::Black
                },
            },
        )
    &&& forall|s: u64|
        s < 64 ==> (#[trigger] p.squares[s as int] matches Some(pc) ==> bit(
            p.pieces[pc.color.ord()][pc.ptype.ord()],
            s,
        ))
}

/// `p` with piece bitboard `(c, t)` xored by `mask`.
pub open spec fn pos_toggle_piece(p: Position, c: int, t: int, mask: u64) -> Position {
    Position { pieces: p.pieces.update(c, p.pieces[c].update(t, p.pieces[c][t] ^ mask)), ..p }
}

/// `p` with occupancy bitboard `c` xored by `mask`.
pub open spec fn pos_toggle_color(p: Position, c: int, mask: u64) -> Position {
    Position { colors: p.colors.update(c, p.colors[c] ^ mask), ..p }
}

/// The conditions under which `make_move` and `unmake_move` run without
/// arithmetic escapes: the squares that the special-move handling derives
/// from the move stay on the board.
pub open spec fn move_exec_safe(m: Move) -> bool {
    let start = m.spec_from();
    let land = m.spec_to();
    let mc = m.moved_piece.color;
    &&& (m.spec_is_enpassant() && mc == PieceColor::White ==> land >= 8)
    &&& (m.spec_is_enpassant() && mc == PieceColor::Black ==> land <= 55)
    &&& (m.moved_piece.ptype == PieceType::Pawn && abs_diff(start, land) == 16 && mc
        == PieceColor::Black ==> start >= 8)
    &&& (m.spec_is_castle_kingside() ==> start <= 60)
    &&& (m.spec_is_castle_queenside() ==> start >= 4)
    &&& (m.spec_is_promotion() ==> m.spec_promotion_ord() <= 5)
}

/// Absolute difference of two square indices.
pub open spec fn abs_diff(a: u64, b: u64) -> u64 {
    if a >= b {
        (a - b) as u64
    } else {
        (b - a) as u64
    }
}

/// The square of the pawn removed by an en-passant capture landing on
/// `land`: one rank behind the landing square.
pub open spec fn ep_victim_square(land: u64, mc: PieceColor) -> u64 {
    match mc {
        PieceColor::White => (land - 8) as u64,
        PieceColor::Black => (land + 8) as u64,
    }
}

/// A move that fits the position structurally: the moved piece stands on
/// the origin, the destination content matches the move kind, and the
/// special-move geometry is sound. Every move the generator emits in a
/// consistent position fits, and fitting moves are exactly the ones
/// `make_move` and `unmake_move` invert (`lemma_unmake_inverts_make`).
pub open spec fn move_ok(p: Position, m: Move) -> bool {
    let start = m.spec_from();
    let land = m.spec_to();
    let mc = m.moved_piece.color;
    let mt = m.moved_piece.ptype;
    let ec = mc.spec_opposite();
    &&& move_exec_safe(m)
    &&& start != land
    &&& p.squares[start as int] == Some(m.moved_piece)
    &&& (m.spec_is_enpassant() ==> {
        &&& mt == PieceType::Pawn
        &&& (mc == PieceColor::White ==> land == start + 7 || land == start + 9)
        &&& (mc == PieceColor::Black ==> land + 7 == start || land + 9 == start)
        &&& p.squares[land as int] is None
        &&& p.squares[ep_victim_square(land, mc) as int] == Some(
            Piece { ptype: PieceType::Pawn, color: ec },
        )
    })
    &&& (m.spec_is_promotion() ==> mt == PieceType::Pawn && abs_diff(start, land) != 16
        && m.spec_promotion_ord() <= 3)
    &&& (!(mt == PieceType::Pawn && abs_diff(start, land) == 16) && !m.spec_is_enpassant() ==> (
    p.squares[land as int] matches Some(captured) ==> captured.color == ec))
    &&& (m.spec_is_castle_kingside() ==> {
        &&& mt == PieceType::King
        &&& land == start + 2
        &&& p.squares[land as int] is None
        &&& p.squares[start + 1] is None
        &&& p.squares[start + 3] == Some(Piece { ptype: PieceType::Rook, color: mc })
    })
    &&& (m.spec_is_castle_queenside() ==> {
        &&& mt == PieceType::King
        &&& land + 2 == start
        &&& p.squares[land as int] is None
        &&& p.squares[start - 1] is None
        &&& p.squares[start - 4] == Some(Piece { ptype: PieceType::Rook, color: mc })
    })
    &&& (mt == PieceType::Pawn && abs_diff(start, land) == 16 ==> p.squares[land as int] is None)
}

impl Board {
    /// Tests whether `m` fits this position structurally; see `move_ok`.
    pub fn move_fits(&self, m: Move) -> (r: bool)
        ensures
            r == move_ok(self.pos(), m),
    {
        let start = m.get_from();
        let land = m.get_to();
        let moved = m.get_moved_piece();
        let mc = moved.get_color();
        let mt = moved.get_type();
        let ec = mc.opposite();
        let diff = if start >= land {
            start - land
        } else {
            land - start
        };

        // arithmetic safety of make and unmake
        if m.is_enpassant() {
            match mc {
                PieceColor::White => {
                    if land < 8 {
                        return false;
                    }
                },
                PieceColor::Black => {
                    if land > 55 {
                        return false;
                    }
                },
            }
        }
        if mt.idx() == 4 && diff == 16 && mc.idx() == 1 && start < 8 {
            return false;
        }
        if m.is_castle_kingside() && start > 60 {
            return false;
        }
        if m.is_castle_queenside() && start < 4 {
            return false;
        }
        if m.is_promotion() && ((m.move_code >> 13) & 7) > 5 {
            return false;
        }

        if start == land {
            return false;
        }
        let at_start = self.get_piece_at(start);
        let start_holds_mover = match at_start {
            Some(pc) => pc == moved,
            None => false,
        };
        if !start_holds_mover {
            return false;
        }

        if m.is_enpassant() {
            if mt.idx() != 4 {
                return false;
            }
            let geometry = match mc {
                PieceColor::White => land == start + 7 || land == start + 9,
                PieceColor::Black => land + 7 == start || land + 9 == start,
            };
            if !geometry {
                return false;
            }
            if self.get_piece_at(land).is_some() {
                return false;
            }
            let victim = match mc {
                PieceColor::White => land - 8,
                PieceColor::Black => land + 8,
            };
            let victim_ok = match self.get_piece_at(victim) {
                Some(pc) => pc == Piece::new(PieceType::Pawn, ec),
                None => false,
            };
            if !victim_ok {
                return false;
            }
        }
        if m.is_promotion() {
            if mt.idx() != 4 || diff == 16 || ((m.move_code >> 13) & 7) > 3 {
                return false;
            }
        }
        if !(mt.idx() == 4 && diff == 16) && !m.is_enpassant() {
            if let Some(captured) = self.get_piece_at(land) {
                if captured.get_color().idx() != ec.idx() {
                    return false;
                }
            }
        }
        if m.is_castle_kingside() {
            if mt.idx() != 5 || land != start + 2 {
                return false;
            }
            if self.get_piece_at(land).is_some() || self.get_piece_at(start + 1).is_some() {
                return false;
            }
            let rook_ok = match self.get_piece_at(start + 3) {
                Some(pc) => pc == Piece::new(PieceType::Rook, mc),
                None => false,
            };
            if !rook_ok {
                return false;
            }
        }
        if m.is_castle_queenside() {
            if mt.idx() != 5 || land + 2 != start {
                return false;
            }
            if self.get_piece_at(land).is_some() || self.get_piece_at(start - 1).is_some() {
                return false;
            }
            let rook_ok = match self.get_piece_at(start - 4) {
                Some(pc) => pc == Piece::new(PieceType::Rook, mc),
                None => false,
            };
            if !rook_ok {
                return false;
            }
        }
        if mt.idx() == 4 && diff == 16 {
            if self.get_piece_at(land).is_some() {
                return false;
            }
        }
        true
    }
}

/// The transition `make_move` performs on the model: push the reversible
/// state, move the piece's bits, update castling rights or promote
/// (`spec_make_p3`), handle double push, en passant, capture or castling
/// (`spec_make_p4`), move the mailbox entry, and flip the side to move.
pub open spec fn spec_make(p: Position, m: Move) -> Position {
    let start = m.spec_from();
    let land = m.spec_to();
    let p4 = spec_make_p4(p, m);
    let p5 = Position {
        squares: p4.squares.update(start as int, None).update(land as int, p4.squares[start as int]),
        ..p4
    };
    Position { to_move: p5.to_move.spec_opposite(), ..p5 }
}

/// The transition `unmake_move` performs on the model: reverse the piece's
/// bits and the mailbox entry, reverse a promotion (`spec_unmake_q3`),
/// restore the captured piece or the castling rook (`spec_unmake_q4`), pop
/// the reversible state, and flip the side to move.
pub open spec fn spec_unmake(p: Position, m: Move) -> Position {
    let q4 = spec_unmake_q4(p, m);
    Position {
        state: p.stack.last(),
        stack: p.stack.drop_last(),
        to_move: q4.to_move.spec_opposite(),
        ..q4
    }
}

/// The capture / en-passant / castling reversal stage of `spec_unmake`.
pub open spec fn spec_unmake_q4(p: Position, m: Move) -> Position {
    let start = m.spec_from();
    let land = m.spec_to();
    let mc = m.moved_piece.color;
    let ec = mc.spec_opposite();
    let mci = mc.ord();
    let eci = ec.ord();
    let q3 = spec_unmake_q3(p, m);
    if m.spec_is_enpassant() {
        let epi = ep_victim_square(land, mc);
        let qa = pos_toggle_color(
            pos_toggle_piece(q3, eci, PieceType::Pawn.ord(), 1u64 << epi),
            eci,
            1u64 << epi,
        );
        Position {
            squares: qa.squares.update(
                epi as int,
                Some(Piece { ptype: PieceType::Pawn, color: ec }),
            ),
            ..qa
        }
    } else {
        match p.state.last_piece_captured {
            Some(captured) => {
                let qa = pos_toggle_color(
                    pos_toggle_piece(q3, eci, captured.ptype.ord(), 1u64 << land),
                    eci,
                    1u64 << land,
                );
                Position { squares: qa.squares.update(land as int, Some(captured)), ..qa }
            },
            None => {
                if m.spec_is_castle_kingside() {
                    let rf = (start + 3) as u64;
                    let rt = (start + 1) as u64;
                    let qa = pos_toggle_color(
                        pos_toggle_piece(q3, mci, PieceType::Rook.ord(), (1u64 << rf) | (1u64
                            << rt)),
                        mci,
                        (1u64 << rf) | (1u64 << rt),
                    );
                    Position {
                        squares: qa.squares.update(rt as int, None).update(
                            rf as int,
                            qa.squares[rt as int],
                        ),
                        ..qa
                    }
                } else if m.spec_is_castle_queenside() {
                    let rf = (start - 4) as u64;
                    let rt = (start - 1) as u64;
                    let qa = pos_toggle_color(
                        pos_toggle_piece(q3, mci, PieceType::Rook.ord(), (1u64 << rf) | (1u64
                            << rt)),
                        mci,
                        (1u64 << rf) | (1u64 << rt),
                    );
                    Position {
                        squares: qa.squares.update(rt as int, None).update(
                            rf as int,
                            qa.squares[rt as int],
                        ),
                        ..qa
                    }
                } else {
                    q3
                }
            },
        }
    }
}

/// The position: bitboards, mailbox, side to move, reversible state and its
/// undo stack, plus the cached legal move list.
pub struct Board {
    pub pieces_bb: [[u64; 6]; 2],
    pub colors_bb: [u64; 2],
    pub color_to_move: PieceColor,
    pub piece_matrix: [Option<Piece>; 64],
    pub legal_moves: MoveList,
    pub current_gamestate: Gamestate,
    pub gamestate_stack: Vec<Gamestate>,
}

impl Board {
    /// The model of this board.
    pub open spec fn pos(self) -> Position {
        Position {
            pieces: self.pieces_bb.deep_view(),
            colors: self.colors_bb@,
            to_move: self.color_to_move,
            squares: self.piece_matrix@,
            state: self.current_gamestate,
            stack: self.gamestate_stack@,
        }
    }

    /// The cached legal moves, regenerated by `generate_legal_moves`.
    pub open spec fn cached_moves(self) -> Seq<Move> {
        self.legal_moves@
    }

    /// Builds a position from a descriptor of four whitespace-separated
    /// fields: placement, side to move, castling rights, en-passant target
    /// (trailing clock fields are ignored). Returns `None` exactly when the
    /// descriptor is malformed, and otherwise the denoted position with its
    /// legal moves already generated.
    #[verifier::rlimit(100)]
    #[verifier::spinoff_prover]
    pub fn new(fen_string: &str) -> (r: Option<Board>)
        ensures
            r is Some <==> spec_parse_fen(fen_string@) is Some,
            r matches Some(b) ==> {
                &&& Some(b.pos()) == spec_parse_fen(fen_string@)
                &&& pos_wf(b.pos())
                &&& b.cached_moves() == cap_moves(
                    crate::move_generation::spec_legal_moves(b.pos()),
                )
            },
    {
        let ghost s = fen_string@;
        let n = fen_string.unicode_len();
        let e0 = find_field_end(fen_string, 0);

        let mut piece_matrix: [Option<Piece>; 64] = [None; 64];
        proof {
            assert(piece_matrix@ =~= empty_squares());
        }
        let mut rank: u64 = 0;
        let mut file: u64 = 0;
        let mut i: usize = 0;
        while i < e0
            invariant
                i <= e0,
                e0 == field_end(s, 0),
                e0 <= n,
                n == s.len(),
                s == fen_string@,
                file <= 8,
                rank <= i,
                spec_placement(s, i as int, e0 as int, rank as int, file as int, piece_matrix@)
                    == spec_placement(s, 0, e0 as int, 0, 0, empty_squares()),
            decreases e0 - i,
        {
            let c = fen_string.get_char(i);
            if c == '/' {
                if file != 8 {
                    return None;
                }
                rank = rank + 1;
                file = 0;
            } else if '1' <= c && c <= '8' {
                let d = (c as u64) - ('0' as u64);
                if file + d > 8 {
                    return None;
                }
                file = file + d;
            } else {
                match piece_of_char(c) {
                    Some(piece) => {
                        if rank > 7 || file >= 8 {
                            return None;
                        }
                        let idx = (7 - rank) * 8 + file;
                        piece_matrix[idx as usize] = Some(piece);
                        file = file + 1;
                    },
                    None => {
                        if ('a' <= c && c <= 'z') || ('A' <= c && c <= 'Z') {
                            return None;
                        }
                        // any other character is silently skipped
                    },
                }
            }
            i = i + 1;
        }
        let ghost squares = piece_matrix@;
        proof {
            assert(Some(squares) == spec_placement(s, 0, e0 as int, 0, 0, empty_squares()));
        }

        if e0 >= n {
            return None;
        }
        let e1 = find_field_end(fen_string, e0 + 1);
        if e1 == e0 + 1 {
            return None;
        }
        let color_char = fen_string.get_char(e0 + 1);
        let color_to_move = if color_char == 'w' {
            PieceColor::White
        } else if color_char == 'b' {
            PieceColor::Black
        } else {
            return None;
        };
        if e1 >= n {
            return None;
        }
        let e2 = find_field_end(fen_string, e1 + 1);
        if e2 >= n {
            return None;
        }
        let e3 = find_field_end(fen_string, e2 + 1);
        let castling_str = fen_string.substring_char(e1 + 1, e2);
        let enpassant_str = fen_string.substring_char(e2 + 1, e3);
        let current_gamestate = match Gamestate::new(castling_str, enpassant_str) {
            Some(g) => g,
            None => {
                return None;
            },
        };

        let mut pieces_bb: [[u64; 6]; 2] = [[0; 6]; 2];
        pieces_bb[0][0] = build_bb(&piece_matrix, 0, 0);
        pieces_bb[0][1] = build_bb(&piece_matrix, 0, 1);
        pieces_bb[0][2] = build_bb(&piece_matrix, 0, 2);
        pieces_bb[0][3] = build_bb(&piece_matrix, 0, 3);
        pieces_bb[0][4] = build_bb(&piece_matrix, 0, 4);
        pieces_bb[0][5] = build_bb(&piece_matrix, 0, 5);
        pieces_bb[1][0] = build_bb(&piece_matrix, 1, 0);
        pieces_bb[1][1] = build_bb(&piece_matrix, 1, 1);
        pieces_bb[1][2] = build_bb(&piece_matrix, 1, 2);
        pieces_bb[1][3] = build_bb(&piece_matrix, 1, 3);
        pieces_bb[1][4] = build_bb(&piece_matrix, 1, 4);
        pieces_bb[1][5] = build_bb(&piece_matrix, 1, 5);
        let colors_bb: [u64; 2] = [
            pieces_bb[0][0] | pieces_bb[0][1] | pieces_bb[0][2] | pieces_bb[0][3]
                | pieces_bb[0][4] | pieces_bb[0][5],
            pieces_bb[1][0] | pieces_bb[1][1] | pieces_bb[1][2] | pieces_bb[1][3]
                | pieces_bb[1][4] | pieces_bb[1][5],
        ];

        let mut res = Board {
            pieces_bb,
            colors_bb,
            color_to_move,
            piece_matrix,
            legal_moves: MoveList::new(),
            current_gamestate,
            gamestate_stack: Vec::with_capacity(50),
        };
        proof {
            let expected = spec_parse_fen(s)->Some_0;
            assert(res.pos().pieces =~~= expected.pieces);
            assert(res.pos().colors =~= expected.colors);
            assert(res.pos().stack =~= expected.stack);
            assert(res.pos() == expected);
            lemma_derived_position_wf(res.pos());
        }
        res.generate_legal_moves();
        Some(res)
    }

    /// The cached legal move list of the current position.
    #[inline]
    pub fn get_legal_moves(&self) -> (r: &MoveList)
        ensures
            r@ == self.cached_moves(),
            r@.len() <= 255,
    {
        &self.legal_moves
    }

    /// Regenerates the cached legal move list; the position itself is
    /// untouched.
    pub fn generate_legal_moves(&mut self)
        ensures
            final(self).pos() == old(self).pos(),
            final(self).cached_moves() == cap_moves(
                crate::move_generation::spec_legal_moves(old(self).pos()),
            ),
    {
        let moves = crate::move_generation::generate_legal_moves(self);
        self.legal_moves = moves;
    }

    #[inline]
    pub fn get_pieces_bb(&self) -> (r: [[u64; 6]; 2])
        ensures
            r == self.pieces_bb,
            r.deep_view() == self.pos().pieces,
    {
        self.pieces_bb
    }

    #[inline]
    pub fn get_us_enemy_colors_bb(&self, us_color: PieceColor) -> (r: (u64, u64))
        ensures
            r.0 == self.pos().colors[us_color.ord()],
            r.1 == self.pos().colors[us_color.spec_opposite().ord()],
    {
        (self.colors_bb[us_color.idx()], self.colors_bb[us_color.opposite().idx()])
    }

    #[inline]
    pub fn get_color_to_move(&self) -> (r: PieceColor)
        ensures
            r == self.pos().to_move,
    {
        self.color_to_move
    }

    #[inline]
    pub fn get_piece_at(&self, index: u64) -> (r: Option<Piece>)
        requires
            index < 64,
        ensures
            r == self.pos().squares[index as int],
    {
        self.piece_matrix[index as usize]
    }

    #[inline]
    pub fn get_us_enemy_bitboards(&self, color_to_move: PieceColor) -> (r: (
        [u64; 6],
        [u64; 6],
        u64,
        u64,
    ))
        ensures
            r.0@ == self.pos().pieces[color_to_move.ord()],
            r.1@ == self.pos().pieces[color_to_move.spec_opposite().ord()],
            r.2 == self.pos().colors[color_to_move.ord()],
            r.3 == self.pos().colors[color_to_move.spec_opposite().ord()],
    {
        let us = color_to_move.idx();
        let enemy = color_to_move.opposite().idx();
        (self.pieces_bb[us], self.pieces_bb[enemy], self.colors_bb[us], self.colors_bb[enemy])
    }

    /// Plays `m` on the board. The result is exactly `spec_make` of the old
    /// model; this flips the side to move.
    #[verifier::rlimit(100)]
    #[verifier::spinoff_prover]
    pub fn make_move(&mut self, move_to_make: Move)
        requires
            move_exec_safe(move_to_make),
        ensures
            final(self).pos() == spec_make(old(self).pos(), move_to_make),
            final(self).cached_moves() == old(self).cached_moves(),
    {
        let ghost p0 = self.pos();
        let start_index = move_to_make.get_from();
        let land_index = move_to_make.get_to();
        let moved_piece = move_to_make.get_moved_piece();
        let moved_color = moved_piece.get_color();
        let moved_type = moved_piece.get_type();
        let enemy_color = moved_color.opposite();
        let mci = moved_color.idx();
        let eci = enemy_color.idx();
        let mti = moved_type.idx();

        self.gamestate_stack.push(self.current_gamestate);
        self.current_gamestate.last_piece_captured = None;
        self.current_gamestate.enpassant_square = None;

        let ft = (1u64 << start_index) | (1u64 << land_index);
        self.pieces_bb[mci][mti] = self.pieces_bb[mci][mti] ^ ft;
        self.colors_bb[mci] = self.colors_bb[mci] ^ ft;
        proof {
            let m = move_to_make;
            let p1 = Position {
                stack: p0.stack.push(p0.state),
                state: Gamestate { last_piece_captured: None, enpassant_square: None, ..p0.state },
                ..p0
            };
            let p2 = pos_toggle_color(pos_toggle_piece(p1, mci as int, mti as int, ft), mci as int, ft);
            assert(self.pos().pieces =~~= p2.pieces);
            assert(self.pos().colors =~= p2.colors);
            assert(self.pos() == p2);
        }

        // castling rights, or promotion bookkeeping
        if moved_type.idx() == 5 {
            self.current_gamestate.remove_castle_kingside(moved_color);
            self.current_gamestate.remove_castle_queenside(moved_color);
        } else if moved_type.idx() == 0 {
            if start_index == 0 || start_index == 56 {
                self.current_gamestate.remove_castle_queenside(moved_color);
            } else if start_index == 7 || start_index == 63 {
                self.current_gamestate.remove_castle_kingside(moved_color);
            }
        } else if move_to_make.is_promotion() {
            let promotion_type = move_to_make.get_promotion_type();
            let pti = promotion_type.idx();
            self.pieces_bb[mci][mti] = self.pieces_bb[mci][mti] ^ (1u64 << land_index);
            self.pieces_bb[mci][pti] = self.pieces_bb[mci][pti] ^ (1u64 << land_index);
            self.piece_matrix[start_index as usize] = Some(
                Piece::new(promotion_type, moved_color),
            );
            proof {
                let p2 = spec_make_p2(p0, move_to_make);
                let pt = PieceType::spec_from_index(move_to_make.spec_promotion_ord());
                let pa = pos_toggle_piece(
                    pos_toggle_piece(p2, mci as int, mti as int, 1u64 << land_index),
                    mci as int,
                    pt.ord(),
                    1u64 << land_index,
                );
                assert(self.pos().pieces =~~= pa.pieces);
                assert(self.pos().squares =~= pa.squares.update(
                    start_index as int,
                    Some(Piece { ptype: pt, color: moved_color }),
                ));
            }
        }
        proof {
            assert(self.pos() == spec_make_p3(p0, move_to_make));
        }

        let ghost p3 = spec_make_p3(p0, move_to_make);
        // double push, en passant, capture, or castle
        let diff = if start_index >= land_index {
            start_index - land_index
        } else {
            land_index - start_index
        };
        if diff == 16 && moved_type.idx() == 4 {
            match moved_color {
                PieceColor::White => {
                    self.current_gamestate.enpassant_square = Some(start_index + 8)
                },
                PieceColor::Black => {
                    self.current_gamestate.enpassant_square = Some(start_index - 8)
                },
            }
        } else if move_to_make.is_enpassant() {
            let enemy_pawn_index = match moved_color {
                PieceColor::White => land_index - 8,
                PieceColor::Black => land_index + 8,
            };
            self.pieces_bb[eci][4] = self.pieces_bb[eci][4] ^ (1u64 << enemy_pawn_index);
            self.colors_bb[eci] = self.colors_bb[eci] ^ (1u64 << enemy_pawn_index);
            self.piece_matrix[enemy_pawn_index as usize] = None;
            self.current_gamestate.last_piece_captured = Some(
                Piece::new(PieceType::Pawn, enemy_color),
            );
            proof {
                let epi = ep_victim_square(land_index, moved_color);
                let pa = pos_toggle_color(
                    pos_toggle_piece(p3, eci as int, 4, 1u64 << epi),
                    eci as int,
                    1u64 << epi,
                );
                assert(self.pos().pieces =~~= pa.pieces);
                assert(self.pos().colors =~= pa.colors);
                assert(self.pos().squares =~= pa.squares.update(epi as int, None));
            }
        } else if let Some(captured_piece) = self.get_piece_at(land_index) {
            let cti = captured_piece.get_type().idx();
            self.pieces_bb[eci][cti] = self.pieces_bb[eci][cti] ^ (1u64 << land_index);
            self.colors_bb[eci] = self.colors_bb[eci] ^ (1u64 << land_index);
            self.current_gamestate.last_piece_captured = Some(captured_piece);
            proof {
                let pa = pos_toggle_color(
                    pos_toggle_piece(p3, eci as int, cti as int, 1u64 << land_index),
                    eci as int,
                    1u64 << land_index,
                );
                assert(self.pos().pieces =~~= pa.pieces);
                assert(self.pos().colors =~= pa.colors);
            }
        } else if move_to_make.is_castle_kingside() {
            let rook_from = start_index + 3;
            let rook_to = start_index + 1;
            let rmask = (1u64 << rook_from) | (1u64 << rook_to);
            self.pieces_bb[mci][0] = self.pieces_bb[mci][0] ^ rmask;
            self.colors_bb[mci] = self.colors_bb[mci] ^ rmask;
            let rook_entry = self.piece_matrix[rook_from as usize];
            self.piece_matrix[rook_from as usize] = None;
            self.piece_matrix[rook_to as usize] = rook_entry;
            proof {
                let pa = pos_toggle_color(
                    pos_toggle_piece(p3, mci as int, 0, rmask),
                    mci as int,
                    rmask,
                );
                assert(self.pos().pieces =~~= pa.pieces);
                assert(self.pos().squares =~= pa.squares.update(rook_from as int, None).update(
                    rook_to as int,
                    pa.squares[rook_from as int],
                ));
            }
        } else if move_to_make.is_castle_queenside() {
            let rook_from = start_index - 4;
            let rook_to = start_index - 1;
            let rmask = (1u64 << rook_from) | (1u64 << rook_to);
            self.pieces_bb[mci][0] = self.pieces_bb[mci][0] ^ rmask;
            self.colors_bb[mci] = self.colors_bb[mci] ^ rmask;
            let rook_entry = self.piece_matrix[rook_from as usize];
            self.piece_matrix[rook_from as usize] = None;
            self.piece_matrix[rook_to as usize] = rook_entry;
            proof {
                let pa = pos_toggle_color(
                    pos_toggle_piece(p3, mci as int, 0, rmask),
                    mci as int,
                    rmask,
                );
                assert(self.pos().pieces =~~= pa.pieces);
                assert(self.pos().squares =~= pa.squares.update(rook_from as int, None).update(
                    rook_to as int,
                    pa.squares[rook_from as int],
                ));
            }
        }
        proof {
            assert(self.pos() == spec_make_p4(p0, move_to_make));
        }

        let moved_entry = self.piece_matrix[start_index as usize];
        self.piece_matrix[start_index as usize] = None;
        self.piece_matrix[land_index as usize] = moved_entry;
        self.color_to_move = self.color_to_move.opposite();
        proof {
            let p4 = spec_make_p4(p0, move_to_make);
            assert(self.pos().squares =~= p4.squares.update(start_index as int, None).update(
                land_index as int,
                p4.squares[start_index as int],
            ));
            assert(self.pos() == spec_make(p0, move_to_make));
        }
    }

    /// Reverses `m`, the most recent move: the result is exactly
    /// `spec_unmake` of the old model. This flips the side to move and pops
    /// the reversible state.
    #[verifier::rlimit(100)]
    #[verifier::spinoff_prover]
    pub fn unmake_move(&mut self, move_to_unmake: Move)
        requires
            move_exec_safe(move_to_unmake),
            old(self).pos().stack.len() > 0,
        ensures
            final(self).pos() == spec_unmake(old(self).pos(), move_to_unmake),
            final(self).cached_moves() == old(self).cached_moves(),
    {
        let ghost p0 = self.pos();
        let start_index = move_to_unmake.get_from();
        let land_index = move_to_unmake.get_to();
        let moved_piece = move_to_unmake.get_moved_piece();
        let moved_color = moved_piece.get_color();
        let enemy_color = moved_color.opposite();
        let mci = moved_color.idx();
        let eci = enemy_color.idx();
        let mti = moved_piece.get_type().idx();

        let ft = (1u64 << start_index) | (1u64 << land_index);
        self.pieces_bb[mci][mti] = self.pieces_bb[mci][mti] ^ ft;
        self.colors_bb[mci] = self.colors_bb[mci] ^ ft;
        let moved_entry = self.piece_matrix[land_index as usize];
        self.piece_matrix[land_index as usize] = None;
        self.piece_matrix[start_index as usize] = moved_entry;
        proof {
            let q1 = pos_toggle_color(pos_toggle_piece(p0, mci as int, mti as int, ft), mci as int, ft);
            let q2 = Position {
                squares: q1.squares.update(land_index as int, None).update(
                    start_index as int,
                    q1.squares[land_index as int],
                ),
                ..q1
            };
            assert(self.pos().pieces =~~= q2.pieces);
            assert(self.pos().colors =~= q2.colors);
            assert(self.pos().squares =~= q2.squares);
            assert(self.pos() == q2);
        }

        if move_to_unmake.is_promotion() {
            let promotion_type = move_to_unmake.get_promotion_type();
            let pti = promotion_type.idx();
            self.pieces_bb[mci][pti] = self.pieces_bb[mci][pti] ^ (1u64 << land_index);
            self.pieces_bb[mci][4] = self.pieces_bb[mci][4] ^ (1u64 << land_index);
            self.piece_matrix[start_index as usize] = Some(
                Piece::new(PieceType::Pawn, moved_color),
            );
            proof {
                let q2 = spec_unmake_q2(p0, move_to_unmake);
                let pt = PieceType::spec_from_index(move_to_unmake.spec_promotion_ord());
                let qa = pos_toggle_piece(
                    pos_toggle_piece(q2, mci as int, pt.ord(), 1u64 << land_index),
                    mci as int,
                    4,
                    1u64 << land_index,
                );
                assert(self.pos().pieces =~~= qa.pieces);
                assert(self.pos().squares =~= qa.squares.update(
                    start_index as int,
                    Some(Piece { ptype: PieceType::Pawn, color: moved_color }),
                ));
            }
        }
        proof {
            assert(self.pos() == spec_unmake_q3(p0, move_to_unmake));
        }
        let ghost q3 = spec_unmake_q3(p0, move_to_unmake);

        if move_to_unmake.is_enpassant() {
            let enemy_pawn_index = match moved_color {
                PieceColor::White => land_index - 8,
                PieceColor::Black => land_index + 8,
            };
            self.pieces_bb[eci][4] = self.pieces_bb[eci][4] ^ (1u64 << enemy_pawn_index);
            self.colors_bb[eci] = self.colors_bb[eci] ^ (1u64 << enemy_pawn_index);
            self.piece_matrix[enemy_pawn_index as usize] = Some(
                Piece::new(PieceType::Pawn, enemy_color),
            );
            proof {
                let epi = ep_victim_square(land_index, moved_color);
                let qa = pos_toggle_color(
                    pos_toggle_piece(q3, eci as int, 4, 1u64 << epi),
                    eci as int,
                    1u64 << epi,
                );
                assert(self.pos().pieces =~~= qa.pieces);
                assert(self.pos().colors =~= qa.colors);
                assert(self.pos().squares =~= qa.squares.update(
                    epi as int,
                    Some(Piece { ptype: PieceType::Pawn, color: enemy_color }),
                ));
            }
        } else if let Some(captured_piece) = self.current_gamestate.get_last_piece_captured() {
            let cti = captured_piece.get_type().idx();
            self.pieces_bb[eci][cti] = self.pieces_bb[eci][cti] ^ (1u64 << land_index);
            self.colors_bb[eci] = self.colors_bb[eci] ^ (1u64 << land_index);
            self.piece_matrix[land_index as usize] = Some(captured_piece);
            proof {
                let qa = pos_toggle_color(
                    pos_toggle_piece(q3, eci as int, cti as int, 1u64 << land_index),
                    eci as int,
                    1u64 << land_index,
                );
                assert(self.pos().pieces =~~= qa.pieces);
                assert(self.pos().colors =~= qa.colors);
                assert(self.pos().squares =~= qa.squares.update(
                    land_index as int,
                    Some(captured_piece),
                ));
            }
        } else if move_to_unmake.is_castle_kingside() {
            let rook_from = start_index + 3;
            let rook_to = start_index + 1;
            let rmask = (1u64 << rook_from) | (1u64 << rook_to);
            self.pieces_bb[mci][0] = self.pieces_bb[mci][0] ^ rmask;
            self.colors_bb[mci] = self.colors_bb[mci] ^ rmask;
            let rook_entry = self.piece_matrix[rook_to as usize];
            self.piece_matrix[rook_to as usize] = None;
            self.piece_matrix[rook_from as usize] = rook_entry;
            proof {
                let qa = pos_toggle_color(
                    pos_toggle_piece(q3, mci as int, 0, rmask),
                    mci as int,
                    rmask,
                );
                assert(self.pos().pieces =~~= qa.pieces);
                assert(self.pos().squares =~= qa.squares.update(rook_to as int, None).update(
                    rook_from as int,
                    qa.squares[rook_to as int],
                ));
            }
        } else if move_to_unmake.is_castle_queenside() {
            let rook_from = start_index - 4;
            let rook_to = start_index - 1;
            let rmask = (1u64 << rook_from) | (1u64 << rook_to);
            self.pieces_bb[mci][0] = self.pieces_bb[mci][0] ^ rmask;
            self.colors_bb[mci] = self.colors_bb[mci] ^ rmask;
            let rook_entry = self.piece_matrix[rook_to as usize];
            self.piece_matrix[rook_to as usize] = None;
            self.piece_matrix[rook_from as usize] = rook_entry;
            proof {
                let qa = pos_toggle_color(
                    pos_toggle_piece(q3, mci as int, 0, rmask),
                    mci as int,
                    rmask,
                );
                assert(self.pos().pieces =~~= qa.pieces);
                assert(self.pos().squares =~= qa.squares.update(rook_to as int, None).update(
                    rook_from as int,
                    qa.squares[rook_to as int],
                ));
            }
        }

        self.current_gamestate = match self.gamestate_stack.pop() {
            Some(g) => g,
            None => {
                proof {
                    assert(false);
                }
                self.current_gamestate
            },
        };
        self.color_to_move = self.color_to_move.opposite();
        proof {
            assert(self.pos().stack =~= p0.stack.drop_last());
            assert(self.pos() == spec_unmake(p0, move_to_unmake));
        }
    }
}

/// The model after the first stage of `spec_make`: state pushed and the
/// moving piece's bits toggled.
pub open spec fn spec_make_p2(p: Position, m: Move) -> Position {
    let start = m.spec_from();
    let land = m.spec_to();
    let mc = m.moved_piece.color;
    let mt = m.moved_piece.ptype;
    let ft = (1u64 << start) | (1u64 << land);
    let p1 = Position {
        stack: p.stack.push(p.state),
        state: Gamestate { last_piece_captured: None, enpassant_square: None, ..p.state },
        ..p
    };
    pos_toggle_color(pos_toggle_piece(p1, mc.ord(), mt.ord(), ft), mc.ord(), ft)
}

/// The model after the castling-rights / promotion stage of `spec_make`.
pub open spec fn spec_make_p3(p: Position, m: Move) -> Position {
    let start = m.spec_from();
    let land = m.spec_to();
    let mc = m.moved_piece.color;
    let mt = m.moved_piece.ptype;
    let p2 = spec_make_p2(p, m);
    if mt == PieceType::King {
        Position {
            state: p2.state.spec_remove_castle_kingside(mc).spec_remove_castle_queenside(mc),
            ..p2
        }
    } else if mt == PieceType::Rook {
        if start == 0 || start == 56 {
            Position { state: p2.state.spec_remove_castle_queenside(mc), ..p2 }
        } else if start == 7 || start == 63 {
            Position { state: p2.state.spec_remove_castle_kingside(mc), ..p2 }
        } else {
            p2
        }
    } else if m.spec_is_promotion() {
        let pt = PieceType::spec_from_index(m.spec_promotion_ord());
        let pa = pos_toggle_piece(
            pos_toggle_piece(p2, mc.ord(), mt.ord(), 1u64 << land),
            mc.ord(),
            pt.ord(),
            1u64 << land,
        );
        Position {
            squares: pa.squares.update(start as int, Some(Piece { ptype: pt, color: mc })),
            ..pa
        }
    } else {
        p2
    }
}

/// The model after the double-push / en-passant / capture / castle stage of
/// `spec_make`.
pub open spec fn spec_make_p4(p: Position, m: Move) -> Position {
    let start = m.spec_from();
    let land = m.spec_to();
    let mc = m.moved_piece.color;
    let mt = m.moved_piece.ptype;
    let ec = mc.spec_opposite();
    let eci = ec.ord();
    let mci = mc.ord();
    let p3 = spec_make_p3(p, m);
    if abs_diff(start, land) == 16 && mt == PieceType::Pawn {
        let skipped = match mc {
            PieceColor::White => (start + 8) as u64,
            PieceColor::Black => (start - 8) as u64,
        };
        Position { state: Gamestate { enpassant_square: Some(skipped), ..p3.state }, ..p3 }
    } else if m.spec_is_enpassant() {
        let epi = ep_victim_square(land, mc);
        let pa = pos_toggle_color(
            pos_toggle_piece(p3, eci, PieceType::Pawn.ord(), 1u64 << epi),
            eci,
            1u64 << epi,
        );
        Position {
            squares: pa.squares.update(epi as int, None),
            state: Gamestate {
                last_piece_captured: Some(Piece { ptype: PieceType::Pawn, color: ec }),
                ..pa.state
            },
            ..pa
        }
    } else {
        match p3.squares[land as int] {
            Some(captured) => {
                let pa = pos_toggle_color(
                    pos_toggle_piece(p3, eci, captured.ptype.ord(), 1u64 << land),
                    eci,
                    1u64 << land,
                );
                Position {
                    state: Gamestate { last_piece_captured: Some(captured), ..pa.state },
                    ..pa
                }
            },
            None => {
                if m.spec_is_castle_kingside() {
                    let rf = (start + 3) as u64;
                    let rt = (start + 1) as u64;
                    let pa = pos_toggle_color(
                        pos_toggle_piece(p3, mci, PieceType::Rook.ord(), (1u64 << rf) | (1u64
                            << rt)),
                        mci,
                        (1u64 << rf) | (1u64 << rt),
                    );
                    Position {
                        squares: pa.squares.update(rf as int, None).update(
                            rt as int,
                            pa.squares[rf as int],
                        ),
                        ..pa
                    }
                } else if m.spec_is_castle_queenside() {
                    let rf = (start - 4) as u64;
                    let rt = (start - 1) as u64;
                    let pa = pos_toggle_color(
                        pos_toggle_piece(p3, mci, PieceType::Rook.ord(), (1u64 << rf) | (1u64
                            << rt)),
                        mci,
                        (1u64 << rf) | (1u64 << rt),
                    );
                    Position {
                        squares: pa.squares.update(rf as int, None).update(
                            rt as int,
                            pa.squares[rf as int],
                        ),
                        ..pa
                    }
                } else {
                    p3
                }
            },
        }
    }
}

/// The make/unmake round-trip law: unmaking a move that fits the position
/// restores it exactly — bitboards, occupancies, mailbox, side to move,
/// reversible state and undo stack alike.
#[verifier::rlimit(100)]
#[verifier::spinoff_prover]
pub proof fn lemma_unmake_inverts_make(p: Position, m: Move)
    requires
        pos_shape(p),
        move_ok(p, m),
    ensures
        spec_unmake(spec_make(p, m), m) == p,
{
    crate::bitboard::lemma_xor_cancel();
    let start = m.spec_from();
    let land = m.spec_to();
    let code = m.move_code;
    assert(((code & 0x3f) as u64) < 64 && (((code >> 6) & 0x3f) as u64) < 64) by (bit_vector);
    assert(start < 64 && land < 64);
    let mc = m.moved_piece.color;
    let mt = m.moved_piece.ptype;
    let ec = mc.spec_opposite();
    let mci = mc.ord();
    let eci = ec.ord();
    let ft = (1u64 << start) | (1u64 << land);
    let p2 = spec_make_p2(p, m);
    let p3 = spec_make_p3(p, m);
    let p4 = spec_make_p4(p, m);
    let pm = spec_make(p, m);
    let q2 = spec_unmake_q2(pm, m);
    let q3 = spec_unmake_q3(pm, m);
    let q4 = spec_unmake_q4(pm, m);
    let res = spec_unmake(pm, m);
    assert(pm.stack == p.stack.push(p.state));
    assert(res.state == p.state);
    assert(res.stack =~= p.stack);
    assert(res.to_move == p.to_move);

    assert(p2.pieces =~~= p.pieces.update(
        mci,
        p.pieces[mci].update(mt.ord(), p.pieces[mci][mt.ord()] ^ ft),
    ));
    assert(p3.pieces[mci].len() == 6);
    assert(p3.squares[land as int] == p.squares[land as int]);
    assert(p3.squares[start as int] == (if m.spec_is_promotion() {
        Some(
            Piece {
                ptype: PieceType::spec_from_index(m.spec_promotion_ord()),
                color: mc,
            },
        )
    } else {
        p.squares[start as int]
    }));

    if mt == PieceType::Pawn && abs_diff(start, land) == 16 {
        assert(p4.pieces == p3.pieces && p4.colors == p3.colors && p4.squares == p3.squares);
        assert(pm.state.last_piece_captured is None);
        assert(!m.spec_is_enpassant() && !m.spec_is_castle_kingside()
            && !m.spec_is_castle_queenside() && !m.spec_is_promotion());
        assert(q4 == q3);
        assert(q3 == q2);
        assert(q2.pieces =~~= p.pieces);
        assert(q2.colors =~= p.colors);
        assert(q2.squares =~= p.squares);
    } else if m.spec_is_enpassant() {
        let epi = ep_victim_square(land, mc);
        assert(epi != start && epi != land && epi < 64);
        assert(pm.state.last_piece_captured == Some(Piece { ptype: PieceType::Pawn, color: ec }));
        assert(!m.spec_is_promotion());
        assert(q3 == q2);
        assert(q4.pieces =~~= p.pieces);
        assert(q4.colors =~= p.colors);
        assert(q4.squares =~= p.squares);
    } else {
        match p.squares[land as int] {
            Some(captured) => {
                assert(pm.state.last_piece_captured == Some(captured));
                assert(q4.pieces =~~= p.pieces);
                assert(q4.colors =~= p.colors);
                assert(q4.squares =~= p.squares);
            },
            None => {
                assert(pm.state.last_piece_captured is None);
                if m.spec_is_castle_kingside() {
                    let rf = (start + 3) as u64;
                    let rt = (start + 1) as u64;
                    assert(rf != start && rf != land && rt != start && rt != land && rf != rt);
                    assert(!m.spec_is_promotion());
                    assert(q3 == q2);
                    assert(q4.pieces =~~= p.pieces);
                    assert(q4.colors =~= p.colors);
                    assert(q4.squares =~= p.squares);
                } else if m.spec_is_castle_queenside() {
                    let rf = (start - 4) as u64;
                    let rt = (start - 1) as u64;
                    assert(rf != start && rf != land && rt != start && rt != land && rf != rt);
                    assert(!m.spec_is_promotion());
                    assert(q3 == q2);
                    assert(q4.pieces =~~= p.pieces);
                    assert(q4.colors =~= p.colors);
                    assert(q4.squares =~= p.squares);
                } else {
                    assert(q4 == q3);
                    assert(q3.pieces =~~= p.pieces);
                    assert(q3.colors =~= p.colors);
                    assert(q3.squares =~= p.squares);
                }
            },
        }
    }
    assert(res.pieces == q4.pieces && res.colors == q4.colors && res.squares == q4.squares);
    assert(res.pieces =~~= p.pieces);
    assert(res.colors =~= p.colors);
    assert(res.squares =~= p.squares);
}

/// The position reached by making each move of `ms` in turn from `p`.
pub open spec fn spec_make_seq(p: Position, ms: Seq<Move>) -> Position
    decreases ms.len(),
{
    if ms.len() == 0 {
        p
    } else {
        spec_make_seq(spec_make(p, ms[0]), ms.skip(1))
    }
}

/// Whether each move of `ms` fits the position it is played in.
pub open spec fn moves_fit_seq(p: Position, ms: Seq<Move>) -> bool
    decreases ms.len(),
{
    if ms.len() == 0 {
        true
    } else {
        move_ok(p, ms[0]) && moves_fit_seq(spec_make(p, ms[0]), ms.skip(1))
    }
}

/// The position reached by unmaking the moves of `ms` in reverse order.
pub open spec fn spec_unmake_seq(p: Position, ms: Seq<Move>) -> Position
    decreases ms.len(),
{
    if ms.len() == 0 {
        p
    } else {
        spec_unmake_seq(spec_unmake(p, ms.last()), ms.drop_last())
    }
}

/// `spec_make` keeps the model's shape.
pub proof fn lemma_make_shape(p: Position, m: Move)
    requires
        pos_shape(p),
        move_ok(p, m),
    ensures
        pos_shape(spec_make(p, m)),
{
    let code = m.move_code;
    assert(((code & 0x3f) as u64) < 64 && (((code >> 6) & 0x3f) as u64) < 64) by (bit_vector);
    assert(m.spec_from() < 64 && m.spec_to() < 64);
}

/// Making one more move is making the earlier ones and then that one.
pub proof fn lemma_make_seq_snoc(p: Position, ms: Seq<Move>, m: Move)
    ensures
        spec_make_seq(p, ms.push(m)) == spec_make(spec_make_seq(p, ms), m),
    decreases ms.len(),
{
    if ms.len() == 0 {
        assert(ms.push(m)[0] == m);
        assert(ms.push(m).skip(1) =~= Seq::<Move>::empty());
        assert(spec_make_seq(p, ms.push(m)) == spec_make_seq(spec_make(p, m), Seq::<Move>::empty()));
    } else {
        assert(ms.push(m)[0] == ms[0]);
        assert(ms.push(m).skip(1) =~= ms.skip(1).push(m));
        assert(spec_make_seq(p, ms.push(m)) == spec_make_seq(
            spec_make(p, ms[0]),
            ms.skip(1).push(m),
        ));
        lemma_make_seq_snoc(spec_make(p, ms[0]), ms.skip(1), m);
        assert(spec_make_seq(p, ms) == spec_make_seq(spec_make(p, ms[0]), ms.skip(1)));
    }
}

/// Every position reachable by a fitting walk from a well-formed start is
/// well-formed: the reachability form of the consistency invariant.
pub proof fn lemma_make_seq_preserves_wf(p: Position, ms: Seq<Move>)
    requires
        pos_wf(p),
        moves_fit_seq(p, ms),
    ensures
        pos_wf(spec_make_seq(p, ms)),
    decreases ms.len(),
{
    if ms.len() > 0 {
        lemma_make_preserves_wf(p, ms[0]);
        lemma_make_seq_preserves_wf(spec_make(p, ms[0]), ms.skip(1));
    }
}

/// The whole walk keeps the model's shape.
pub proof fn lemma_make_seq_shape(p: Position, ms: Seq<Move>)
    requires
        pos_shape(p),
        moves_fit_seq(p, ms),
    ensures
        pos_shape(spec_make_seq(p, ms)),
    decreases ms.len(),
{
    if ms.len() > 0 {
        lemma_make_shape(p, ms[0]);
        lemma_make_seq_shape(spec_make(p, ms[0]), ms.skip(1));
    }
}

/// Of a fitting walk, the opening moves fit too, and the last move fits the
/// position the opening moves reach.
pub proof fn lemma_fits_last(p: Position, ms: Seq<Move>)
    requires
        ms.len() > 0,
        moves_fit_seq(p, ms),
    ensures
        moves_fit_seq(p, ms.drop_last()),
        move_ok(spec_make_seq(p, ms.drop_last()), ms.last()),
    decreases ms.len(),
{
    if ms.len() == 1 {
        assert(ms.drop_last() =~= Seq::<Move>::empty());
        assert(ms.last() == ms[0]);
    } else {
        let p1 = spec_make(p, ms[0]);
        lemma_fits_last(p1, ms.skip(1));
        assert(ms.drop_last()[0] == ms[0]);
        assert(ms.drop_last().skip(1) =~= ms.skip(1).drop_last());
        assert(ms.skip(1).last() == ms.last());
    }
}

/// The make/unmake round trip for a whole walk: making each move of a
/// fitting sequence in turn and then unmaking them in reverse order
/// restores the starting position exactly.
pub proof fn lemma_unmake_seq_inverts_make_seq(p: Position, ms: Seq<Move>)
    requires
        pos_shape(p),
        moves_fit_seq(p, ms),
    ensures
        spec_unmake_seq(spec_make_seq(p, ms), ms) == p,
    decreases ms.len(),
{
    if ms.len() > 0 {
        let dl = ms.drop_last();
        let lm = ms.last();
        lemma_fits_last(p, ms);
        lemma_make_seq_shape(p, dl);
        let q = spec_make_seq(p, dl);
        assert(dl.push(lm) =~= ms);
        lemma_make_seq_snoc(p, dl, lm);
        assert(spec_make_seq(p, ms) == spec_make(q, lm));
        lemma_unmake_inverts_make(q, lm);
        lemma_unmake_seq_inverts_make_seq(p, dl);
    }
}

/// The model after the first stage of `spec_unmake`: bits toggled back and
/// the mailbox entry moved home.
pub open spec fn spec_unmake_q2(p: Position, m: Move) -> Position {
    let start = m.spec_from();
    let land = m.spec_to();
    let mc = m.moved_piece.color;
    let mt = m.moved_piece.ptype;
    let ft = (1u64 << start) | (1u64 << land);
    let q1 = pos_toggle_color(pos_toggle_piece(p, mc.ord(), mt.ord(), ft), mc.ord(), ft);
    Position {
        squares: q1.squares.update(land as int, None).update(start as int, q1.squares[land as int]),
        ..q1
    }
}

/// The model after the promotion-reversal stage of `spec_unmake`.
pub open spec fn spec_unmake_q3(p: Position, m: Move) -> Position {
    let start = m.spec_from();
    let land = m.spec_to();
    let mc = m.moved_piece.color;
    let q2 = spec_unmake_q2(p, m);
    if m.spec_is_promotion() {
        let pt = PieceType::spec_from_index(m.spec_promotion_ord());
        let qa = pos_toggle_piece(
            pos_toggle_piece(q2, mc.ord(), pt.ord(), 1u64 << land),
            mc.ord(),
            PieceType::Pawn.ord(),
            1u64 << land,
        );
        Position {
            squares: qa.squares.update(
                start as int,
                Some(Piece { ptype: PieceType::Pawn, color: mc }),
            ),
            ..qa
        }
    } else {
        q2
    }
}

} // verus!
