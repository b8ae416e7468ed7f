use vstd::prelude::*;
use std::sync::Arc;
use crate::bitboard::{bit_set, popcount, lemma_bit_and, lemma_bit_or, lemma_bits_ext, lemma_bit_zero, Bitboard};
use crate::attacks::{bishop_attack, rook_attack, queen_attack, knight_jump, king_step, pawn_capture_target, queen_attacks, bishop_attacks, king_attacks, knight_attacks, pawn_attacks, piece_attacks, rook_attacks, lemma_bishop_symmetric, lemma_rook_symmetric};
use crate::nnue::accumulator::Accumulator;
use crate::nnue::NNUE;
use crate::nnue::tracking::{lemma_holds_tracks, lemma_track_move, lemma_track_replace, side_step, side_tracks};
use crate::nnue::feature::{feature_index_for_perspective, spec_feature_index_for_perspective};
use crate::types::{color_from_index, piece_type_from_index, piece_type_of_index, see_piece_value, see_value, spec_is_capture, spec_flag, spec_from_sq, spec_is_promotion, spec_promotion_type, spec_to_sq, CastlingRights, Color, Move, Piece, PieceType, Square};
use vstd::std_specs::bits::u64_trailing_zeros;
use crate::zobrist::{
    castling_key, ep_key, piece_key, side_key, spec_castling_key, spec_ep_key, spec_piece_key,
    spec_side_key, ZobristKeys,
};

verus! {

/// Xor rearrangements used to track the incremental key, proved by bit-blasting.
proof fn xor_facts(a: u64, b: u64, c: u64, d: u64, e: u64)
    by (bit_vector)
    ensures
        (a ^ b) ^ c == a ^ (b ^ c),
        a ^ b == b ^ a,
        a ^ a == 0,
        a ^ 0 == a,
        0 ^ a == a,
        (a ^ b ^ c ^ d) ^ d == a ^ b ^ c ^ 0,
        a ^ b ^ c ^ 0 == a ^ b ^ c,
        (a ^ b ^ c ^ 0) ^ e == a ^ b ^ c ^ e,
        (a ^ b ^ c ^ d) ^ c ^ e == a ^ b ^ e ^ d,
        (a ^ 0 ^ c ^ d) ^ e == a ^ e ^ c ^ d,
        (a ^ e ^ c ^ d) ^ e == a ^ 0 ^ c ^ d,
        (a ^ b ^ c ^ d) ^ e == (a ^ e) ^ b ^ c ^ d,
        (a ^ b) ^ c == a ^ (c ^ b),
        (a ^ 0) ^ b == a ^ b,
        (a ^ b) ^ b == a,
        (a ^ b) ^ c == (a ^ c) ^ b,
{
}

/// The squares between king and rook that castling needs empty, read from
/// an occupancy word.
pub proof fn lemma_castle_masks(occ: u64)
    ensures
        (occ & 0x60 == 0) == (!bit_set(occ, 5) && !bit_set(occ, 6)),
        (occ & 0x0E == 0) == (!bit_set(occ, 1) && !bit_set(occ, 2) && !bit_set(occ, 3)),
        (occ & 0x6000000000000000 == 0) == (!bit_set(occ, 61) && !bit_set(occ, 62)),
        (occ & 0x0E00000000000000 == 0) == (!bit_set(occ, 57) && !bit_set(occ, 58) && !bit_set(occ, 59)),
{
    castle_mask_bits(occ);
}

proof fn castle_mask_bits(occ: u64)
    by (bit_vector)
    ensures
        (occ & 0x60 == 0) == ((occ >> 5u64) & 1 != 1 && (occ >> 6u64) & 1 != 1),
        (occ & 0x0E == 0) == ((occ >> 1u64) & 1 != 1 && (occ >> 2u64) & 1 != 1 && (occ >> 3u64) & 1 != 1),
        (occ & 0x6000000000000000 == 0) == ((occ >> 61u64) & 1 != 1 && (occ >> 62u64) & 1 != 1),
        (occ & 0x0E00000000000000 == 0) == ((occ >> 57u64) & 1 != 1 && (occ >> 58u64) & 1 != 1 && (occ >> 59u64) & 1 != 1),
{
}

/// Xor of `a`, `b`, `c` in any grouping.
pub proof fn lemma_xor_facts(a: u64, b: u64, c: u64)
    ensures
        (a ^ b) ^ c == a ^ (b ^ c),
        a ^ b == b ^ a,
        a ^ a == 0,
        a ^ 0 == a,
        0 ^ a == a,
{
    xor_facts(a, b, c, 0, 0);
}

/// Xor of the keys of a piece of `c` and type `pt` standing on every set
/// square of `bb` below `n`.
pub open spec fn bb_keys(bb: u64, c: Color, pt: PieceType, n: nat) -> u64
    decreases n,
{
    if n == 0 {
        0
    } else {
        bb_keys(bb, c, pt, (n - 1) as nat) ^ (if bit_set(bb, n - 1) {
            spec_piece_key(c, pt, n - 1)
        } else {
            0
        })
    }
}

/// Flipping one square of a bitboard flips that square's key in the xor.
pub proof fn lemma_bb_keys_toggle(a: u64, b: u64, c: Color, pt: PieceType, sq: int, n: nat)
    requires
        0 <= sq < 64,
        forall|s: int| s != sq ==> bit_set(a, s) == bit_set(b, s),
        bit_set(a, sq) != bit_set(b, sq),
    ensures
        bb_keys(b, c, pt, n) == bb_keys(a, c, pt, n) ^ (if sq < n {
            spec_piece_key(c, pt, sq)
        } else {
            0
        }),
    decreases n,
{
    if n == 0 {
        lemma_xor_facts(0, 0, 0);
    } else {
        lemma_bb_keys_toggle(a, b, c, pt, sq, (n - 1) as nat);
        let ka = bb_keys(a, c, pt, (n - 1) as nat);
        let kb = bb_keys(b, c, pt, (n - 1) as nat);
        let k = spec_piece_key(c, pt, sq);
        let ta = if bit_set(a, n - 1) { spec_piece_key(c, pt, n - 1) } else { 0 };
        let tb = if bit_set(b, n - 1) { spec_piece_key(c, pt, n - 1) } else { 0 };
        assert(bb_keys(a, c, pt, n) == ka ^ ta);
        assert(bb_keys(b, c, pt, n) == kb ^ tb);
        xor_facts(ka, k, ta, 0, 0);
        xor_facts(ka ^ ta, 0, 0, 0, 0);
        if sq == n - 1 {
            assert(kb == ka);
        } else if sq < n - 1 {
            assert(kb == ka ^ k);
            assert(ta == tb);
        } else {
            assert(kb == ka);
            assert(ta == tb);
        }
    }
}

pub proof fn lemma_bb_keys_zero(c: Color, pt: PieceType, n: nat)
    ensures
        bb_keys(0, c, pt, n) == 0,
    decreases n,
{
    if n > 0 {
        lemma_bb_keys_zero(c, pt, (n - 1) as nat);
        lemma_bit_zero(n - 1);
        lemma_xor_facts(0, 0, 0);
    }
}

/// Hash contribution of group `g`: the pieces of type `g / 2` and color `g % 2`.
pub open spec fn group_keys(pieces: [Bitboard; 6], colors: [Bitboard; 2], g: int) -> u64 {
    bb_keys(
        pieces[g / 2].0 & colors[g % 2].0,
        color_from_index(g % 2),
        piece_type_from_index(g / 2),
        64,
    )
}

/// Xor of the first `n` groups.
pub open spec fn groups_keys(pieces: [Bitboard; 6], colors: [Bitboard; 2], n: nat) -> u64
    decreases n,
{
    if n == 0 {
        0
    } else {
        groups_keys(pieces, colors, (n - 1) as nat) ^ group_keys(pieces, colors, n - 1)
    }
}

proof fn lemma_groups_change(
    p1: [Bitboard; 6],
    c1: [Bitboard; 2],
    p2: [Bitboard; 6],
    c2: [Bitboard; 2],
    g0: int,
    d: u64,
    n: nat,
)
    requires
        0 <= g0 < 12,
        n <= 12,
        forall|g: int| 0 <= g < 12 && g != g0 ==> group_keys(p2, c2, g) == group_keys(p1, c1, g),
        group_keys(p2, c2, g0) == group_keys(p1, c1, g0) ^ d,
    ensures
        groups_keys(p2, c2, n) == groups_keys(p1, c1, n) ^ (if g0 < n {
            d
        } else {
            0
        }),
    decreases n,
{
    if n == 0 {
        lemma_xor_facts(0, 0, 0);
    } else {
        lemma_groups_change(p1, c1, p2, c2, g0, d, (n - 1) as nat);
        let x = groups_keys(p1, c1, (n - 1) as nat);
        let y = group_keys(p1, c1, n - 1);
        if g0 == n - 1 {
            lemma_xor_facts(x, 0, 0);
            lemma_xor_facts(x, y, d);
        } else if g0 < n - 1 {
            lemma_xor_facts(x, d, y);
            lemma_xor_facts(d, y, 0);
            lemma_xor_facts(x, y, d);
        } else {
            lemma_xor_facts(x, 0, 0);
            lemma_xor_facts(x ^ y, 0, 0);
        }
    }
}

/// The Zobrist key of all pieces on the board.
pub open spec fn pieces_hash(pieces: [Bitboard; 6], colors: [Bitboard; 2]) -> u64 {
    groups_keys(pieces, colors, 12)
}

/// Toggling one square of type `pt` and color `c` in the bitboards, when
/// that square holds either nothing or exactly that piece, flips the piece's
/// key in the hash.
proof fn lemma_toggle_hash(
    p1: [Bitboard; 6],
    c1: [Bitboard; 2],
    p2: [Bitboard; 6],
    c2: [Bitboard; 2],
    sq: int,
    pt: PieceType,
    c: Color,
    occ: bool,
)
    requires
        0 <= sq < 64,
        forall|t: int, s: int| 0 <= t < 6 ==> #[trigger] bit_set(p2[t].0, s) == (bit_set(p1[t].0, s) != (t == pt.spec_index() && s == sq)),
        forall|ci: int, s: int| 0 <= ci < 2 ==> #[trigger] bit_set(c2[ci].0, s) == (bit_set(c1[ci].0, s) != (ci == c.spec_index() && s == sq)),
        forall|t: int| 0 <= t < 6 ==> #[trigger] bit_set(p1[t].0, sq) == (occ && t == pt.spec_index()),
        forall|ci: int| 0 <= ci < 2 ==> #[trigger] bit_set(c1[ci].0, sq) == (occ && ci == c.spec_index()),
    ensures
        pieces_hash(p2, c2) == pieces_hash(p1, c1) ^ spec_piece_key(c, pt, sq),
{
    let g0 = pt.spec_index() * 2 + c.spec_index();
    assert forall|g: int| 0 <= g < 12 && g != g0 implies group_keys(p2, c2, g) == group_keys(p1, c1, g) by {
        let a = p1[g / 2].0 & c1[g % 2].0;
        let b = p2[g / 2].0 & c2[g % 2].0;
        assert forall|s: int| 0 <= s < 64 implies bit_set(a, s) == bit_set(b, s) by {
            lemma_bit_and(p1[g / 2].0, c1[g % 2].0, s);
            lemma_bit_and(p2[g / 2].0, c2[g % 2].0, s);
            assert(bit_set(p2[g / 2].0, s) == (bit_set(p1[g / 2].0, s) != (g / 2 == pt.spec_index() && s == sq)));
            assert(bit_set(c2[g % 2].0, s) == (bit_set(c1[g % 2].0, s) != (g % 2 == c.spec_index() && s == sq)));
            if s == sq {
                assert(bit_set(p1[g / 2].0, sq) == (occ && g / 2 == pt.spec_index()));
                assert(bit_set(c1[g % 2].0, sq) == (occ && g % 2 == c.spec_index()));
            }
        }
        lemma_bits_ext(a, b);
    }
    let a = p1[pt.spec_index()].0 & c1[c.spec_index()].0;
    let b = p2[pt.spec_index()].0 & c2[c.spec_index()].0;
    assert(g0 / 2 == pt.spec_index() && g0 % 2 == c.spec_index());
    crate::types::lemma_piece_type_index_roundtrip(pt);
    assert(color_from_index(c.spec_index()) == c);
    assert forall|s: int| s != sq implies bit_set(a, s) == bit_set(b, s) by {
        lemma_bit_and(p1[pt.spec_index()].0, c1[c.spec_index()].0, s);
        lemma_bit_and(p2[pt.spec_index()].0, c2[c.spec_index()].0, s);
        assert(bit_set(p2[pt.spec_index()].0, s) == bit_set(p1[pt.spec_index()].0, s));
        assert(bit_set(c2[c.spec_index()].0, s) == bit_set(c1[c.spec_index()].0, s));
    }
    lemma_bit_and(p1[pt.spec_index()].0, c1[c.spec_index()].0, sq);
    lemma_bit_and(p2[pt.spec_index()].0, c2[c.spec_index()].0, sq);
    assert(bit_set(p1[pt.spec_index()].0, sq) == occ);
    assert(bit_set(c1[c.spec_index()].0, sq) == occ);
    assert(bit_set(p2[pt.spec_index()].0, sq) == !occ);
    assert(bit_set(c2[c.spec_index()].0, sq) == !occ);
    lemma_bb_keys_toggle(a, b, c, pt, sq, 64);
    lemma_groups_change(p1, c1, p2, c2, g0, spec_piece_key(c, pt, sq), 12);
}


/// The key contribution of the side to move.
pub open spec fn side_part(side: Color) -> u64 {
    if side == Color::Black {
        spec_side_key()
    } else {
        0
    }
}

/// The key contribution of the en-passant square.
pub open spec fn ep_part(ep: Option<Square>) -> u64 {
    match ep {
        Some(s) => spec_ep_key(s.0 as int % 8),
        None => 0,
    }
}

/// The square of the pawn taken en passant by a pawn of `color` landing on `to`.
pub open spec fn ep_victim_square(color: Color, to: int) -> int {
    if color == Color::White {
        to - 8
    } else {
        to + 8
    }
}

/// The rook's squares (from, to) for a castling king landing on `to`.
pub open spec fn castle_rook_from(to: int) -> int {
    if to == 6 {
        7
    } else if to == 2 {
        0
    } else if to == 62 {
        63
    } else {
        56
    }
}

pub open spec fn castle_rook_to(to: int) -> int {
    if to == 6 {
        5
    } else if to == 2 {
        3
    } else if to == 62 {
        61
    } else {
        59
    }
}

pub open spec fn is_castle_flag(m: u16) -> bool {
    spec_flag(m) == Move::FLAG_K_CASTLE || spec_flag(m) == Move::FLAG_Q_CASTLE
}

/// Castling rights lost when a piece leaves or reaches `sq`: the king's and
/// rooks' home squares.
pub open spec fn rights_after_square(rights: u8, sq: int) -> u8 {
    if sq == 0 {
        rights & !2u8
    } else if sq == 4 {
        rights & !3u8
    } else if sq == 7 {
        rights & !1u8
    } else if sq == 56 {
        rights & !8u8
    } else if sq == 60 {
        rights & !12u8
    } else if sq == 63 {
        rights & !4u8
    } else {
        rights
    }
}

/// The mailbox after playing `m`: the mover leaves `from` and lands on `to`
/// (taking whatever stood there), an en-passant capture removes the pawn
/// behind `to`, castling moves the rook, a promotion replaces the pawn.
pub open spec fn mailbox_after_move(pos: Seq<Option<Piece>>, m: u16) -> Seq<Option<Piece>> {
    let from = spec_from_sq(m) as int;
    let to = spec_to_sq(m) as int;
    let p = pos[from].unwrap();
    let c = p.spec_color();
    let p3 = pos.update(from, None).update(to, Some(p));
    let p4 = if spec_flag(m) == Move::FLAG_EP {
        p3.update(ep_victim_square(c, to), None)
    } else if is_castle_flag(m) {
        p3.update(castle_rook_from(to), None).update(castle_rook_to(to), p3[castle_rook_from(to)])
    } else {
        p3
    };
    if spec_is_promotion(m) {
        p4.update(to, Some(Piece::spec_new(c, spec_promotion_type(m))))
    } else {
        p4
    }
}

/// The mailbox part-way through taking back `m`: the mover back on `from`
/// (a promoted piece back as a pawn) and the captured piece restored.
pub open spec fn unmove_restored(pos: Seq<Option<Piece>>, m: u16, captured: Option<PieceType>) -> Seq<Option<Piece>> {
    let from = spec_from_sq(m) as int;
    let to = spec_to_sq(m) as int;
    let p = pos[to].unwrap();
    let c = p.spec_color();
    let orig = if spec_is_promotion(m) {
        PieceType::Pawn
    } else {
        p.spec_piece_type()
    };
    let p1 = pos.update(to, None).update(from, Some(Piece::spec_new(c, orig)));
    if spec_flag(m) == Move::FLAG_EP {
        p1.update(ep_victim_square(c, to), Some(Piece::spec_new(c.spec_flip(), PieceType::Pawn)))
    } else if captured is Some {
        p1.update(to, Some(Piece::spec_new(c.spec_flip(), captured.unwrap())))
    } else {
        p1
    }
}

/// The mailbox after taking back `m`, where `captured` is the type of the
/// piece that stood on `to` before the move: the castling rook goes home too.
pub open spec fn mailbox_after_unmove(pos: Seq<Option<Piece>>, m: u16, captured: Option<PieceType>) -> Seq<Option<Piece>> {
    let to = spec_to_sq(m) as int;
    let p2 = unmove_restored(pos, m, captured);
    if is_castle_flag(m) {
        p2.update(castle_rook_to(to), None).update(castle_rook_from(to), p2[castle_rook_to(to)])
    } else {
        p2
    }
}

/// The NNUE feature of the piece on `s` for `perspective` with its king on `ksq`.
pub open spec fn square_feature(pos: Seq<Option<Piece>>, perspective: Color, ksq: int, s: int) -> usize {
    spec_feature_index_for_perspective(
        perspective,
        ksq,
        s,
        pos[s].unwrap().spec_piece_type(),
        pos[s].unwrap().spec_color(),
    ) as usize
}

/// Features of the occupied squares below `n`, in square order.
pub open spec fn features_upto(pos: Seq<Option<Piece>>, perspective: Color, ksq: int, n: nat) -> Seq<usize>
    decreases n,
{
    if n == 0 {
        Seq::empty()
    } else {
        let prev = features_upto(pos, perspective, ksq, (n - 1) as nat);
        if pos[n - 1] is Some {
            prev.push(square_feature(pos, perspective, ksq, n - 1))
        } else {
            prev
        }
    }
}

/// All features of a position for one perspective.
pub open spec fn position_features(pos: Seq<Option<Piece>>, perspective: Color, ksq: int) -> Seq<usize> {
    features_upto(pos, perspective, ksq, 64)
}

proof fn lemma_features_skip(pos: Seq<Option<Piece>>, perspective: Color, ksq: int, k: nat, s: nat)
    requires
        k <= s,
        forall|t: int| k <= t < s ==> pos[t] is None,
    ensures
        features_upto(pos, perspective, ksq, s) == features_upto(pos, perspective, ksq, k),
    decreases s,
{
    if s > k {
        lemma_features_skip(pos, perspective, ksq, k, (s - 1) as nat);
    }
}

/// The square of the lowest king of `color` (64 when there is none).
pub open spec fn king_square(pieces: [Bitboard; 6], colors: [Bitboard; 2], color: Color) -> int {
    vstd::std_specs::bits::u64_trailing_zeros(pieces[5].0 & colors[color.spec_index()].0) as int
}

/// Some piece of color `c` attacks `sq` when `occ` is occupied.
pub open spec fn attacked_by(pos: [Option<Piece>; 64], occ: u64, sq: int, c: Color) -> bool {
    exists|s: int|
        0 <= s < 64 && #[trigger] pos[s] is Some && pos[s].unwrap().spec_color() == c && piece_attacks(
            pos[s].unwrap().spec_piece_type(),
            c,
            s,
            sq,
            occ,
        )
}

/// The pieces, of either color, on squares from which they attack `sq` when `occ` is occupied.
pub open spec fn attacker_on(pos: [Option<Piece>; 64], occ: u64, sq: int, s: int) -> bool {
    0 <= s < 64 && pos[s] is Some && piece_attacks(
        pos[s].unwrap().spec_piece_type(),
        pos[s].unwrap().spec_color(),
        s,
        sq,
        occ,
    )
}

/// `x` has exactly the bits of the squares a bishop on `sq` attacks when
/// `occ` is occupied.
pub open spec fn is_bishop_bits(x: u64, sq: int, occ: u64) -> bool {
    forall|t: int| bit_set(x, t) == bishop_attack(sq, occ, t)
}

/// `x` has exactly the bits of the squares a rook on `sq` attacks when
/// `occ` is occupied.
pub open spec fn is_rook_bits(x: u64, sq: int, occ: u64) -> bool {
    forall|t: int| bit_set(x, t) == rook_attack(sq, occ, t)
}

/// `x` has exactly the bits of the pieces that attack `sq` when `occ` is
/// occupied.
pub open spec fn is_attacker_bits(x: u64, pos: [Option<Piece>; 64], occ: u64, sq: int) -> bool {
    forall|s: int| bit_set(x, s) == attacker_on(pos, occ, sq, s)
}

/// The bitboard of the squares a bishop on `sq` attacks.
pub open spec fn bishop_bits(sq: int, occ: u64) -> u64 {
    choose|x: u64| is_bishop_bits(x, sq, occ)
}

/// The bitboard of the squares a rook on `sq` attacks.
pub open spec fn rook_bits(sq: int, occ: u64) -> u64 {
    choose|x: u64| is_rook_bits(x, sq, occ)
}

/// The bitboard of the pieces that attack `sq`.
pub open spec fn attacker_bits(pos: [Option<Piece>; 64], occ: u64, sq: int) -> u64 {
    choose|x: u64| is_attacker_bits(x, pos, occ, sq)
}

/// A word with the bits that one of these describes is the one they name.
proof fn lemma_bits_named(x: u64, sq: int, occ: u64, pos: [Option<Piece>; 64])
    ensures
        is_bishop_bits(x, sq, occ) ==> x == bishop_bits(sq, occ),
        is_rook_bits(x, sq, occ) ==> x == rook_bits(sq, occ),
        is_attacker_bits(x, pos, occ, sq) ==> x == attacker_bits(pos, occ, sq),
{
    if is_bishop_bits(x, sq, occ) {
        let y = bishop_bits(sq, occ);
        assert(is_bishop_bits(y, sq, occ));
        assert forall|t: int| 0 <= t < 64 implies bit_set(x, t) == bit_set(y, t) by {
            assert(bit_set(x, t) == bishop_attack(sq, occ, t));
            assert(bit_set(y, t) == bishop_attack(sq, occ, t));
        }
        lemma_bits_ext(x, y);
    }
    if is_rook_bits(x, sq, occ) {
        let y = rook_bits(sq, occ);
        assert(is_rook_bits(y, sq, occ));
        assert forall|t: int| 0 <= t < 64 implies bit_set(x, t) == bit_set(y, t) by {
            assert(bit_set(x, t) == rook_attack(sq, occ, t));
            assert(bit_set(y, t) == rook_attack(sq, occ, t));
        }
        lemma_bits_ext(x, y);
    }
    if is_attacker_bits(x, pos, occ, sq) {
        let y = attacker_bits(pos, occ, sq);
        assert(is_attacker_bits(y, pos, occ, sq));
        assert forall|t: int| 0 <= t < 64 implies bit_set(x, t) == bit_set(y, t) by {
            assert(bit_set(x, t) == attacker_on(pos, occ, sq, t));
            assert(bit_set(y, t) == attacker_on(pos, occ, sq, t));
        }
        lemma_bits_ext(x, y);
    }
}

/// What a move changes that `unmake_move` restores.
#[derive(Clone)]
pub struct UndoState {
    pub en_passant: Option<Square>,
    pub castling: CastlingRights,
    pub halfmove_clock: u8,
    pub captured_piece: Option<PieceType>,
    pub zobrist_key: u64,
    pub accumulator: Accumulator,
}

/// A chess position: bitboards by piece type and color, a square-indexed
/// mailbox, side to move, en-passant square, castling rights, clocks, the
/// Zobrist key, the NNUE accumulator and the keys of earlier positions.
#[derive(Clone)]
pub struct Board {
    pub pieces: [Bitboard; 6],
    pub colors: [Bitboard; 2],
    pub piece_on_sq: [Option<Piece>; 64],
    pub side_to_move: Color,
    pub en_passant: Option<Square>,
    pub castling: CastlingRights,
    pub halfmove_clock: u8,
    pub fullmove_number: u16,
    pub zobrist_key: u64,
    pub accumulator: Accumulator,
    pub nnue: Arc<NNUE>,
    pub position_history: Vec<u64>,
    pub keys: ZobristKeys,
}

/// The piece on `sq` has type index `t`.
pub open spec fn holds_type(pos: [Option<Piece>; 64], s: int, t: int) -> bool {
    0 <= s < 64 && pos[s] is Some && pos[s].unwrap().spec_piece_type().spec_index() == t
}

/// The piece on `sq` has color index `c`.
pub open spec fn holds_color(pos: [Option<Piece>; 64], s: int, c: int) -> bool {
    0 <= s < 64 && pos[s] is Some && pos[s].unwrap().spec_color().spec_index() == c
}

/// The bitboards say exactly what the mailbox says.
pub open spec fn position_ok(pieces: [Bitboard; 6], colors: [Bitboard; 2], pos: [Option<Piece>; 64]) -> bool {
    &&& forall|s: int| 0 <= s < 64 && #[trigger] pos[s] is Some ==> pos[s].unwrap().wf()
    &&& forall|t: int, s: int| 0 <= t < 6 ==> #[trigger] bit_set(pieces[t].0, s) == holds_type(pos, s, t)
    &&& forall|c: int, s: int| 0 <= c < 2 ==> #[trigger] bit_set(colors[c].0, s) == holds_color(pos, s, c)
}

/// `pos[s]` holds the king of `c`.
pub open spec fn king_of(pos: Seq<Option<Piece>>, s: int, c: Color) -> bool {
    pos[s] == Some(Piece::spec_new(c, PieceType::King))
}

/// Two positions with their kings on the same squares have the same king
/// square.
proof fn lemma_king_square_same(
    pieces0: [Bitboard; 6],
    colors0: [Bitboard; 2],
    pos0: [Option<Piece>; 64],
    pieces1: [Bitboard; 6],
    colors1: [Bitboard; 2],
    pos1: [Option<Piece>; 64],
    c: Color,
)
    requires
        position_ok(pieces0, colors0, pos0),
        position_ok(pieces1, colors1, pos1),
        forall|s: int| 0 <= s < 64 ==> #[trigger] king_of(pos1@, s, c) == king_of(pos0@, s, c),
    ensures
        king_square(pieces1, colors1, c) == king_square(pieces0, colors0, c),
{
    let ci = c.spec_index();
    let w0 = pieces0[5].0 & colors0[ci].0;
    let w1 = pieces1[5].0 & colors1[ci].0;
    assert forall|s: int| 0 <= s < 64 implies bit_set(w0, s) == bit_set(w1, s) by {
        lemma_bit_and(pieces0[5].0, colors0[ci].0, s);
        lemma_bit_and(pieces1[5].0, colors1[ci].0, s);
        assert(bit_set(pieces0[5].0, s) == holds_type(pos0, s, 5));
        assert(bit_set(colors0[ci].0, s) == holds_color(pos0, s, ci));
        assert(bit_set(pieces1[5].0, s) == holds_type(pos1, s, 5));
        assert(bit_set(colors1[ci].0, s) == holds_color(pos1, s, ci));
        assert(king_of(pos1@, s, c) == king_of(pos0@, s, c));
        if pos0[s] is Some {
            crate::types::lemma_piece_roundtrip(pos0[s].unwrap());
        }
        if pos1[s] is Some {
            crate::types::lemma_piece_roundtrip(pos1[s].unwrap());
        }
    }
    lemma_bits_ext(w0, w1);
}

/// Clearing a set bit makes a word smaller.
pub proof fn lemma_clear_bit_smaller(x: u64, s: u64)
    by (bit_vector)
    requires
        s < 64,
        (x >> s) & 1 == 1,
    ensures
        x ^ (1u64 << s) < x,
{
}

/// Whether square `sq` is set in `b`.
pub(crate) fn has_square(b: u64, sq: u8) -> (r: bool)
    requires
        sq < 64,
    ensures
        r == bit_set(b, sq as int),
{
    let k = sq as u64;
    assert(k < 64 ==> ((b & (1u64 << k)) != 0 <==> (b >> k) & 1 == 1)) by (bit_vector);
    (b & (1u64 << k)) != 0
}

impl Board {
    pub open spec fn pos_ok(&self) -> bool {
        position_ok(self.pieces, self.colors, self.piece_on_sq)
    }

    /// The Zobrist key of the position, computed from scratch.
    pub open spec fn spec_hash(&self) -> u64 {
        pieces_hash(self.pieces, self.colors) ^ side_part(self.side_to_move) ^ spec_castling_key(
            self.castling.0,
        ) ^ ep_part(self.en_passant)
    }

    /// Everything a board must satisfy apart from its key.
    pub open spec fn parts_ok(&self) -> bool {
        &&& self.pos_ok()
        &&& self.keys.wf()
        &&& self.accumulator.wf()
        &&& self.nnue.wf()
        &&& (self.en_passant matches Some(s) ==> s.0 < 64)
    }

    /// A consistent board whose incrementally kept key equals the key computed from scratch.
    pub open spec fn wf(&self) -> bool {
        self.parts_ok() && self.zobrist_key == self.spec_hash()
    }

    /// The piece on square `s`, if any.
    pub open spec fn at(&self, s: int) -> Option<Piece> {
        self.piece_on_sq[s]
    }

    /// A board with no pieces, White to move, no rights, clocks at their start.
    pub fn empty(nnue: Arc<NNUE>) -> (b: Board)
        requires
            nnue.wf(),
        ensures
            b.parts_ok(),
            forall|s: int| 0 <= s < 64 ==> b.piece_on_sq[s] is None,
            b.side_to_move == Color::White,
            b.en_passant is None,
            b.castling.0 == 0,
            b.halfmove_clock == 0,
            b.fullmove_number == 1,
            b.zobrist_key == 0,
            b.position_history@.len() == 0,
            b.nnue == nnue,
    {
        let b = Board {
            pieces: [Bitboard(0); 6],
            colors: [Bitboard(0); 2],
            piece_on_sq: [None; 64],
            side_to_move: Color::White,
            en_passant: None,
            castling: CastlingRights::new(0),
            halfmove_clock: 0,
            fullmove_number: 1,
            zobrist_key: 0,
            accumulator: Accumulator::new(),
            nnue,
            position_history: Vec::with_capacity(512),
            keys: ZobristKeys::new(),
        };
        proof {
            assert forall|t: int, s: int| 0 <= t < 6 implies #[trigger] bit_set(b.pieces[t].0, s) == holds_type(b.piece_on_sq, s, t) by {
                lemma_bit_zero(s);
            }
            assert forall|c: int, s: int| 0 <= c < 2 implies #[trigger] bit_set(b.colors[c].0, s) == holds_color(b.piece_on_sq, s, c) by {
                lemma_bit_zero(s);
            }
        }
        b
    }

    pub fn occupancies(&self) -> (b: Bitboard)
        ensures
            b.0 == self.colors[0].0 | self.colors[1].0,
            self.pos_ok() ==> forall|s: int| #[trigger] bit_set(b.0, s) == (0 <= s < 64 && self.piece_on_sq[s] is Some),
    {
        let r = Bitboard::new(self.colors[0].0 | self.colors[1].0);
        proof {
            assert forall|s: int| #[trigger] bit_set(r.0, s) == (bit_set(self.colors[0].0, s) || bit_set(self.colors[1].0, s)) by {
                crate::bitboard::lemma_bit_or(self.colors[0].0, self.colors[1].0, s);
            }
            if self.pos_ok() {
                assert forall|s: int| #[trigger] bit_set(r.0, s) == (0 <= s < 64 && self.piece_on_sq[s] is Some) by {
                    assert(bit_set(self.colors[0].0, s) == holds_color(self.piece_on_sq, s, 0));
                    assert(bit_set(self.colors[1].0, s) == holds_color(self.piece_on_sq, s, 1));
                }
            }
        }
        r
    }

    pub fn color_occupancy(&self, color: Color) -> (b: Bitboard)
        ensures
            b == self.colors[color.spec_index()],
    {
        self.colors[color.index()]
    }

    pub fn piece_bb(&self, pt: PieceType) -> (b: Bitboard)
        ensures
            b == self.pieces[pt.spec_index()],
    {
        self.pieces[pt.index()]
    }

    /// The bits of a color's piece-type bitboard are the squares holding
    /// that piece.
    pub proof fn lemma_color_piece_bits(&self, color: Color, pt: PieceType)
        requires
            self.pos_ok(),
        ensures
            forall|s: int| #[trigger] bit_set(self.color_piece_bb_spec(color, pt), s) == (0 <= s < 64 && self.piece_on_sq[s]
                == Some(Piece::spec_new(color, pt))),
    {
        assert forall|s: int| #[trigger] bit_set(self.color_piece_bb_spec(color, pt), s) == (0 <= s < 64 && self.piece_on_sq[s]
            == Some(Piece::spec_new(color, pt))) by {
            lemma_bit_and(self.pieces[pt.spec_index()].0, self.colors[color.spec_index()].0, s);
            assert(bit_set(self.pieces[pt.spec_index()].0, s) == holds_type(self.piece_on_sq, s, pt.spec_index()));
            assert(bit_set(self.colors[color.spec_index()].0, s) == holds_color(self.piece_on_sq, s, color.spec_index()));
            if 0 <= s < 64 && self.piece_on_sq[s] is Some {
                crate::types::lemma_piece_roundtrip(self.piece_on_sq[s].unwrap());
            }
        }
    }

    pub fn color_piece_bb(&self, color: Color, pt: PieceType) -> (b: Bitboard)
        ensures
            b.0 == self.pieces[pt.spec_index()].0 & self.colors[color.spec_index()].0,
            self.pos_ok() ==> forall|s: int| #[trigger] bit_set(b.0, s) == (0 <= s < 64 && self.piece_on_sq[s] == Some(Piece::spec_new(color, pt))),
    {
        let r = Bitboard::new(self.pieces[pt.index()].0 & self.colors[color.index()].0);
        proof {
            if self.pos_ok() {
                assert forall|s: int| #[trigger] bit_set(r.0, s) == (0 <= s < 64 && self.piece_on_sq[s] == Some(Piece::spec_new(color, pt))) by {
                    lemma_bit_and(self.pieces[pt.spec_index()].0, self.colors[color.spec_index()].0, s);
                    assert(bit_set(self.pieces[pt.spec_index()].0, s) == holds_type(self.piece_on_sq, s, pt.spec_index()));
                    assert(bit_set(self.colors[color.spec_index()].0, s) == holds_color(self.piece_on_sq, s, color.spec_index()));
                    if 0 <= s < 64 && self.piece_on_sq[s] is Some {
                        crate::types::lemma_piece_roundtrip(self.piece_on_sq[s].unwrap());
                    }
                }
            }
        }
        r
    }

    /// The Zobrist key of the position computed from scratch: the keys of all
    /// pieces, the side key when Black moves, the castling key and the
    /// en-passant file key.
    pub fn compute_hash(&self) -> (h: u64)
        requires
            self.keys.wf(),
            self.en_passant matches Some(s) ==> s.0 < 64,
        ensures
            h == self.spec_hash(),
    {
        let mut h: u64 = 0;
        let mut pt_i: usize = 0;
        while pt_i < 6
            invariant
                pt_i <= 6,
                self.keys.wf(),
                h == groups_keys(self.pieces, self.colors, (2 * pt_i) as nat),
            decreases 6 - pt_i,
        {
            let pt = crate::types::piece_type_of_index(pt_i);
            let mut ci: usize = 0;
            while ci < 2
                invariant
                    pt_i < 6,
                    ci <= 2,
                    pt.spec_index() == pt_i,
                    self.keys.wf(),
                    h == groups_keys(self.pieces, self.colors, (2 * pt_i + ci) as nat),
                decreases 2 - ci,
            {
                let color = if ci == 0 {
                    Color::White
                } else {
                    Color::Black
                };
                let ghost g = (2 * pt_i + ci) as int;
                proof {
                    assert(g / 2 == pt_i && g % 2 == ci);
                    assert(color_from_index(g % 2) == color);
                    assert(piece_type_from_index(g / 2) == pt);
                }
                let mut bb = self.color_piece_bb(color, pt);
                let ghost h0 = h;
                proof {
                    lemma_xor_facts(h, 0, 0);
                }
                while bb.is_not_empty()
                    invariant
                        0 <= g < 12,
                        self.keys.wf(),
                        h ^ bb_keys(bb.0, color, pt, 64) == h0 ^ group_keys(self.pieces, self.colors, g),
                    decreases bb.0,
                {
                    let ghost before = bb.0;
                    let sq = Square::new(bb.pop_lsb());
                    let k = piece_key(&self.keys, color, pt, sq);
                    proof {
                        lemma_bb_keys_toggle(bb.0, before, color, pt, sq.0 as int, 64);
                        let kb = bb_keys(bb.0, color, pt, 64);
                        xor_facts(h, k, kb, 0, 0);
                    }
                    h = h ^ k;
                }
                proof {
                    lemma_bb_keys_zero(color, pt, 64);
                    lemma_xor_facts(h, 0, 0);
                }
                ci += 1;
            }
            pt_i += 1;
        }
        if self.side_to_move == Color::Black {
            h = h ^ side_key(&self.keys);
        } else {
            proof {
                lemma_xor_facts(h, 0, 0);
            }
        }
        h = h ^ castling_key(&self.keys, self.castling);
        if let Some(ep) = self.en_passant {
            h = h ^ ep_key(&self.keys, ep);
        } else {
            proof {
                lemma_xor_facts(h, 0, 0);
            }
        }
        h
    }

    /// Recompute the accumulator from all pieces on the board, for both
    /// perspectives. Nothing happens when a side has no king.
    pub fn refresh_accumulator(&mut self)
        requires
            old(self).pos_ok(),
            old(self).accumulator.wf(),
            old(self).nnue.wf(),
        ensures
            final(self).accumulator.wf(),
            final(self).pieces == old(self).pieces,
            final(self).colors == old(self).colors,
            final(self).piece_on_sq == old(self).piece_on_sq,
            final(self).side_to_move == old(self).side_to_move,
            final(self).en_passant == old(self).en_passant,
            final(self).castling == old(self).castling,
            final(self).halfmove_clock == old(self).halfmove_clock,
            final(self).fullmove_number == old(self).fullmove_number,
            final(self).zobrist_key == old(self).zobrist_key,
            final(self).nnue == old(self).nnue,
            final(self).position_history == old(self).position_history,
            final(self).keys == old(self).keys,
            ({
                let wk = king_square(old(self).pieces, old(self).colors, Color::White);
                let bk = king_square(old(self).pieces, old(self).colors, Color::Black);
                if wk < 64 && bk < 64 {
                    &&& final(self).accumulator.white.holds(&old(self).nnue.params, position_features(old(self).piece_on_sq@, Color::White, wk))
                    &&& final(self).accumulator.black.holds(&old(self).nnue.params, position_features(old(self).piece_on_sq@, Color::Black, bk))
                } else {
                    final(self).accumulator == old(self).accumulator
                }
            }),
    {
        let wk_sq_opt = self.color_piece_bb(Color::White, PieceType::King).lsb();
        let bk_sq_opt = self.color_piece_bb(Color::Black, PieceType::King).lsb();
        if wk_sq_opt == 64 || bk_sq_opt == 64 {
            return;
        }
        let wk_sq = Square::new(wk_sq_opt);
        let bk_sq = Square::new(bk_sq_opt);
        let ghost pos = self.piece_on_sq@;
        let mut white_features: Vec<usize> = Vec::with_capacity(32);
        let mut black_features: Vec<usize> = Vec::with_capacity(32);
        let mut occ = self.occupancies();
        let ghost mut k: nat = 0;
        while occ.is_not_empty()
            invariant
                self.pos_ok(),
                pos == self.piece_on_sq@,
                wk_sq.0 < 64,
                bk_sq.0 < 64,
                k <= 64,
                forall|t: int| #[trigger] bit_set(occ.0, t) == (k <= t < 64 && pos[t] is Some),
                white_features@ == features_upto(pos, Color::White, wk_sq.0 as int, k),
                black_features@ == features_upto(pos, Color::Black, bk_sq.0 as int, k),
                forall|j: int| 0 <= j < white_features.len() ==> #[trigger] white_features[j] < crate::nnue::feature::HALFKA_FEATURES,
                forall|j: int| 0 <= j < black_features.len() ==> #[trigger] black_features[j] < crate::nnue::feature::HALFKA_FEATURES,
            decreases occ.0,
        {
            let ghost before = occ.0;
            let sq = occ.pop_lsb();
            proof {
                assert forall|t: int| k <= t < sq implies pos[t] is None by {
                    assert(!bit_set(before, t));
                }
                lemma_features_skip(pos, Color::White, wk_sq.0 as int, k, sq as nat);
                lemma_features_skip(pos, Color::Black, bk_sq.0 as int, k, sq as nat);
                assert(bit_set(before, sq as int));
            }
            if let Some(piece) = self.piece_on_sq[sq as usize] {
                let pt = piece.piece_type();
                let pc = piece.color();
                let piece_sq = Square::new(sq);
                let wf = feature_index_for_perspective(Color::White, wk_sq, piece_sq, pt, pc);
                let bf = feature_index_for_perspective(Color::Black, bk_sq, piece_sq, pt, pc);
                white_features.push(wf);
                black_features.push(bf);
            }
            proof {
                k = (sq + 1) as nat;
            }
        }
        proof {
            assert forall|t: int| k <= t < 64 implies pos[t] is None by {
                assert(!bit_set(occ.0, t));
            }
            lemma_features_skip(pos, Color::White, wk_sq.0 as int, k, 64);
            lemma_features_skip(pos, Color::Black, bk_sq.0 as int, k, 64);
        }
        self.accumulator.refresh(white_features.as_slice(), black_features.as_slice(), &self.nnue.params);
    }

    /// What `make_move` needs of a board and a move so that it can play it:
    /// a piece on the source square, both kings on the board, an en-passant
    /// target square inside the board, a rook to move when castling and a
    /// free square for it, and clocks that do not overflow.
    pub open spec fn can_make(&self, m: u16) -> bool {
        let from = spec_from_sq(m) as int;
        let to = spec_to_sq(m) as int;
        let p = self.piece_on_sq[from];
        &&& p is Some
        &&& king_square(self.pieces, self.colors, Color::White) < 64
        &&& king_square(self.pieces, self.colors, Color::Black) < 64
        &&& (spec_flag(m) == Move::FLAG_EP || spec_flag(m) == Move::FLAG_DBL_PUSH) ==> (if p.unwrap().spec_color() == Color::White {
            to >= 8
        } else {
            to < 56
        })
        &&& is_castle_flag(m) ==> {
            &&& (to == 6 || to == 2 || to == 62 || to == 58)
            &&& castle_rook_from(to) != from
            &&& self.piece_on_sq[castle_rook_from(to)] is Some
            &&& (self.piece_on_sq[castle_rook_to(to)] is None || castle_rook_to(to) == from)
        }
        &&& (p.unwrap().spec_piece_type() != PieceType::Pawn && self.piece_on_sq[to] is None)
            ==> self.halfmove_clock < 255
        &&& self.side_to_move == Color::Black ==> self.fullmove_number < 65535
    }

    /// Whether `make_move` accepts `m` here: a piece stands on its origin,
    /// both kings are on the board, an en passant capture or double push
    /// stays inside the board, a castling move finds its rook and the rook's
    /// target free, and neither move counter would pass its largest value.
    pub fn can_make_move(&self, m: Move) -> (r: bool)
        ensures
            r == self.can_make(m.0),
    {
        let from = m.from_sq() as usize;
        let to = m.to_sq() as usize;
        let p = match self.piece_on_sq[from] {
            Some(p) => p,
            None => {
                return false;
            },
        };
        if (self.pieces[5].0 & self.colors[0].0).trailing_zeros() >= 64 {
            return false;
        }
        if (self.pieces[5].0 & self.colors[1].0).trailing_zeros() >= 64 {
            return false;
        }
        let flag = m.flag();
        if flag == Move::FLAG_EP || flag == Move::FLAG_DBL_PUSH {
            let inside = if p.color() == Color::White { to >= 8 } else { to < 56 };
            if !inside {
                return false;
            }
        }
        if flag == Move::FLAG_K_CASTLE || flag == Move::FLAG_Q_CASTLE {
            if !(to == 6 || to == 2 || to == 62 || to == 58) {
                return false;
            }
            let rook_from: usize = if to == 6 { 7 } else if to == 2 { 0 } else if to == 62 { 63 } else { 56 };
            let rook_to: usize = if to == 6 { 5 } else if to == 2 { 3 } else if to == 62 { 61 } else { 59 };
            if rook_from == from || self.piece_on_sq[rook_from].is_none() {
                return false;
            }
            if self.piece_on_sq[rook_to].is_some() && rook_to != from {
                return false;
            }
        }
        if p.piece_type() != PieceType::Pawn && self.piece_on_sq[to].is_none() && self.halfmove_clock >= 255 {
            return false;
        }
        if self.side_to_move == Color::Black && self.fullmove_number >= 65535 {
            return false;
        }
        true
    }

    fn update_castling_rights(&mut self, sq: Square)
        ensures
            final(self).castling.0 == rights_after_square(old(self).castling.0, sq.0 as int),
            final(self).pieces == old(self).pieces,
            final(self).colors == old(self).colors,
            final(self).piece_on_sq == old(self).piece_on_sq,
            final(self).side_to_move == old(self).side_to_move,
            final(self).en_passant == old(self).en_passant,
            final(self).halfmove_clock == old(self).halfmove_clock,
            final(self).fullmove_number == old(self).fullmove_number,
            final(self).zobrist_key == old(self).zobrist_key,
            final(self).accumulator == old(self).accumulator,
            final(self).nnue == old(self).nnue,
            final(self).position_history == old(self).position_history,
            final(self).keys == old(self).keys,
    {
        let mut rights = self.castling.0;
        proof {
            assert(!(1u8 | 2u8) == !3u8 && !(4u8 | 8u8) == !12u8) by (bit_vector);
        }
        if sq.0 == 0 {
            rights = rights & !CastlingRights::WQ;
        } else if sq.0 == 4 {
            rights = rights & !(CastlingRights::WK | CastlingRights::WQ);
        } else if sq.0 == 7 {
            rights = rights & !CastlingRights::WK;
        } else if sq.0 == 56 {
            rights = rights & !CastlingRights::BQ;
        } else if sq.0 == 60 {
            rights = rights & !(CastlingRights::BK | CastlingRights::BQ);
        } else if sq.0 == 63 {
            rights = rights & !CastlingRights::BK;
        }
        self.castling = CastlingRights::new(rights);
    }

    /// Fields that piece placement leaves alone.
    pub open spec fn same_except_pieces(&self, other: &Board) -> bool {
        &&& self.side_to_move == other.side_to_move
        &&& self.en_passant == other.en_passant
        &&& self.castling == other.castling
        &&& self.halfmove_clock == other.halfmove_clock
        &&& self.fullmove_number == other.fullmove_number
        &&& self.nnue == other.nnue
        &&& self.position_history == other.position_history
        &&& self.keys == other.keys
    }

    /// Move the piece from `from` to `to`, taking what stands on `to`, and
    /// update the accumulator for the pieces that changed.
    #[verifier::rlimit(80)]
    fn move_piece_basic(&mut self, from: Square, to: Square, moving_piece: Piece, wk_sq: Square, bk_sq: Square)
        requires
            old(self).parts_ok(),
            old(self).zobrist_key == old(self).spec_hash(),
            from.0 < 64,
            to.0 < 64,
            wk_sq.0 < 64,
            bk_sq.0 < 64,
            old(self).piece_on_sq[from.0 as int] == Some(moving_piece),
        ensures
            final(self).parts_ok(),
            final(self).zobrist_key == final(self).spec_hash(),
            final(self).same_except_pieces(old(self)),
            final(self).piece_on_sq@ == old(self).piece_on_sq@.update(from.0 as int, None).update(to.0 as int, Some(moving_piece)),
            (moving_piece.spec_piece_type() != PieceType::King && (old(self).piece_on_sq[to.0 as int] matches Some(q) ==> (
            q.spec_piece_type() != PieceType::King && q.spec_color() == moving_piece.spec_color().spec_flip()))
                && side_tracks(old(self).accumulator.white, &old(self).nnue.params, old(self).piece_on_sq@, Color::White, wk_sq.0 as int)
                && side_tracks(old(self).accumulator.black, &old(self).nnue.params, old(self).piece_on_sq@, Color::Black, bk_sq.0 as int))
                ==> side_tracks(final(self).accumulator.white, &old(self).nnue.params, final(self).piece_on_sq@, Color::White, wk_sq.0 as int)
                && side_tracks(final(self).accumulator.black, &old(self).nnue.params, final(self).piece_on_sq@, Color::Black, bk_sq.0 as int),
    {
        let ghost pos0 = self.piece_on_sq@;
        let ghost a0 = self.accumulator;
        let ghost mut a1 = self.accumulator;
        let ghost mut a2 = self.accumulator;
        let color = moving_piece.color();
        let pt = moving_piece.piece_type();
        let captured_piece = match self.piece_on_sq[to.0 as usize] {
            Some(p) => Some(p.piece_type()),
            None => None,
        };
        if pt != PieceType::King {
            let rm_w = feature_index_for_perspective(Color::White, wk_sq, from, pt, color);
            let rm_b = feature_index_for_perspective(Color::Black, bk_sq, from, pt, color);
            self.accumulator.remove_feature(rm_w, rm_b, &self.nnue.params);
            proof {
                a1 = self.accumulator;
            }
            let add_w = feature_index_for_perspective(Color::White, wk_sq, to, pt, color);
            let add_b = feature_index_for_perspective(Color::Black, bk_sq, to, pt, color);
            self.accumulator.add_feature(add_w, add_b, &self.nnue.params);
            proof {
                a2 = self.accumulator;
                let p2 = pos0.update(from.0 as int, None).update(to.0 as int, Some(moving_piece));
                assert(p2[to.0 as int] == Some(moving_piece));
                assert(side_step(a0.white, a1.white, &self.nnue.params, square_feature(pos0, Color::White, wk_sq.0 as int, from.0 as int) as int, false));
                assert(side_step(a0.black, a1.black, &self.nnue.params, square_feature(pos0, Color::Black, bk_sq.0 as int, from.0 as int) as int, false));
                assert(side_step(a1.white, a2.white, &self.nnue.params, square_feature(p2, Color::White, wk_sq.0 as int, to.0 as int) as int, true));
                assert(side_step(a1.black, a2.black, &self.nnue.params, square_feature(p2, Color::Black, bk_sq.0 as int, to.0 as int) as int, true));
            }
        }
        self.remove_piece(from);
        if let Some(c_pt) = captured_piece {
            if c_pt != PieceType::King {
                let rmc_w = feature_index_for_perspective(Color::White, wk_sq, to, c_pt, color.flip());
                let rmc_b = feature_index_for_perspective(Color::Black, bk_sq, to, c_pt, color.flip());
                self.accumulator.remove_feature(rmc_w, rmc_b, &self.nnue.params);
                proof {
                    if pos0[to.0 as int].unwrap().spec_color() == moving_piece.spec_color().spec_flip() {
                        assert(side_step(a2.white, self.accumulator.white, &self.nnue.params, square_feature(pos0, Color::White, wk_sq.0 as int, to.0 as int) as int, false));
                        assert(side_step(a2.black, self.accumulator.black, &self.nnue.params, square_feature(pos0, Color::Black, bk_sq.0 as int, to.0 as int) as int, false));
                    }
                }
            }
            self.remove_piece(to);
        }
        self.put_piece(moving_piece, to);
        proof {
            assert(self.piece_on_sq@ =~= old(self).piece_on_sq@.update(from.0 as int, None).update(to.0 as int, Some(moving_piece)));
            if moving_piece.spec_piece_type() != PieceType::King && (pos0[to.0 as int] matches Some(q) ==> (
            q.spec_piece_type() != PieceType::King && q.spec_color() == moving_piece.spec_color().spec_flip()))
                && side_tracks(a0.white, &self.nnue.params, pos0, Color::White, wk_sq.0 as int)
                && side_tracks(a0.black, &self.nnue.params, pos0, Color::Black, bk_sq.0 as int) {
                assert(from.0 != to.0);
                lemma_track_move(a0.white, a1.white, a2.white, self.accumulator.white, &self.nnue.params, pos0, Color::White, wk_sq.0 as int, from.0 as int, to.0 as int, moving_piece);
                lemma_track_move(a0.black, a1.black, a2.black, self.accumulator.black, &self.nnue.params, pos0, Color::Black, bk_sq.0 as int, from.0 as int, to.0 as int, moving_piece);
            }
        }
    }

    /// The en-passant capture, the castling rook and the promotion of a move
    /// whose mover already stands on `to`.
    #[verifier::rlimit(80)]
    fn move_piece_special(&mut self, m: Move, to: Square, color: Color, wk_sq: Square, bk_sq: Square)
        requires
            old(self).parts_ok(),
            old(self).zobrist_key == old(self).spec_hash(),
            to.0 < 64,
            to.0 == spec_to_sq(m.0),
            wk_sq.0 < 64,
            bk_sq.0 < 64,
            old(self).piece_on_sq[to.0 as int] is Some,
            spec_flag(m.0) == Move::FLAG_EP ==> (if color == Color::White { to.0 >= 8 } else { to.0 < 56 }),
            is_castle_flag(m.0) ==> {
                &&& (to.0 == 6 || to.0 == 2 || to.0 == 62 || to.0 == 58)
                &&& old(self).piece_on_sq[castle_rook_from(to.0 as int)] is Some
                &&& old(self).piece_on_sq[castle_rook_to(to.0 as int)] is None
            },
        ensures
            final(self).parts_ok(),
            final(self).zobrist_key == final(self).spec_hash(),
            final(self).same_except_pieces(old(self)),
            ({
                let p3 = old(self).piece_on_sq@;
                let t = to.0 as int;
                let p4 = if spec_flag(m.0) == Move::FLAG_EP {
                    p3.update(ep_victim_square(color, t), None)
                } else if is_castle_flag(m.0) {
                    p3.update(castle_rook_from(t), None).update(castle_rook_to(t), p3[castle_rook_from(t)])
                } else {
                    p3
                };
                final(self).piece_on_sq@ == if spec_is_promotion(m.0) {
                    p4.update(t, Some(Piece::spec_new(color, spec_promotion_type(m.0))))
                } else {
                    p4
                }
            }),
            (!is_castle_flag(m.0) && (spec_flag(m.0) == Move::FLAG_EP ==> old(self).piece_on_sq[ep_victim_square(
                color,
                to.0 as int,
            )] == Some(Piece::spec_new(color.spec_flip(), PieceType::Pawn))) && (spec_is_promotion(m.0)
                ==> old(self).piece_on_sq[to.0 as int] == Some(Piece::spec_new(color, PieceType::Pawn)))
                && side_tracks(old(self).accumulator.white, &old(self).nnue.params, old(self).piece_on_sq@, Color::White, wk_sq.0 as int)
                && side_tracks(old(self).accumulator.black, &old(self).nnue.params, old(self).piece_on_sq@, Color::Black, bk_sq.0 as int))
                ==> side_tracks(final(self).accumulator.white, &old(self).nnue.params, final(self).piece_on_sq@, Color::White, wk_sq.0 as int)
                && side_tracks(final(self).accumulator.black, &old(self).nnue.params, final(self).piece_on_sq@, Color::Black, bk_sq.0 as int),
    {
        let ghost p3 = self.piece_on_sq@;
        let ghost hyp = !is_castle_flag(m.0) && (spec_flag(m.0) == Move::FLAG_EP ==> p3[ep_victim_square(
                color,
                to.0 as int,
            )] == Some(Piece::spec_new(color.spec_flip(), PieceType::Pawn))) && (spec_is_promotion(m.0)
                ==> p3[to.0 as int] == Some(Piece::spec_new(color, PieceType::Pawn)))
                && side_tracks(self.accumulator.white, &self.nnue.params, p3, Color::White, wk_sq.0 as int)
                && side_tracks(self.accumulator.black, &self.nnue.params, p3, Color::Black, bk_sq.0 as int);
        if m.flag() == Move::FLAG_EP {
            let ep_cap_sq = if color == Color::White {
                Square::new(to.0 - 8)
            } else {
                Square::new(to.0 + 8)
            };
            let ghost a0 = self.accumulator;
            let rme_w = feature_index_for_perspective(Color::White, wk_sq, ep_cap_sq, PieceType::Pawn, color.flip());
            let rme_b = feature_index_for_perspective(Color::Black, bk_sq, ep_cap_sq, PieceType::Pawn, color.flip());
            self.accumulator.remove_feature(rme_w, rme_b, &self.nnue.params);
            proof {
                if hyp {
                    let v = ep_cap_sq.0 as int;
                    assert(v == ep_victim_square(color, to.0 as int));
                    assert(side_step(a0.white, self.accumulator.white, &self.nnue.params, square_feature(p3, Color::White, wk_sq.0 as int, v) as int, false));
                    assert(side_step(a0.black, self.accumulator.black, &self.nnue.params, square_feature(p3, Color::Black, bk_sq.0 as int, v) as int, false));
                    lemma_track_replace(a0.white, self.accumulator.white, self.accumulator.white, &self.nnue.params, p3, Color::White, wk_sq.0 as int, v, None);
                    lemma_track_replace(a0.black, self.accumulator.black, self.accumulator.black, &self.nnue.params, p3, Color::Black, bk_sq.0 as int, v, None);
                }
            }
            self.remove_piece(ep_cap_sq);
            proof {
                if hyp {
                    assert(self.piece_on_sq@ =~= p3.update(ep_cap_sq.0 as int, None));
                }
            }
        } else if m.flag() == Move::FLAG_K_CASTLE || m.flag() == Move::FLAG_Q_CASTLE {
            let (rook_from, rook_to) = if to.0 == 6 {
                (Square::new(7), Square::new(5))
            } else if to.0 == 2 {
                (Square::new(0), Square::new(3))
            } else if to.0 == 62 {
                (Square::new(63), Square::new(61))
            } else {
                (Square::new(56), Square::new(59))
            };
            let rook = match self.piece_on_sq[rook_from.0 as usize] {
                Some(r) => r,
                None => {
                    proof {
                        assert(false);
                    }
                    Piece(0)
                },
            };
            let rmr_w = feature_index_for_perspective(Color::White, wk_sq, rook_from, PieceType::Rook, color);
            let rmr_b = feature_index_for_perspective(Color::Black, bk_sq, rook_from, PieceType::Rook, color);
            self.accumulator.remove_feature(rmr_w, rmr_b, &self.nnue.params);
            let addr_w = feature_index_for_perspective(Color::White, wk_sq, rook_to, PieceType::Rook, color);
            let addr_b = feature_index_for_perspective(Color::Black, bk_sq, rook_to, PieceType::Rook, color);
            self.accumulator.add_feature(addr_w, addr_b, &self.nnue.params);
            self.remove_piece(rook_from);
            self.put_piece(rook, rook_to);
        }
        let ghost p4 = self.piece_on_sq@;
        proof {
            let t = to.0 as int;
            assert(p4 =~= (if spec_flag(m.0) == Move::FLAG_EP {
                p3.update(ep_victim_square(color, t), None)
            } else if is_castle_flag(m.0) {
                p3.update(castle_rook_from(t), None).update(castle_rook_to(t), p3[castle_rook_from(t)])
            } else {
                p3
            }));
        }
        if m.is_promotion() {
            let promo_pt = m.promotion_type();
            let ghost a0 = self.accumulator;
            let rmp_w = feature_index_for_perspective(Color::White, wk_sq, to, PieceType::Pawn, color);
            let rmp_b = feature_index_for_perspective(Color::Black, bk_sq, to, PieceType::Pawn, color);
            self.accumulator.remove_feature(rmp_w, rmp_b, &self.nnue.params);
            let ghost a1 = self.accumulator;
            let addp_w = feature_index_for_perspective(Color::White, wk_sq, to, promo_pt, color);
            let addp_b = feature_index_for_perspective(Color::Black, bk_sq, to, promo_pt, color);
            self.accumulator.add_feature(addp_w, addp_b, &self.nnue.params);
            proof {
                if hyp {
                    let t = to.0 as int;
                    let v = Some(Piece::spec_new(color, spec_promotion_type(m.0)));
                    let p5 = p4.update(t, v);
                    assert(p4[t] == p3[t]);
                    assert(p5[t] == v);
                    assert(side_step(a0.white, a1.white, &self.nnue.params, square_feature(p4, Color::White, wk_sq.0 as int, t) as int, false));
                    assert(side_step(a0.black, a1.black, &self.nnue.params, square_feature(p4, Color::Black, bk_sq.0 as int, t) as int, false));
                    assert(side_step(a1.white, self.accumulator.white, &self.nnue.params, square_feature(p5, Color::White, wk_sq.0 as int, t) as int, true));
                    assert(side_step(a1.black, self.accumulator.black, &self.nnue.params, square_feature(p5, Color::Black, bk_sq.0 as int, t) as int, true));
                    lemma_track_replace(a0.white, a1.white, self.accumulator.white, &self.nnue.params, p4, Color::White, wk_sq.0 as int, t, v);
                    lemma_track_replace(a0.black, a1.black, self.accumulator.black, &self.nnue.params, p4, Color::Black, bk_sq.0 as int, t, v);
                }
            }
            self.remove_piece(to);
            self.put_piece(Piece::new(color, promo_pt), to);
            proof {
                assert(self.piece_on_sq@ =~= p4.update(to.0 as int, Some(Piece::spec_new(color, spec_promotion_type(m.0)))));
            }
        }
    }

    /// `new` and `undo` are what playing `m` on `old` gives: the position
    /// that `moved` describes and the old key appended to the history; `undo`
    /// keeps the old en-passant square, rights, half-move clock, key,
    /// accumulator and the type of the piece taken on `to`.
    pub open spec fn made(old: Board, new: Board, m: u16, undo: UndoState) -> bool {
        let to = spec_to_sq(m) as int;
        &&& Board::moved(old, new, m)
        &&& new.position_history@ == old.position_history@.push(old.zobrist_key)
        &&& undo.en_passant == old.en_passant
        &&& undo.castling == old.castling
        &&& undo.halfmove_clock == old.halfmove_clock
        &&& undo.captured_piece == (match old.piece_on_sq[to] {
            Some(q) => Some(q.spec_piece_type()),
            None => None,
        })
        &&& undo.zobrist_key == old.zobrist_key
        &&& undo.accumulator.same(&old.accumulator)
    }

    /// The position of `new` is what playing `m` on `old` gives: the mailbox
    /// after the move, the other side to move, the en-passant square of a
    /// double push, castling rights lost on the squares touched, the reset or
    /// advanced clocks, and the same network and keys.
    pub open spec fn moved(old: Board, new: Board, m: u16) -> bool {
        let from = spec_from_sq(m) as int;
        let to = spec_to_sq(m) as int;
        let p = old.piece_on_sq[from].unwrap();
        &&& new.piece_on_sq@ == mailbox_after_move(old.piece_on_sq@, m)
        &&& new.side_to_move == old.side_to_move.spec_flip()
        &&& new.en_passant == (if spec_flag(m) == Move::FLAG_DBL_PUSH {
            Some(Square(ep_victim_square(p.spec_color(), to) as u8))
        } else {
            None
        })
        &&& new.castling.0 == rights_after_square(rights_after_square(old.castling.0, from), to)
        &&& new.halfmove_clock == (if p.spec_piece_type() == PieceType::Pawn || old.piece_on_sq[to] is Some {
            0
        } else {
            old.halfmove_clock + 1
        })
        &&& new.fullmove_number == (if old.side_to_move == Color::Black {
            old.fullmove_number + 1
        } else {
            old.fullmove_number as int
        })
        &&& new.nnue == old.nnue
        &&& new.keys == old.keys
    }

    /// `new` is what taking back `m` on `old` with `undo` gives.
    pub open spec fn unmade(old: Board, new: Board, m: u16, undo: UndoState) -> bool {
        &&& new.piece_on_sq@ == mailbox_after_unmove(old.piece_on_sq@, m, undo.captured_piece)
        &&& new.side_to_move == old.side_to_move.spec_flip()
        &&& new.fullmove_number == (if new.side_to_move == Color::Black {
            old.fullmove_number - 1
        } else {
            old.fullmove_number as int
        })
        &&& new.en_passant == undo.en_passant
        &&& new.castling == undo.castling
        &&& new.halfmove_clock == undo.halfmove_clock
        &&& new.zobrist_key == undo.zobrist_key
        &&& new.accumulator.same(&undo.accumulator)
        &&& new.position_history@ == if old.position_history@.len() > 0 {
            old.position_history@.drop_last()
        } else {
            old.position_history@
        }
        &&& new.nnue == old.nnue
        &&& new.keys == old.keys
    }

    /// The mailbox, bitboards and accumulator part of playing `m` on `b0`,
    /// whose pieces `self` still holds: the mover and what it takes, the
    /// en-passant victim, the castling rook and the promotion.  A non-king
    /// move that `nnue_update_ok` admits keeps both kings where they are and
    /// the accumulator tracking the position.
    #[verifier::rlimit(60)]
    fn move_pieces(
        &mut self,
        m: Move,
        from: Square,
        to: Square,
        moving_piece: Piece,
        wk_sq: Square,
        bk_sq: Square,
        Ghost(b0): Ghost<Board>,
    )
        requires
            old(self).parts_ok(),
            old(self).zobrist_key == old(self).spec_hash(),
            b0.can_make(m.0),
            old(self).piece_on_sq == b0.piece_on_sq,
            old(self).pieces == b0.pieces,
            old(self).colors == b0.colors,
            old(self).accumulator == b0.accumulator,
            old(self).nnue == b0.nnue,
            from.0 == spec_from_sq(m.0),
            to.0 == spec_to_sq(m.0),
            from.0 < 64,
            to.0 < 64,
            wk_sq.0 < 64,
            bk_sq.0 < 64,
            b0.piece_on_sq[from.0 as int] == Some(moving_piece),
        ensures
            final(self).parts_ok(),
            final(self).zobrist_key == final(self).spec_hash(),
            final(self).same_except_pieces(old(self)),
            final(self).piece_on_sq@ == mailbox_after_move(b0.piece_on_sq@, m.0),
            (b0.nnue_update_ok(m.0) && moving_piece.spec_piece_type() != PieceType::King && side_tracks(
                b0.accumulator.white,
                &b0.nnue.params,
                b0.piece_on_sq@,
                Color::White,
                wk_sq.0 as int,
            ) && side_tracks(b0.accumulator.black, &b0.nnue.params, b0.piece_on_sq@, Color::Black, bk_sq.0 as int)) ==> {
                &&& side_tracks(final(self).accumulator.white, &b0.nnue.params, final(self).piece_on_sq@, Color::White, wk_sq.0 as int)
                &&& side_tracks(final(self).accumulator.black, &b0.nnue.params, final(self).piece_on_sq@, Color::Black, bk_sq.0 as int)
                &&& king_square(final(self).pieces, final(self).colors, Color::White) == king_square(b0.pieces, b0.colors, Color::White)
                &&& king_square(final(self).pieces, final(self).colors, Color::Black) == king_square(b0.pieces, b0.colors, Color::Black)
            },
    {
        let ghost pos0 = b0.piece_on_sq@;
        let ghost track = b0.nnue_update_ok(m.0) && moving_piece.spec_piece_type() != PieceType::King && side_tracks(
            b0.accumulator.white,
            &b0.nnue.params,
            b0.piece_on_sq@,
            Color::White,
            wk_sq.0 as int,
        ) && side_tracks(b0.accumulator.black, &b0.nnue.params, b0.piece_on_sq@, Color::Black, bk_sq.0 as int);
        let color = moving_piece.color();
        let pt = moving_piece.piece_type();
        proof {
            if track {
                if pos0[to.0 as int] is Some {
                    assert(pos0[to.0 as int].unwrap().spec_color() != moving_piece.spec_color());
                    assert(pos0[to.0 as int].unwrap().spec_color() == moving_piece.spec_color().spec_flip());
                    assert(pos0[to.0 as int].unwrap().spec_piece_type() != PieceType::King);
                }
                assert(side_tracks(self.accumulator.white, &self.nnue.params, self.piece_on_sq@, Color::White, wk_sq.0 as int));
            }
        }
        self.move_piece_basic(from, to, moving_piece, wk_sq, bk_sq);
        let ghost p3 = self.piece_on_sq@;
        proof {
            if track {
                assert(side_tracks(self.accumulator.white, &b0.nnue.params, p3, Color::White, wk_sq.0 as int));
                assert(side_tracks(self.accumulator.black, &b0.nnue.params, p3, Color::Black, bk_sq.0 as int));
                assert(p3[to.0 as int] == Some(moving_piece));
                crate::types::lemma_piece_roundtrip(moving_piece);
                if spec_flag(m.0) == Move::FLAG_EP {
                    assert(ep_victim_square(color, to.0 as int) != to.0 as int);
                    assert(ep_victim_square(color, to.0 as int) != from.0 as int);
                    assert(p3[ep_victim_square(color, to.0 as int)] == pos0[ep_victim_square(color, to.0 as int)]);
                }
            }
        }
        proof {
            let t = to.0 as int;
            if is_castle_flag(m.0) {
                assert(castle_rook_from(t) != t && castle_rook_to(t) != t);
            }
            if track {
                assert(!is_castle_flag(m.0));
                if spec_is_promotion(m.0) {
                    let mm = m.0;
                    assert((mm & 0xF000u16) < 0x8000u16 ==> (mm & 0x8000u16) == 0u16) by (bit_vector);
                    assert(moving_piece.spec_piece_type() == PieceType::Pawn);
                    assert(p3[t] == Some(Piece::spec_new(color, PieceType::Pawn)));
                }
                if spec_flag(m.0) == Move::FLAG_EP {
                    assert(p3[ep_victim_square(color, t)] == Some(Piece::spec_new(color.spec_flip(), PieceType::Pawn)));
                }
            }
        }
        self.move_piece_special(m, to, color, wk_sq, bk_sq);
        proof {
            assert(self.piece_on_sq@ =~= mailbox_after_move(pos0, m.0));
        }
        proof {
            if track {
                assert(!is_castle_flag(m.0));
                assert(side_tracks(self.accumulator.white, &b0.nnue.params, self.piece_on_sq@, Color::White, wk_sq.0 as int));
                assert(side_tracks(self.accumulator.black, &b0.nnue.params, self.piece_on_sq@, Color::Black, bk_sq.0 as int));
                assert forall|s: int, c: Color| 0 <= s < 64 implies #[trigger] king_of(self.piece_on_sq@, s, c) == king_of(pos0, s, c) by {
                    assert(Piece::spec_new(c, PieceType::King).spec_piece_type() == PieceType::King);
                    if spec_is_promotion(m.0) {
                        assert(Piece::spec_new(color, spec_promotion_type(m.0)).spec_piece_type() == spec_promotion_type(m.0));
                    }
                }
                lemma_king_square_same(b0.pieces, b0.colors, b0.piece_on_sq, self.pieces, self.colors, self.piece_on_sq, Color::White);
                lemma_king_square_same(b0.pieces, b0.colors, b0.piece_on_sq, self.pieces, self.colors, self.piece_on_sq, Color::Black);
            }
        }
    }

    /// The pieces that `m` moves or takes besides the mover are the ones its
    /// flag names, so the accumulator can follow the move piece by piece: a
    /// pseudo-legal move that takes no king, whose en-passant victim is an
    /// enemy pawn, and that castles only with the king.
    pub open spec fn nnue_update_ok(&self, m: u16) -> bool {
        let from = spec_from_sq(m) as int;
        let to = spec_to_sq(m) as int;
        let p = self.piece_on_sq[from].unwrap();
        &&& self.spec_pseudo_legal(m)
        &&& !(self.piece_on_sq[to] matches Some(q) && q.spec_piece_type() == PieceType::King)
        &&& spec_flag(m) == Move::FLAG_EP ==> self.piece_on_sq[ep_victim_square(p.spec_color(), to)] == Some(
            Piece::spec_new(p.spec_color().spec_flip(), PieceType::Pawn),
        )
        &&& is_castle_flag(m) ==> p.spec_piece_type() == PieceType::King
    }

    /// Play `m` and return what `unmake_move` needs to take it back.  The
    /// accumulator follows the move: when it held the features of the old
    /// position and both kings are still on the board, it holds those of
    /// the new one, whether updated piece by piece or, after a king move,
    /// recomputed.
    #[verifier::rlimit(80)]
    pub fn make_move(&mut self, m: Move) -> (undo: UndoState)
        requires
            old(self).wf(),
            old(self).can_make(m.0),
        ensures
            final(self).wf(),
            Board::made(*old(self), *final(self), m.0, undo),
            ({
                let wk0 = king_square(old(self).pieces, old(self).colors, Color::White);
                let bk0 = king_square(old(self).pieces, old(self).colors, Color::Black);
                let wk1 = king_square(final(self).pieces, final(self).colors, Color::White);
                let bk1 = king_square(final(self).pieces, final(self).colors, Color::Black);
                let par = &old(self).nnue.params;
                (old(self).nnue_update_ok(m.0) && old(self).accumulator.white.holds(par, position_features(old(self).piece_on_sq@, Color::White, wk0))
                    && old(self).accumulator.black.holds(par, position_features(old(self).piece_on_sq@, Color::Black, bk0))
                    && wk1 < 64 && bk1 < 64) ==> {
                    &&& final(self).accumulator.white.holds(par, position_features(final(self).piece_on_sq@, Color::White, wk1))
                    &&& final(self).accumulator.black.holds(par, position_features(final(self).piece_on_sq@, Color::Black, bk1))
                }
            }),
    {
        let ghost pos0 = self.piece_on_sq@;
        let ghost b0 = *self;
        let ghost wk0 = king_square(self.pieces, self.colors, Color::White);
        let ghost bk0 = king_square(self.pieces, self.colors, Color::Black);
        let ghost track = self.nnue_update_ok(m.0) && self.accumulator.white.holds(&self.nnue.params, position_features(pos0, Color::White, wk0))
            && self.accumulator.black.holds(&self.nnue.params, position_features(pos0, Color::Black, bk0));
        proof {
            lemma_holds_tracks(self.accumulator.white, &self.nnue.params, pos0, Color::White, wk0);
            lemma_holds_tracks(self.accumulator.black, &self.nnue.params, pos0, Color::Black, bk0);
        }
        let from = Square::new(m.from_sq());
        let to = Square::new(m.to_sq());
        let moving_piece = match self.piece_on_sq[from.0 as usize] {
            Some(p) => p,
            None => {
                proof {
                    assert(false);
                }
                Piece(0)
            },
        };
        let color = moving_piece.color();
        let pt = moving_piece.piece_type();
        let captured_piece = match self.piece_on_sq[to.0 as usize] {
            Some(p) => Some(p.piece_type()),
            None => None,
        };
        let undo = UndoState {
            en_passant: self.en_passant,
            castling: self.castling,
            halfmove_clock: self.halfmove_clock,
            captured_piece,
            zobrist_key: self.zobrist_key,
            accumulator: self.accumulator.copy(),
        };
        self.position_history.push(self.zobrist_key);
        if pt == PieceType::Pawn || captured_piece.is_some() {
            self.halfmove_clock = 0;
        } else {
            self.halfmove_clock = self.halfmove_clock + 1;
        }
        proof {
            let a = pieces_hash(self.pieces, self.colors);
            let b = side_part(self.side_to_move);
            let c = spec_castling_key(self.castling.0);
            let d = ep_part(self.en_passant);
            xor_facts(a, b, c, d, 0);
        }
        if let Some(ep_sq) = self.en_passant {
            self.zobrist_key = self.zobrist_key ^ ep_key(&self.keys, ep_sq);
        }
        self.en_passant = None;
        proof {
            let a = pieces_hash(self.pieces, self.colors);
            let b = side_part(self.side_to_move);
            let c = spec_castling_key(self.castling.0);
            xor_facts(a, b, c, 0, 0);
            assert(self.zobrist_key == self.spec_hash());
        }
        let wk_sq = Square::new(self.color_piece_bb(Color::White, PieceType::King).lsb());
        let bk_sq = Square::new(self.color_piece_bb(Color::Black, PieceType::King).lsb());
        proof {
            assert(wk_sq.0 == wk0);
            assert(bk_sq.0 == bk0);
            assert(self.accumulator == b0.accumulator);
            assert(self.piece_on_sq@ == pos0);
            if track {
                assert(pos0[from.0 as int] == Some(moving_piece));
                if pos0[to.0 as int] is Some {
                    assert(pos0[to.0 as int].unwrap().spec_color() != moving_piece.spec_color());
                }
            }
        }
        self.move_pieces(m, from, to, moving_piece, wk_sq, bk_sq, Ghost(b0));
        if m.flag() == Move::FLAG_DBL_PUSH {
            let ep_sq = if color == Color::White {
                Square::new(to.0 - 8)
            } else {
                Square::new(to.0 + 8)
            };
            self.en_passant = Some(ep_sq);
            self.zobrist_key = self.zobrist_key ^ ep_key(&self.keys, ep_sq);
            proof {
                let a = pieces_hash(self.pieces, self.colors);
                let b = side_part(self.side_to_move);
                let c = spec_castling_key(self.castling.0);
                let e = spec_ep_key(ep_sq.0 as int % 8);
                xor_facts(a, b, c, 0, e);
            }
        }
        let ghost b4 = *self;
        if pt == PieceType::King {
            self.refresh_accumulator();
        }
        let ck_old = castling_key(&self.keys, self.castling);
        self.zobrist_key = self.zobrist_key ^ ck_old;
        self.update_castling_rights(from);
        self.update_castling_rights(to);
        let ck_new = castling_key(&self.keys, self.castling);
        self.zobrist_key = self.zobrist_key ^ ck_new;
        proof {
            let a = pieces_hash(self.pieces, self.colors);
            let b = side_part(self.side_to_move);
            let d = ep_part(self.en_passant);
            xor_facts(a, b, ck_old, d, ck_new);
        }
        self.side_to_move = self.side_to_move.flip();
        self.zobrist_key = self.zobrist_key ^ side_key(&self.keys);
        proof {
            let a = pieces_hash(self.pieces, self.colors);
            let c = spec_castling_key(self.castling.0);
            let d = ep_part(self.en_passant);
            let sk = spec_side_key();
            xor_facts(a, 0, c, d, sk);
        }
        if self.side_to_move == Color::White {
            self.fullmove_number = self.fullmove_number + 1;
        }
        proof {
            let wk1 = king_square(self.pieces, self.colors, Color::White);
            let bk1 = king_square(self.pieces, self.colors, Color::Black);
            assert(self.nnue == b0.nnue);
            if track && pt != PieceType::King {
                assert(self.piece_on_sq@ == b4.piece_on_sq@);
                assert(self.accumulator == b4.accumulator);
                assert(wk1 == wk0);
                assert(bk1 == bk0);
                assert(side_tracks(self.accumulator.white, &self.nnue.params, self.piece_on_sq@, Color::White, wk0));
                lemma_holds_tracks(self.accumulator.white, &self.nnue.params, self.piece_on_sq@, Color::White, wk1);
                lemma_holds_tracks(self.accumulator.black, &self.nnue.params, self.piece_on_sq@, Color::Black, bk1);
            }
        }
        undo
    }

    /// What `unmake_move` needs: the moved piece on `to`, its source square
    /// free, room for the pawn taken en passant, the castling rook on its
    /// square and its home free, a full-move counter that can go back.
    pub open spec fn can_unmake(&self, m: u16, undo: &UndoState) -> bool {
        let from = spec_from_sq(m) as int;
        let to = spec_to_sq(m) as int;
        let p = self.piece_on_sq[to];
        let p2 = unmove_restored(self.piece_on_sq@, m, undo.captured_piece);
        &&& p is Some
        &&& (self.piece_on_sq[from] is None || from == to)
        &&& (undo.captured_piece is Some && spec_flag(m) != Move::FLAG_EP) ==> from != to
        &&& self.side_to_move == Color::White ==> self.fullmove_number >= 1
        &&& spec_flag(m) == Move::FLAG_EP ==> {
            &&& (if p.unwrap().spec_color() == Color::White { to >= 8 } else { to < 56 })
            &&& self.piece_on_sq@.update(to, None).update(from, Some(Piece(0)))[ep_victim_square(p.unwrap().spec_color(), to)] is None
        }
        &&& is_castle_flag(m) ==> {
            &&& (to == 6 || to == 2 || to == 62 || to == 58)
            &&& p2[castle_rook_to(to)] is Some
            &&& p2.update(castle_rook_to(to), None)[castle_rook_from(to)] is None
        }
        &&& undo.accumulator.wf()
    }

    /// Whether `m` can be taken back after it is made here (see `reversible`).
    pub fn can_reverse(&self, m: Move) -> (r: bool)
        requires
            self.pos_ok(),
        ensures
            r == reversible(self.piece_on_sq@, m.0),
    {
        proof {
            crate::types::lemma_move_squares(m.0);
        }
        let from = m.from_sq() as usize;
        let to = m.to_sq() as usize;
        let flag = m.flag();
        let p = match self.piece_on_sq[from] {
            Some(p) => p,
            None => {
                return false;
            },
        };
        let c = p.color();
        if from == to {
            return false;
        }
        if let Some(q) = self.piece_on_sq[to] {
            if q.color() == c {
                return false;
            }
        }
        if flag == Move::FLAG_EP {
            if self.piece_on_sq[to].is_some() {
                return false;
            }
            let inside = if c == Color::White { to >= 8 } else { to < 56 };
            if !inside {
                return false;
            }
            let v: usize = if c == Color::White { to - 8 } else { to + 8 };
            if v == from {
                return false;
            }
            match self.piece_on_sq[v] {
                Some(q) => {
                    if q != Piece::new(c.flip(), PieceType::Pawn) {
                        return false;
                    }
                },
                None => {
                    return false;
                },
            }
        }
        if m.is_promotion() && p.piece_type() != PieceType::Pawn {
            return false;
        }
        if flag == Move::FLAG_K_CASTLE || flag == Move::FLAG_Q_CASTLE {
            if !(to == 6 || to == 2 || to == 62 || to == 58) {
                return false;
            }
            let rook_from: usize = if to == 6 { 7 } else if to == 2 { 0 } else if to == 62 { 63 } else { 56 };
            let rook_to: usize = if to == 6 { 5 } else if to == 2 { 3 } else if to == 62 { 61 } else { 59 };
            if rook_from == from || rook_to == from {
                return false;
            }
            if self.piece_on_sq[rook_from].is_none() || self.piece_on_sq[rook_to].is_some() {
                return false;
            }
        }
        true
    }

    /// Take back `m` with the state `make_move` saved.
    #[verifier::rlimit(40)]
    pub fn unmake_move(&mut self, m: Move, undo: &UndoState)
        requires
            old(self).parts_ok(),
            old(self).can_unmake(m.0, undo),
            undo.en_passant matches Some(s) ==> s.0 < 64,
        ensures
            final(self).parts_ok(),
            Board::unmade(*old(self), *final(self), m.0, *undo),
    {
        let ghost pos0 = self.piece_on_sq@;
        let from = Square::new(m.from_sq());
        let to = Square::new(m.to_sq());
        self.side_to_move = self.side_to_move.flip();
        if self.side_to_move == Color::Black {
            self.fullmove_number = self.fullmove_number - 1;
        }
        let moved_piece = match self.piece_on_sq[to.0 as usize] {
            Some(p) => p,
            None => {
                proof {
                    assert(false);
                }
                Piece(0)
            },
        };
        let color = moved_piece.color();
        let pt = moved_piece.piece_type();
        self.remove_piece(to);
        let orig_pt = if m.is_promotion() {
            PieceType::Pawn
        } else {
            pt
        };
        self.put_piece(Piece::new(color, orig_pt), from);
        proof {
            assert(self.piece_on_sq@ =~= pos0.update(to.0 as int, None).update(from.0 as int, Some(Piece::spec_new(color, orig_pt))));
        }
        if m.flag() == Move::FLAG_EP {
            let ep_cap_sq = if color == Color::White {
                Square::new(to.0 - 8)
            } else {
                Square::new(to.0 + 8)
            };
            self.put_piece(Piece::new(color.flip(), PieceType::Pawn), ep_cap_sq);
        } else if let Some(cap_pt) = undo.captured_piece {
            self.put_piece(Piece::new(color.flip(), cap_pt), to);
        }
        proof {
            assert(self.piece_on_sq@ =~= unmove_restored(pos0, m.0, undo.captured_piece));
        }
        if m.flag() == Move::FLAG_K_CASTLE || m.flag() == Move::FLAG_Q_CASTLE {
            let (rook_from, rook_to) = if to.0 == 6 {
                (Square::new(7), Square::new(5))
            } else if to.0 == 2 {
                (Square::new(0), Square::new(3))
            } else if to.0 == 62 {
                (Square::new(63), Square::new(61))
            } else {
                (Square::new(56), Square::new(59))
            };
            let rook = match self.piece_on_sq[rook_to.0 as usize] {
                Some(r) => r,
                None => {
                    proof {
                        assert(false);
                    }
                    Piece(0)
                },
            };
            self.remove_piece(rook_to);
            self.put_piece(rook, rook_from);
        }
        proof {
            assert(self.piece_on_sq@ =~= mailbox_after_unmove(pos0, m.0, undo.captured_piece));
        }
        self.en_passant = undo.en_passant;
        self.castling = undo.castling;
        self.halfmove_clock = undo.halfmove_clock;
        self.zobrist_key = undo.zobrist_key;
        self.accumulator = undo.accumulator.copy();
        self.position_history.pop();
    }

    /// Pass the move to the opponent.
    pub fn make_null_move(&mut self) -> (undo: UndoState)
        requires
            old(self).wf(),
        ensures
            final(self).wf(),
            final(self).piece_on_sq == old(self).piece_on_sq,
            final(self).pieces == old(self).pieces,
            final(self).colors == old(self).colors,
            final(self).side_to_move == old(self).side_to_move.spec_flip(),
            final(self).en_passant is None,
            final(self).castling == old(self).castling,
            final(self).halfmove_clock == old(self).halfmove_clock,
            final(self).fullmove_number == old(self).fullmove_number,
            final(self).accumulator == old(self).accumulator,
            final(self).position_history == old(self).position_history,
            final(self).nnue == old(self).nnue,
            final(self).keys == old(self).keys,
            undo.en_passant == old(self).en_passant,
            undo.castling == old(self).castling,
            undo.halfmove_clock == old(self).halfmove_clock,
            undo.captured_piece is None,
            undo.zobrist_key == old(self).zobrist_key,
            undo.accumulator.wf(),
    {
        let undo = UndoState {
            en_passant: self.en_passant,
            castling: self.castling,
            halfmove_clock: self.halfmove_clock,
            captured_piece: None,
            zobrist_key: self.zobrist_key,
            accumulator: Accumulator::new(),
        };
        proof {
            let a = pieces_hash(self.pieces, self.colors);
            let b = side_part(self.side_to_move);
            let c = spec_castling_key(self.castling.0);
            let d = ep_part(self.en_passant);
            xor_facts(a, b, c, d, 0);
        }
        if let Some(ep_sq) = self.en_passant {
            self.zobrist_key = self.zobrist_key ^ ep_key(&self.keys, ep_sq);
        }
        self.en_passant = None;
        self.side_to_move = self.side_to_move.flip();
        self.zobrist_key = self.zobrist_key ^ side_key(&self.keys);
        proof {
            let a = pieces_hash(self.pieces, self.colors);
            let c = spec_castling_key(self.castling.0);
            let sk = spec_side_key();
            xor_facts(a, 0, c, 0, sk);
        }
        undo
    }

    /// Take back a null move.
    pub fn unmake_null_move(&mut self, undo: &UndoState)
        ensures
            final(self).piece_on_sq == old(self).piece_on_sq,
            final(self).pieces == old(self).pieces,
            final(self).colors == old(self).colors,
            final(self).side_to_move == old(self).side_to_move.spec_flip(),
            final(self).en_passant == undo.en_passant,
            final(self).castling == undo.castling,
            final(self).halfmove_clock == undo.halfmove_clock,
            final(self).zobrist_key == undo.zobrist_key,
            final(self).fullmove_number == old(self).fullmove_number,
            final(self).accumulator == old(self).accumulator,
            final(self).position_history == old(self).position_history,
            final(self).nnue == old(self).nnue,
            final(self).keys == old(self).keys,
    {
        self.side_to_move = self.side_to_move.flip();
        self.en_passant = undo.en_passant;
        self.castling = undo.castling;
        self.halfmove_clock = undo.halfmove_clock;
        self.zobrist_key = undo.zobrist_key;
    }

    /// All occupied squares.
    pub open spec fn occ(&self) -> u64 {
        self.colors[0].0 | self.colors[1].0
    }

    /// Whether a piece of `by_color` attacks `sq`.
    pub fn is_square_attacked(&self, sq: Square, by_color: Color) -> (r: bool)
        requires
            self.pos_ok(),
            sq.0 < 64,
        ensures
            r == attacked_by(self.piece_on_sq, self.occ(), sq.0 as int, by_color),
    {
        let occ = self.occupancies();
        let pawns = self.color_piece_bb(by_color, PieceType::Pawn);
        let pa = pawn_attacks(by_color.flip(), sq);
        if (pa & pawns).is_not_empty() {
            proof {
                let s = choose|s: int| 0 <= s < 64 && bit_set(pa.0 & pawns.0, s);
                lemma_bit_and(pa.0, pawns.0, s);
                assert(self.piece_on_sq[s] is Some);
            }
            return true;
        }
        let knights = self.color_piece_bb(by_color, PieceType::Knight);
        let na = knight_attacks(sq);
        if (na & knights).is_not_empty() {
            proof {
                let s = choose|s: int| 0 <= s < 64 && bit_set(na.0 & knights.0, s);
                lemma_bit_and(na.0, knights.0, s);
                assert(self.piece_on_sq[s] is Some);
            }
            return true;
        }
        let kings = self.color_piece_bb(by_color, PieceType::King);
        let ka = king_attacks(sq);
        if (ka & kings).is_not_empty() {
            proof {
                let s = choose|s: int| 0 <= s < 64 && bit_set(ka.0 & kings.0, s);
                lemma_bit_and(ka.0, kings.0, s);
                assert(self.piece_on_sq[s] is Some);
            }
            return true;
        }
        let bq = self.color_piece_bb(by_color, PieceType::Bishop) | self.color_piece_bb(by_color, PieceType::Queen);
        let ba = bishop_attacks(sq, occ);
        if (ba & bq).is_not_empty() {
            proof {
                let s = choose|s: int| 0 <= s < 64 && bit_set(ba.0 & bq.0, s);
                lemma_bit_and(ba.0, bq.0, s);
                lemma_bit_or(self.color_piece_bb_spec(by_color, PieceType::Bishop), self.color_piece_bb_spec(by_color, PieceType::Queen), s);
                lemma_bishop_symmetric(sq.0 as int, occ.0, s);
                assert(self.piece_on_sq[s] is Some);
            }
            return true;
        }
        let rq = self.color_piece_bb(by_color, PieceType::Rook) | self.color_piece_bb(by_color, PieceType::Queen);
        let ra = rook_attacks(sq, occ);
        if (ra & rq).is_not_empty() {
            proof {
                let s = choose|s: int| 0 <= s < 64 && bit_set(ra.0 & rq.0, s);
                lemma_bit_and(ra.0, rq.0, s);
                lemma_bit_or(self.color_piece_bb_spec(by_color, PieceType::Rook), self.color_piece_bb_spec(by_color, PieceType::Queen), s);
                lemma_rook_symmetric(sq.0 as int, occ.0, s);
                assert(self.piece_on_sq[s] is Some);
            }
            return true;
        }
        proof {
            if attacked_by(self.piece_on_sq, self.occ(), sq.0 as int, by_color) {
                let s = choose|s: int|
                    0 <= s < 64 && #[trigger] self.piece_on_sq[s] is Some && self.piece_on_sq[s].unwrap().spec_color() == by_color && piece_attacks(
                        self.piece_on_sq[s].unwrap().spec_piece_type(),
                        by_color,
                        s,
                        sq.0 as int,
                        self.occ(),
                    );
                let p = self.piece_on_sq[s].unwrap();
                crate::types::lemma_piece_roundtrip(p);
                lemma_bit_and(pa.0, pawns.0, s);
                lemma_bit_and(na.0, knights.0, s);
                lemma_bit_and(ka.0, kings.0, s);
                lemma_bit_and(ba.0, bq.0, s);
                lemma_bit_and(ra.0, rq.0, s);
                lemma_bit_or(self.color_piece_bb_spec(by_color, PieceType::Bishop), self.color_piece_bb_spec(by_color, PieceType::Queen), s);
                lemma_bit_or(self.color_piece_bb_spec(by_color, PieceType::Rook), self.color_piece_bb_spec(by_color, PieceType::Queen), s);
                lemma_bishop_symmetric(sq.0 as int, occ.0, s);
                lemma_rook_symmetric(sq.0 as int, occ.0, s);
                assert(false);
            }
        }
        false
    }

    /// The first piece type, counting from index `k` up to the queen, with a
    /// square in `att`; 5 (the king) when there is none.
    pub open spec fn least_kind(&self, att: u64, k: int) -> int
        decreases 5 - k,
    {
        if k >= 5 {
            5
        } else if att & self.pieces[k].0 != 0 {
            k
        } else {
            self.least_kind(att, k + 1)
        }
    }

    /// The exchange on `to` from the point where `stm` is to recapture:
    /// `occupied` are the squares still holding pieces, `attackers` the
    /// pieces that reach `to`, `swap` the balance so far and `res` whether
    /// the side that started is ahead.  `first` marks the step before any
    /// recapture, where `attackers` may still hold the square the first
    /// capture left.
    pub open spec fn see_exchange(
        &self,
        to: int,
        occupied: u64,
        attackers: u64,
        stm: Color,
        swap: int,
        res: int,
        first: bool,
    ) -> bool
        decreases (if first { 1int } else { 0int }), occupied,
    {
        let stm_att = attackers & self.colors[stm.spec_index()].0;
        if stm_att == 0 {
            res != 0
        } else {
            let k = self.least_kind(stm_att, 0);
            if k >= 5 {
                ((attackers & self.colors[stm.spec_flip().spec_index()].0) == 0) == (res != 0)
            } else {
                let sq = u64_trailing_zeros(stm_att & self.pieces[k].0) as u8;
                let res2 = 1 - res;
                let swap2 = see_value(piece_type_from_index(k)) - swap;
                if swap2 < res2 {
                    res2 != 0
                } else if !first && !bit_set(occupied, sq as int) {
                    false
                } else {
                    let occ2 = occupied ^ (1u64 << sq);
                    let a1 = if k == 0 || k == 2 || k == 4 {
                        attackers | (bishop_bits(to, occ2) & (self.pieces[2].0 | self.pieces[4].0))
                    } else {
                        attackers
                    };
                    let a2 = if k == 3 || k == 4 {
                        a1 | (rook_bits(to, occ2) & (self.pieces[3].0 | self.pieces[4].0))
                    } else {
                        a1
                    };
                    proof {
                        if !first {
                            lemma_clear_bit_smaller(occupied, sq as u64);
                        }
                    }
                    self.see_exchange(to, occ2, a2 & occ2, stm.spec_flip(), swap2, res2, false)
                }
            }
        }
    }

    /// With the side to move winning on `res == 1`, a larger `swap` to beat
    /// never turns a lost exchange into a won one; with `res == 0`, never a
    /// won one into a lost one.
    pub proof fn lemma_see_exchange_monotone(
        &self,
        to: int,
        occupied: u64,
        attackers: u64,
        stm: Color,
        s1: int,
        s2: int,
        res: int,
        first: bool,
    )
        requires
            s1 <= s2,
            res == 0 || res == 1,
        ensures
            res == 1 ==> (self.see_exchange(to, occupied, attackers, stm, s2, res, first) ==> self.see_exchange(
                to,
                occupied,
                attackers,
                stm,
                s1,
                res,
                first,
            )),
            res == 0 ==> (self.see_exchange(to, occupied, attackers, stm, s1, res, first) ==> self.see_exchange(
                to,
                occupied,
                attackers,
                stm,
                s2,
                res,
                first,
            )),
        decreases (if first { 1int } else { 0int }), occupied,
    {
        let stm_att = attackers & self.colors[stm.spec_index()].0;
        if stm_att != 0 {
            let k = self.least_kind(stm_att, 0);
            if k < 5 {
                let sq = u64_trailing_zeros(stm_att & self.pieces[k].0) as u8;
                let res2 = 1 - res;
                let v = see_value(piece_type_from_index(k));
                if !(v - s2 < res2) && !(v - s1 < res2) && !(!first && !bit_set(occupied, sq as int)) {
                    let occ2 = occupied ^ (1u64 << sq);
                    let a1 = if k == 0 || k == 2 || k == 4 {
                        attackers | (bishop_bits(to, occ2) & (self.pieces[2].0 | self.pieces[4].0))
                    } else {
                        attackers
                    };
                    let a2 = if k == 3 || k == 4 {
                        a1 | (rook_bits(to, occ2) & (self.pieces[3].0 | self.pieces[4].0))
                    } else {
                        a1
                    };
                    if !first {
                        lemma_clear_bit_smaller(occupied, sq as u64);
                    }
                    self.lemma_see_exchange_monotone(to, occ2, a2 & occ2, stm.spec_flip(), v - s2, v - s1, res2, false);
                }
            }
        }
    }

    /// The exchange test is monotone in its threshold: a move that gains at
    /// least `t2` gains at least any `t1 <= t2`.
    pub proof fn lemma_see_monotone(&self, m: u16, t1: i32, t2: i32)
        requires
            t1 <= t2,
        ensures
            self.see_result(m, t2) ==> self.see_result(m, t1),
    {
        let from = spec_from_sq(m);
        let to = spec_to_sq(m);
        if self.see_start(m, t2) >= 0 && self.piece_on_sq[from as int] is Some {
            let p = self.piece_on_sq[from as int].unwrap();
            let s1 = see_value(p.spec_piece_type()) - self.see_start(m, t1);
            let s2 = see_value(p.spec_piece_type()) - self.see_start(m, t2);
            let occ = self.occ() ^ (1u64 << from) ^ (1u64 << to);
            self.lemma_see_exchange_monotone(
                to as int,
                occ,
                attacker_bits(self.piece_on_sq, occ, to as int),
                self.side_to_move.spec_flip(),
                s1,
                s2,
                1,
                true,
            );
        }
    }

    /// The outcome of the static exchange that `m` starts, against
    /// `threshold`.
    pub open spec fn see_result(&self, m: u16, threshold: i32) -> bool {
        let start = self.see_start(m, threshold);
        let from = spec_from_sq(m);
        let to = spec_to_sq(m);
        if start < 0 {
            false
        } else {
            match self.piece_on_sq[from as int] {
                None => false,
                Some(p) => {
                    let swap = see_value(p.spec_piece_type()) - start;
                    if swap <= 0 {
                        true
                    } else {
                        let occ = self.occ() ^ (1u64 << from) ^ (1u64 << to);
                        self.see_exchange(
                            to as int,
                            occ,
                            attacker_bits(self.piece_on_sq, occ, to as int),
                            self.side_to_move.spec_flip(),
                            swap,
                            1,
                            true,
                        )
                    }
                },
            }
        }
    }

    /// What the exchange on the target of `m` starts from: the value of
    /// the piece taken (a pawn for en passant, nothing for a quiet move)
    /// less `threshold`.
    pub open spec fn see_start(&self, m: u16, threshold: i32) -> int {
        let to = spec_to_sq(m) as int;
        if spec_flag(m) == Move::FLAG_EP {
            see_value(PieceType::Pawn) - threshold
        } else {
            match self.piece_on_sq[to] {
                Some(p) => see_value(p.spec_piece_type()) - threshold,
                None => -threshold,
            }
        }
    }

    /// The cheapest attacker among `stm_attackers`: the first piece type,
    /// pawn to king, with an attacker there, and its lowest square.
    fn least_attacker(&self, stm_attackers: u64) -> (r: (u8, PieceType))
        ensures
            r.1 != PieceType::King ==> r.0 < 64 && bit_set(stm_attackers, r.0 as int) && bit_set(
                self.pieces[r.1.spec_index()].0,
                r.0 as int,
            ),
            forall|k: int| 0 <= k < r.1.spec_index() ==> stm_attackers & #[trigger] self.pieces[k].0 == 0,
            r.1.spec_index() == self.least_kind(stm_attackers, 0),
            r.1 != PieceType::King ==> r.0 == u64_trailing_zeros(stm_attackers & self.pieces[r.1.spec_index()].0),
    {
        let mut k: usize = 0;
        while k < 5
            invariant
                k <= 5,
                forall|j: int| 0 <= j < k ==> stm_attackers & #[trigger] self.pieces[j].0 == 0,
                self.least_kind(stm_attackers, 0) == self.least_kind(stm_attackers, k as int),
            decreases 5 - k,
        {
            let pt = piece_type_of_index(k);
            let pt_attackers = stm_attackers & self.piece_bb(pt).0;
            if pt_attackers != 0 {
                let sq = Bitboard::new(pt_attackers).lsb();
                proof {
                    lemma_bit_and(stm_attackers, self.pieces[k as int].0, sq as int);
                }
                return (sq, pt);
            }
            k = k + 1;
        }
        (64, PieceType::King)
    }

    /// Whether the static exchange that `m` starts on its target square wins
    /// at least `threshold`: both sides keep capturing on that square with
    /// their cheapest attacker, and may stop when it pays.  A threshold below
    /// `i32::MIN + 901` is left out: the first exchange value, a piece's
    /// value less the threshold, would leave `i32`.
    pub fn see_ge(&self, m: Move, threshold: i32) -> (r: bool)
        requires
            self.pos_ok(),
            threshold >= i32::MIN + 901,
        ensures
            self.see_start(m.0, threshold) < 0 ==> !r,
            self.see_start(m.0, threshold) >= 0 && self.piece_on_sq[spec_from_sq(m.0) as int] is None ==> !r,
            self.see_start(m.0, threshold) >= 0 && self.piece_on_sq[spec_from_sq(m.0) as int] is Some && see_value(
                self.piece_on_sq[spec_from_sq(m.0) as int].unwrap().spec_piece_type(),
            ) - self.see_start(m.0, threshold) <= 0 ==> r,
            r == self.see_result(m.0, threshold),
            (self.piece_on_sq[spec_from_sq(m.0) as int] matches Some(p) ==> p.spec_color() == self.side_to_move) ==> r
                == self.see_play_result(m.0, threshold),
    {
        proof {
            if self.piece_on_sq[spec_from_sq(m.0) as int] matches Some(p) ==> p.spec_color() == self.side_to_move {
                self.lemma_see_weighs_current_attackers(m.0, threshold);
            }
        }
        let from = Square::new(m.from_sq());
        let to = Square::new(m.to_sq());
        let mut swap: i32 = if m.is_en_passant() {
            see_piece_value(PieceType::Pawn) - threshold
        } else {
            match self.piece_on_sq[to.0 as usize] {
                Some(p) => see_piece_value(p.piece_type()) - threshold,
                None => -threshold,
            }
        };
        if swap < 0 {
            return false;
        }
        let moving_piece = match self.piece_on_sq[from.0 as usize] {
            Some(p) => p.piece_type(),
            None => {
                return false;
            },
        };
        swap = see_piece_value(moving_piece) - swap;
        if swap <= 0 {
            return true;
        }
        let mut occupied: u64 = self.occupancies().0 ^ (1u64 << from.0) ^ (1u64 << to.0);
        let mut attackers: u64 = self.attackers_to(to, Bitboard::new(occupied)).0;
        let mut stm = self.side_to_move.flip();
        let mut res: i32 = 1;
        let ghost mut first: int = 1;
        proof {
            assert(is_attacker_bits(attackers, self.piece_on_sq, occupied, to.0 as int));
            lemma_bits_named(attackers, to.0 as int, occupied, self.piece_on_sq);
        }
        loop
            invariant_except_break
                0 <= swap,
                self.see_exchange(to.0 as int, occupied, attackers, stm, swap as int, res as int, first == 1)
                    == self.see_result(m.0, threshold),
            invariant
                self.pos_ok(),
                to.0 < 64,
                0 <= res <= 1,
                -1000 <= swap <= 1000,
                0 <= first <= 1,
                self.see_start(m.0, threshold) >= 0,
                self.piece_on_sq[spec_from_sq(m.0) as int] is Some,
                see_value(self.piece_on_sq[spec_from_sq(m.0) as int].unwrap().spec_piece_type()) - self.see_start(
                    m.0,
                    threshold,
                ) > 0,
                first == 0 ==> forall|s: int| #[trigger] bit_set(attackers, s) ==> bit_set(occupied, s),
                (self.piece_on_sq[spec_from_sq(m.0) as int] matches Some(p) ==> p.spec_color() == self.side_to_move)
                    ==> self.see_result(m.0, threshold) == self.see_play_result(m.0, threshold),
            ensures
                (res != 0) == self.see_result(m.0, threshold),
            decreases first, occupied,
        {
            let stm_attackers = attackers & self.color_occupancy(stm).0;
            if stm_attackers == 0 {
                break;
            }
            let (attacker_sq, attacker_pt) = self.least_attacker(stm_attackers);
            if attacker_pt == PieceType::King {
                return ((attackers & self.color_occupancy(stm.flip()).0) == 0) == (res != 0);
            }
            res = 1 - res;
            swap = see_piece_value(attacker_pt) - swap;
            if swap < res {
                break;
            }
            let ghost before = occupied;
            proof {
                lemma_bit_and(attackers, self.colors[stm.spec_index()].0, attacker_sq as int);
                if first == 0 {
                    lemma_clear_bit_smaller(occupied, attacker_sq as u64);
                }
            }
            occupied = occupied ^ (1u64 << attacker_sq);
            if attacker_pt == PieceType::Pawn || attacker_pt == PieceType::Bishop || attacker_pt == PieceType::Queen {
                let diagonal = bishop_attacks(to, Bitboard::new(occupied));
                proof {
                    assert(is_bishop_bits(diagonal.0, to.0 as int, occupied));
                    lemma_bits_named(diagonal.0, to.0 as int, occupied, self.piece_on_sq);
                }
                attackers = attackers | (diagonal.0 & (self.piece_bb(PieceType::Bishop).0 | self.piece_bb(
                    PieceType::Queen,
                ).0));
            }
            if attacker_pt == PieceType::Rook || attacker_pt == PieceType::Queen {
                let straight = rook_attacks(to, Bitboard::new(occupied));
                proof {
                    assert(is_rook_bits(straight.0, to.0 as int, occupied));
                    lemma_bits_named(straight.0, to.0 as int, occupied, self.piece_on_sq);
                }
                attackers = attackers | (straight.0 & (self.piece_bb(PieceType::Rook).0 | self.piece_bb(
                    PieceType::Queen,
                ).0));
            }
            let ghost joined = attackers;
            attackers = attackers & occupied;
            proof {
                assert forall|s: int| #[trigger] bit_set(attackers, s) implies bit_set(occupied, s) by {
                    lemma_bit_and(joined, occupied, s);
                }
                first = 0;
            }
            stm = stm.flip();
        }
        res != 0
    }

    /// The pieces of either color that attack `sq` when `occ` is occupied.
    pub fn attackers_to(&self, sq: Square, occ: Bitboard) -> (r: Bitboard)
        requires
            self.pos_ok(),
            sq.0 < 64,
        ensures
            forall|s: int| #[trigger] bit_set(r.0, s) == attacker_on(self.piece_on_sq, occ.0, sq.0 as int, s),
    {
        let pb = pawn_attacks(Color::Black, sq);
        let wp = self.color_piece_bb(Color::White, PieceType::Pawn);
        let pw = pawn_attacks(Color::White, sq);
        let bp = self.color_piece_bb(Color::Black, PieceType::Pawn);
        let na = knight_attacks(sq);
        let kn = self.piece_bb(PieceType::Knight);
        let ka = king_attacks(sq);
        let kg = self.piece_bb(PieceType::King);
        let ba = bishop_attacks(sq, occ);
        let bq = self.piece_bb(PieceType::Bishop) | self.piece_bb(PieceType::Queen);
        let ra = rook_attacks(sq, occ);
        let rq = self.piece_bb(PieceType::Rook) | self.piece_bb(PieceType::Queen);
        let mut attackers = Bitboard::new(0);
        attackers = attackers | (pb & wp);
        attackers = attackers | (pw & bp);
        attackers = attackers | (na & kn);
        attackers = attackers | (ka & kg);
        attackers = attackers | (ba & bq);
        attackers = attackers | (ra & rq);
        proof {
            assert forall|s: int| #[trigger] bit_set(attackers.0, s) == attacker_on(self.piece_on_sq, occ.0, sq.0 as int, s) by {
                let x1 = pb.0 & wp.0;
                let x2 = pw.0 & bp.0;
                let x3 = na.0 & kn.0;
                let x4 = ka.0 & kg.0;
                let x5 = ba.0 & bq.0;
                let x6 = ra.0 & rq.0;
                lemma_bit_zero(s);
                lemma_bit_or(0u64, x1, s);
                lemma_bit_or(0u64 | x1, x2, s);
                lemma_bit_or(0u64 | x1 | x2, x3, s);
                lemma_bit_or(0u64 | x1 | x2 | x3, x4, s);
                lemma_bit_or(0u64 | x1 | x2 | x3 | x4, x5, s);
                lemma_bit_or(0u64 | x1 | x2 | x3 | x4 | x5, x6, s);
                lemma_bit_and(pb.0, wp.0, s);
                lemma_bit_and(pw.0, bp.0, s);
                lemma_bit_and(na.0, kn.0, s);
                lemma_bit_and(ka.0, kg.0, s);
                lemma_bit_and(ba.0, bq.0, s);
                lemma_bit_and(ra.0, rq.0, s);
                lemma_bit_or(self.pieces[2].0, self.pieces[4].0, s);
                lemma_bit_or(self.pieces[3].0, self.pieces[4].0, s);
                assert(bit_set(self.pieces[1].0, s) == holds_type(self.piece_on_sq, s, 1));
                assert(bit_set(self.pieces[2].0, s) == holds_type(self.piece_on_sq, s, 2));
                assert(bit_set(self.pieces[3].0, s) == holds_type(self.piece_on_sq, s, 3));
                assert(bit_set(self.pieces[4].0, s) == holds_type(self.piece_on_sq, s, 4));
                assert(bit_set(self.pieces[5].0, s) == holds_type(self.piece_on_sq, s, 5));
                if 0 <= s < 64 {
                    lemma_bishop_symmetric(sq.0 as int, occ.0, s);
                    lemma_rook_symmetric(sq.0 as int, occ.0, s);
                }
                if 0 <= s < 64 && self.piece_on_sq[s] is Some {
                    crate::types::lemma_piece_roundtrip(self.piece_on_sq[s].unwrap());
                }
            }
        }
        attackers
    }

    /// Material of the knights, bishops, rooks and queens of `color`.
    pub open spec fn spec_non_pawn_material(&self, color: Color) -> int {
        (300 * popcount(self.color_piece_bb_spec(color, PieceType::Knight)) + 320 * popcount(
            self.color_piece_bb_spec(color, PieceType::Bishop),
        ) + 500 * popcount(self.color_piece_bb_spec(color, PieceType::Rook)) + 900 * popcount(
            self.color_piece_bb_spec(color, PieceType::Queen),
        )) as int
    }

    pub fn non_pawn_material(&self, color: Color) -> (mat: i32)
        ensures
            mat == self.spec_non_pawn_material(color),
            0 <= mat <= 64 * 2020,
    {
        let nk = self.color_piece_bb(color, PieceType::Knight).count() as i32;
        let nb = self.color_piece_bb(color, PieceType::Bishop).count() as i32;
        let nr = self.color_piece_bb(color, PieceType::Rook).count() as i32;
        let nq = self.color_piece_bb(color, PieceType::Queen).count() as i32;
        let vk = crate::eval::piece_value_of(PieceType::Knight);
        let vb = crate::eval::piece_value_of(PieceType::Bishop);
        let vr = crate::eval::piece_value_of(PieceType::Rook);
        let vq = crate::eval::piece_value_of(PieceType::Queen);
        proof {
            assert(vk == 300 && vb == 320 && vr == 500 && vq == 900);
            assert(0 <= nk * 300 <= 64 * 300) by (nonlinear_arith) requires 0 <= nk <= 64;
            assert(0 <= nb * 320 <= 64 * 320) by (nonlinear_arith) requires 0 <= nb <= 64;
            assert(0 <= nr * 500 <= 64 * 500) by (nonlinear_arith) requires 0 <= nr <= 64;
            assert(0 <= nq * 900 <= 64 * 900) by (nonlinear_arith) requires 0 <= nq <= 64;
        }
        let mut mat: i32 = 0;
        mat = mat + nk * vk;
        mat = mat + nb * vb;
        mat = mat + nr * vr;
        mat = mat + nq * vq;
        mat
    }

    /// The current key appeared at an earlier position with the same side to
    /// move, no further back than the half-move clock reaches.
    pub open spec fn spec_is_repetition(&self) -> bool {
        let len = self.position_history@.len() as int;
        let limit = if len >= self.halfmove_clock { len - self.halfmove_clock } else { 0 };
        len >= 4 && exists|j: int|
            limit <= j <= len - 2 && (len - j) % 2 == 0 && #[trigger] self.position_history@[j]
                == self.zobrist_key
    }

    pub fn is_repetition(&self) -> (r: bool)
        ensures
            r == self.spec_is_repetition(),
    {
        let len = self.position_history.len();
        if len < 4 {
            return false;
        }
        let limit = len.saturating_sub(self.halfmove_clock as usize);
        let mut i = len - 2;
        while i >= limit
            invariant
                len == self.position_history@.len(),
                len >= 4,
                limit == (if len >= self.halfmove_clock { len - self.halfmove_clock } else { 0 }),
                i <= len - 2,
                (len - i) % 2 == 0,
                forall|j: int| i < j <= len - 2 && (len - j) % 2 == 0 ==> #[trigger] self.position_history@[j] != self.zobrist_key,
            decreases i,
        {
            if self.position_history[i] == self.zobrist_key {
                return true;
            }
            if i < 2 {
                proof {
                    assert forall|j: int| limit <= j <= len - 2 && (len - j) % 2 == 0 implies #[trigger] self.position_history@[j] != self.zobrist_key by {
                        assert(j >= i);
                    }
                }
                return false;
            }
            i = i - 2;
        }
        false
    }

    /// For a castling move: the king is not in check, and neither the square it
    /// crosses nor the one it lands on is attacked. Other moves pass.
    pub open spec fn spec_castling_legal(&self, m: u16) -> bool {
        let from = spec_from_sq(m) as int;
        let to = spec_to_sq(m) as int;
        let opp = self.side_to_move.spec_flip();
        let passing = if to > from { from + 1 } else { from - 1 };
        is_castle_flag(m) ==> {
            &&& !attacked_by(self.piece_on_sq, self.occ(), from, opp)
            &&& !attacked_by(self.piece_on_sq, self.occ(), passing, opp)
            &&& !attacked_by(self.piece_on_sq, self.occ(), to, opp)
        }
    }

    pub fn is_castling_legal(&self, m: Move) -> (r: bool)
        requires
            self.pos_ok(),
            is_castle_flag(m.0) ==> spec_from_sq(m.0) != 0 || spec_to_sq(m.0) != 0,
        ensures
            r == self.spec_castling_legal(m.0),
    {
        if m.flag() != Move::FLAG_K_CASTLE && m.flag() != Move::FLAG_Q_CASTLE {
            return true;
        }
        let side = self.side_to_move;
        let opp = side.flip();
        let king_from = m.from_sq();
        let king_to = m.to_sq();
        let king_sq = Square::new(king_from);
        if self.is_square_attacked(king_sq, opp) {
            return false;
        }
        let passing_sq = if king_to > king_from {
            Square::new(king_from + 1)
        } else {
            Square::new(king_from - 1)
        };
        if self.is_square_attacked(passing_sq, opp) {
            return false;
        }
        let dest_sq = Square::new(king_to);
        if self.is_square_attacked(dest_sq, opp) {
            return false;
        }
        true
    }

    /// The squares that a castling move must find empty: f1, g1 for the white
    /// king side, b1, c1, d1 for the white queen side, likewise on the eighth rank.
    pub open spec fn castle_path_empty(&self, c: Color, king_side: bool) -> bool {
        if c == Color::White {
            if king_side {
                self.piece_on_sq[5] is None && self.piece_on_sq[6] is None
            } else {
                self.piece_on_sq[1] is None && self.piece_on_sq[2] is None && self.piece_on_sq[3] is None
            }
        } else {
            if king_side {
                self.piece_on_sq[61] is None && self.piece_on_sq[62] is None
            } else {
                self.piece_on_sq[57] is None && self.piece_on_sq[58] is None && self.piece_on_sq[59] is None
            }
        }
    }

    /// The castling right of `c` on the given side.
    pub open spec fn has_right(&self, c: Color, king_side: bool) -> bool {
        let r = self.castling.0;
        if c == Color::White {
            if king_side { r & 1 != 0 } else { r & 2 != 0 }
        } else {
            if king_side { r & 4 != 0 } else { r & 8 != 0 }
        }
    }

    /// Whether `m` can be played here, kings left in check aside: a piece of
    /// the side to move on the source square; a target that is empty unless
    /// the move is flagged as a capture of an enemy piece (en passant targets
    /// an empty square); and the piece's own way of moving.
    pub open spec fn spec_pseudo_legal(&self, m: u16) -> bool {
        let from = spec_from_sq(m) as int;
        let to = spec_to_sq(m) as int;
        let flag = spec_flag(m);
        let side = self.side_to_move;
        let p = self.piece_on_sq[from];
        let target = self.piece_on_sq[to];
        let plain = flag == Move::FLAG_QUIET || flag == Move::FLAG_CAPTURE;
        &&& p is Some
        &&& p.unwrap().spec_color() == side
        &&& (match target {
            Some(t) => t.spec_color() != side && spec_is_capture(m),
            None => !spec_is_capture(m) || flag == Move::FLAG_EP,
        })
        &&& match p.unwrap().spec_piece_type() {
            PieceType::Pawn => {
                &&& spec_is_promotion(m) == (to / 8 == 0 || to / 8 == 7)
                &&& if flag == Move::FLAG_EP {
                    self.en_passant == Some(Square(to as u8)) && pawn_capture_target(side, from, to)
                } else if spec_is_capture(m) {
                    pawn_capture_target(side, from, to)
                } else if side == Color::White {
                    to == from + 8 || (to == from + 16 && from / 8 == 1 && self.piece_on_sq[from + 8] is None
                        && flag == Move::FLAG_DBL_PUSH)
                } else {
                    to == from - 8 || (to == from - 16 && from / 8 == 6 && self.piece_on_sq[from - 8] is None
                        && flag == Move::FLAG_DBL_PUSH)
                }
            },
            PieceType::Knight => knight_jump(from, to) && plain,
            PieceType::Bishop => bishop_attack(from, self.occ(), to) && plain,
            PieceType::Rook => rook_attack(from, self.occ(), to) && plain,
            PieceType::Queen => queen_attack(from, self.occ(), to) && plain,
            PieceType::King => {
                if is_castle_flag(m) {
                    let ks = flag == Move::FLAG_K_CASTLE;
                    &&& self.has_right(side, ks)
                    &&& to == (if side == Color::White {
                        if ks { 6int } else { 2int }
                    } else {
                        if ks { 62int } else { 58int }
                    })
                    &&& self.castle_path_empty(side, ks)
                } else {
                    king_step(from, to) && plain
                }
            },
        }
    }

    /// A black pawn's non-capturing move whose source square the check
    /// reads below the board.
    pub open spec fn pseudo_legal_reads_below_board(&self, m: u16) -> bool {
        let from = spec_from_sq(m) as int;
        let to = spec_to_sq(m) as int;
        let flag = spec_flag(m);
        let p = self.piece_on_sq[from];
        let target = self.piece_on_sq[to];
        &&& p is Some
        &&& p.unwrap().spec_color() == self.side_to_move
        &&& self.side_to_move == Color::Black
        &&& p.unwrap().spec_piece_type() == PieceType::Pawn
        &&& (match target {
            Some(t) => t.spec_color() != self.side_to_move && spec_is_capture(m),
            None => !spec_is_capture(m) || flag == Move::FLAG_EP,
        })
        &&& spec_is_promotion(m) == (to / 8 == 0 || to / 8 == 7)
        &&& flag != Move::FLAG_EP
        &&& !spec_is_capture(m)
        &&& (from < 8 || (to != from - 8 && from < 16))
    }

    /// Whether `is_pseudo_legal` can judge `m` here: false for a black
    /// pawn's non-capturing move whose check would read a square below the
    /// board.
    pub fn pseudo_legal_checkable(&self, m: Move) -> (r: bool)
        ensures
            r == !self.pseudo_legal_reads_below_board(m.0),
    {
        let from = m.from_sq() as usize;
        let to = m.to_sq() as usize;
        let flag = m.flag();
        let p = match self.piece_on_sq[from] {
            Some(p) => p,
            None => {
                return true;
            },
        };
        if p.color() != self.side_to_move || self.side_to_move != Color::Black || p.piece_type() != PieceType::Pawn {
            return true;
        }
        let target_ok = match self.piece_on_sq[to] {
            Some(t) => t.color() != self.side_to_move && m.is_capture(),
            None => !m.is_capture() || flag == Move::FLAG_EP,
        };
        if !target_ok {
            return true;
        }
        if m.is_promotion() != (to / 8 == 0 || to / 8 == 7) {
            return true;
        }
        if flag == Move::FLAG_EP || m.is_capture() {
            return true;
        }
        !(from < 8 || (to + 8 != from && from < 16))
    }

    /// Whether `m` is a pseudo-legal move here (see `spec_pseudo_legal`).
    #[verifier::rlimit(30)]
    pub fn is_pseudo_legal(&self, m: Move) -> (r: bool)
        requires
            self.pos_ok(),
            !self.pseudo_legal_reads_below_board(m.0),
        ensures
            r == self.spec_pseudo_legal(m.0),
    {
        let from = Square::new(m.from_sq());
        let to = Square::new(m.to_sq());
        let piece = match self.piece_on_sq[from.0 as usize] {
            Some(p) => p,
            None => return false,
        };
        if piece.color() != self.side_to_move {
            return false;
        }
        if let Some(target) = self.piece_on_sq[to.0 as usize] {
            if target.color() == self.side_to_move {
                return false;
            }
            if !m.is_capture() {
                return false;
            }
        } else {
            if m.is_capture() && m.flag() != Move::FLAG_EP {
                return false;
            }
        }
        let pt = piece.piece_type();
        let target_occ = self.occupancies();
        if pt == PieceType::Pawn {
            let is_promo = to.rank() == 0 || to.rank() == 7;
            if m.is_promotion() != is_promo {
                return false;
            }
            if m.flag() == Move::FLAG_EP {
                match self.en_passant {
                    Some(e) => {
                        if e.0 != to.0 {
                            return false;
                        }
                        assert(self.en_passant == Some(Square(spec_to_sq(m.0) as u8)));
                    },
                    None => {
                        return false;
                    },
                }
                if !has_square(pawn_attacks(self.side_to_move, from).0, to.0) {
                    return false;
                }
                return true;
            }
            if m.is_capture() {
                if !has_square(pawn_attacks(self.side_to_move, from).0, to.0) {
                    return false;
                }
            } else {
                if self.side_to_move == Color::White {
                    if to.0 == from.0 + 8 {
                    } else if to.0 == from.0 + 16 && from.rank() == 1 {
                        if self.piece_on_sq[(from.0 + 8) as usize].is_some() {
                            return false;
                        }
                        if m.flag() != Move::FLAG_DBL_PUSH {
                            return false;
                        }
                    } else {
                        return false;
                    }
                } else {
                    if to.0 == from.0 - 8 {
                    } else if to.0 == from.0 - 16 && from.rank() == 6 {
                        if self.piece_on_sq[(from.0 - 8) as usize].is_some() {
                            return false;
                        }
                        if m.flag() != Move::FLAG_DBL_PUSH {
                            return false;
                        }
                    } else {
                        return false;
                    }
                }
            }
        } else if pt == PieceType::Knight {
            if !has_square(knight_attacks(from).0, to.0) {
                return false;
            }
            if m.flag() != Move::FLAG_QUIET && m.flag() != Move::FLAG_CAPTURE {
                return false;
            }
        } else if pt == PieceType::Bishop {
            if !has_square(bishop_attacks(from, target_occ).0, to.0) {
                return false;
            }
            if m.flag() != Move::FLAG_QUIET && m.flag() != Move::FLAG_CAPTURE {
                return false;
            }
        } else if pt == PieceType::Rook {
            if !has_square(rook_attacks(from, target_occ).0, to.0) {
                return false;
            }
            if m.flag() != Move::FLAG_QUIET && m.flag() != Move::FLAG_CAPTURE {
                return false;
            }
        } else if pt == PieceType::Queen {
            if !has_square(queen_attacks(from, target_occ).0, to.0) {
                return false;
            }
            if m.flag() != Move::FLAG_QUIET && m.flag() != Move::FLAG_CAPTURE {
                return false;
            }
        } else {
            if m.flag() == Move::FLAG_K_CASTLE || m.flag() == Move::FLAG_Q_CASTLE {
                let occ = target_occ.0;
                proof {
                    lemma_castle_masks(occ);
                }
                if self.side_to_move == Color::White {
                    if m.flag() == Move::FLAG_K_CASTLE {
                        if !self.castling.has_wk() || to.0 != 6 || (target_occ.0 & 0x60) != 0 {
                            return false;
                        }
                    } else {
                        if !self.castling.has_wq() || to.0 != 2 || (target_occ.0 & 0x0E) != 0 {
                            return false;
                        }
                    }
                } else {
                    if m.flag() == Move::FLAG_K_CASTLE {
                        if !self.castling.has_bk() || to.0 != 62 || (target_occ.0 & 0x6000000000000000) != 0 {
                            return false;
                        }
                    } else {
                        if !self.castling.has_bq() || to.0 != 58 || (target_occ.0 & 0x0E00000000000000) != 0 {
                            return false;
                        }
                    }
                }
                return true;
            }
            if !has_square(king_attacks(from).0, to.0) {
                return false;
            }
            if m.flag() != Move::FLAG_QUIET && m.flag() != Move::FLAG_CAPTURE {
                return false;
            }
        }
        true
    }

    pub open spec fn color_piece_bb_spec(&self, color: Color, pt: PieceType) -> u64 {
        self.pieces[pt.spec_index()].0 & self.colors[color.spec_index()].0
    }

    /// Place `piece` on the empty square `sq`.
    pub fn put_piece(&mut self, piece: Piece, sq: Square)
        requires
            old(self).pos_ok(),
            old(self).keys.wf(),
            piece.wf(),
            sq.0 < 64,
            old(self).piece_on_sq[sq.0 as int] is None,
        ensures
            final(self).pos_ok(),
            final(self).piece_on_sq@ == old(self).piece_on_sq@.update(sq.0 as int, Some(piece)),
            final(self).zobrist_key == old(self).zobrist_key ^ spec_piece_key(piece.spec_color(), piece.spec_piece_type(), sq.0 as int),
            old(self).zobrist_key == old(self).spec_hash() ==> final(self).zobrist_key == final(self).spec_hash(),
            pieces_hash(final(self).pieces, final(self).colors) == pieces_hash(old(self).pieces, old(self).colors)
                ^ spec_piece_key(piece.spec_color(), piece.spec_piece_type(), sq.0 as int),
            final(self).side_to_move == old(self).side_to_move,
            final(self).en_passant == old(self).en_passant,
            final(self).castling == old(self).castling,
            final(self).halfmove_clock == old(self).halfmove_clock,
            final(self).fullmove_number == old(self).fullmove_number,
            final(self).accumulator == old(self).accumulator,
            final(self).nnue == old(self).nnue,
            final(self).position_history == old(self).position_history,
            final(self).keys == old(self).keys,
    {
        let pt = piece.piece_type();
        let color = piece.color();
        let ghost p1 = self.pieces;
        let ghost c1 = self.colors;
        let mut pb = self.pieces[pt.index()];
        pb.set_bit(sq.0);
        self.pieces[pt.index()] = pb;
        let mut cb = self.colors[color.index()];
        cb.set_bit(sq.0);
        self.colors[color.index()] = cb;
        self.piece_on_sq[sq.0 as usize] = Some(piece);
        self.zobrist_key = self.zobrist_key ^ piece_key(&self.keys, color, pt, sq);
        proof {
            assert(self.piece_on_sq@ =~= old(self).piece_on_sq@.update(sq.0 as int, Some(piece)));
            assert forall|t: int| 0 <= t < 6 implies #[trigger] bit_set(p1[t].0, sq.0 as int) == (false && t == pt.spec_index()) by {
                assert(bit_set(p1[t].0, sq.0 as int) == holds_type(old(self).piece_on_sq, sq.0 as int, t));
            }
            assert forall|ci: int| 0 <= ci < 2 implies #[trigger] bit_set(c1[ci].0, sq.0 as int) == (false && ci == color.spec_index()) by {
                assert(bit_set(c1[ci].0, sq.0 as int) == holds_color(old(self).piece_on_sq, sq.0 as int, ci));
            }
            lemma_toggle_hash(p1, c1, self.pieces, self.colors, sq.0 as int, pt, color, false);
            let a = pieces_hash(p1, c1);
            let b = side_part(self.side_to_move);
            let c = spec_castling_key(self.castling.0);
            let d = ep_part(self.en_passant);
            let k = spec_piece_key(color, pt, sq.0 as int);
            xor_facts(a, b, c, d, k);
        }
    }

    /// Take whatever stands on `sq` off the board.
    pub fn remove_piece(&mut self, sq: Square)
        requires
            old(self).pos_ok(),
            old(self).keys.wf(),
            sq.0 < 64,
        ensures
            final(self).pos_ok(),
            final(self).piece_on_sq@ == old(self).piece_on_sq@.update(sq.0 as int, None),
            old(self).zobrist_key == old(self).spec_hash() ==> final(self).zobrist_key == final(self).spec_hash(),
            old(self).piece_on_sq[sq.0 as int] is None ==> final(self).zobrist_key == old(self).zobrist_key
                && final(self).pieces == old(self).pieces && final(self).colors == old(self).colors,
            old(self).piece_on_sq[sq.0 as int] matches Some(p) ==> final(self).zobrist_key == old(self).zobrist_key
                ^ spec_piece_key(p.spec_color(), p.spec_piece_type(), sq.0 as int)
                && pieces_hash(final(self).pieces, final(self).colors) == pieces_hash(old(self).pieces, old(self).colors)
                ^ spec_piece_key(p.spec_color(), p.spec_piece_type(), sq.0 as int),
            final(self).side_to_move == old(self).side_to_move,
            final(self).en_passant == old(self).en_passant,
            final(self).castling == old(self).castling,
            final(self).halfmove_clock == old(self).halfmove_clock,
            final(self).fullmove_number == old(self).fullmove_number,
            final(self).accumulator == old(self).accumulator,
            final(self).nnue == old(self).nnue,
            final(self).position_history == old(self).position_history,
            final(self).keys == old(self).keys,
    {
        if let Some(piece) = self.piece_on_sq[sq.0 as usize] {
            let pt = piece.piece_type();
            let color = piece.color();
            let ghost p1 = self.pieces;
            let ghost c1 = self.colors;
            let mut pb = self.pieces[pt.index()];
            pb.clear_bit(sq.0);
            self.pieces[pt.index()] = pb;
            let mut cb = self.colors[color.index()];
            cb.clear_bit(sq.0);
            self.colors[color.index()] = cb;
            self.piece_on_sq[sq.0 as usize] = None;
            self.zobrist_key = self.zobrist_key ^ piece_key(&self.keys, color, pt, sq);
            proof {
                assert(self.piece_on_sq@ =~= old(self).piece_on_sq@.update(sq.0 as int, None));
                assert forall|t: int| 0 <= t < 6 implies #[trigger] bit_set(p1[t].0, sq.0 as int) == (true && t == pt.spec_index()) by {
                    assert(bit_set(p1[t].0, sq.0 as int) == holds_type(old(self).piece_on_sq, sq.0 as int, t));
                }
                assert forall|ci: int| 0 <= ci < 2 implies #[trigger] bit_set(c1[ci].0, sq.0 as int) == (true && ci == color.spec_index()) by {
                    assert(bit_set(c1[ci].0, sq.0 as int) == holds_color(old(self).piece_on_sq, sq.0 as int, ci));
                }
                lemma_toggle_hash(p1, c1, self.pieces, self.colors, sq.0 as int, pt, color, true);
                let a = pieces_hash(p1, c1);
                let b = side_part(self.side_to_move);
                let c = spec_castling_key(self.castling.0);
                let d = ep_part(self.en_passant);
                let k = spec_piece_key(color, pt, sq.0 as int);
                xor_facts(a, b, c, d, k);
            }
        } else {
            proof {
                assert(self.piece_on_sq@ =~= old(self).piece_on_sq@.update(sq.0 as int, None));
            }
        }
    }
}


/// A move that taking back undoes: it moves a piece of its own color to
/// another square, takes only an enemy piece, an en-passant capture takes an
/// enemy pawn behind an empty target, a promotion moves a pawn, a castling
/// rook goes to an empty square.
pub open spec fn reversible(pos: Seq<Option<Piece>>, m: u16) -> bool {
    let from = spec_from_sq(m) as int;
    let to = spec_to_sq(m) as int;
    let p = pos[from].unwrap();
    let c = p.spec_color();
    &&& pos.len() == 64
    &&& forall|s: int| 0 <= s < 64 && #[trigger] pos[s] is Some ==> pos[s].unwrap().wf()
    &&& pos[from] is Some
    &&& from != to
    &&& (pos[to] matches Some(q) ==> q.spec_color() != c)
    &&& spec_flag(m) == Move::FLAG_EP ==> {
        &&& pos[to] is None
        &&& 0 <= ep_victim_square(c, to) < 64
        &&& ep_victim_square(c, to) != from
        &&& pos[ep_victim_square(c, to)] == Some(Piece::spec_new(c.spec_flip(), PieceType::Pawn))
    }
    &&& spec_is_promotion(m) ==> p.spec_piece_type() == PieceType::Pawn
    &&& is_castle_flag(m) ==> {
        &&& (to == 6 || to == 2 || to == 62 || to == 58)
        &&& castle_rook_from(to) != from
        &&& castle_rook_to(to) != from
        &&& pos[castle_rook_from(to)] is Some
        &&& pos[castle_rook_to(to)] is None
    }
}

/// Taking back a move restores the mailbox it was played on.
pub proof fn lemma_unmove_after_move(pos: Seq<Option<Piece>>, m: u16)
    requires
        reversible(pos, m),
    ensures
        mailbox_after_unmove(
            mailbox_after_move(pos, m),
            m,
            match pos[spec_to_sq(m) as int] {
                Some(q) => Some(q.spec_piece_type()),
                None => None,
            },
        ) =~= pos,
{
    let from = spec_from_sq(m) as int;
    let to = spec_to_sq(m) as int;
    crate::types::lemma_move_squares(m);
    let p = pos[from].unwrap();
    let c = p.spec_color();
    crate::types::lemma_piece_roundtrip(p);
    if pos[to] is Some {
        let q = pos[to].unwrap();
        crate::types::lemma_piece_roundtrip(q);
        assert(c.spec_flip() == q.spec_color());
    }
    let after = mailbox_after_move(pos, m);
    assert(after[to] is Some);
    if spec_is_promotion(m) {
        assert(after[to] == Some(Piece::spec_new(c, spec_promotion_type(m))));
    } else {
        assert(after[to] == Some(p));
    }
    assert(after[to].unwrap().spec_color() == c);
}

/// Playing a move and taking it back gives the board back: the same pieces,
/// side to move, en-passant square, castling rights, clocks, key,
/// accumulator and history.
pub proof fn lemma_make_unmake_roundtrip(b0: Board, b1: Board, b2: Board, m: u16, undo: UndoState)
    requires
        b0.wf(),
        b0.can_make(m),
        reversible(b0.piece_on_sq@, m),
        b1.wf(),
        Board::made(b0, b1, m, undo),
        b2.parts_ok(),
        Board::unmade(b1, b2, m, undo),
    ensures
        b2.piece_on_sq == b0.piece_on_sq,
        b2.pieces == b0.pieces,
        b2.colors == b0.colors,
        b2.side_to_move == b0.side_to_move,
        b2.en_passant == b0.en_passant,
        b2.castling == b0.castling,
        b2.halfmove_clock == b0.halfmove_clock,
        b2.fullmove_number == b0.fullmove_number,
        b2.zobrist_key == b0.zobrist_key,
        b2.accumulator.same(&b0.accumulator),
        b2.position_history@ == b0.position_history@,
        b2.wf(),
{
    lemma_unmove_after_move(b0.piece_on_sq@, m);
    assert(b2.piece_on_sq@ =~= b0.piece_on_sq@);
    assert(b2.piece_on_sq == b0.piece_on_sq);
    lemma_position_determines_bitboards(b2.pieces, b2.colors, b0.pieces, b0.colors, b0.piece_on_sq);
    assert(b1.position_history@.drop_last() =~= b0.position_history@);
}

/// After a reversible move, `unmake_move` can take it back.
pub proof fn lemma_can_unmake_after_make(b0: Board, b1: Board, m: u16, undo: UndoState)
    requires
        b0.wf(),
        b0.can_make(m),
        reversible(b0.piece_on_sq@, m),
        Board::made(b0, b1, m, undo),
    ensures
        b1.can_unmake(m, &undo),
{
    crate::types::lemma_move_squares(m);
    let to = spec_to_sq(m) as int;
    let from = spec_from_sq(m) as int;
    assert(b1.piece_on_sq[to] is Some);
    assert(b1.piece_on_sq[from] is None);
    if spec_is_promotion(m) {
        crate::types::lemma_piece_roundtrip(b0.piece_on_sq[from].unwrap());
    }
    assert(b1.piece_on_sq[to].unwrap().spec_color() == b0.piece_on_sq[from].unwrap().spec_color());
}

/// The bitboards are determined by the mailbox.
pub proof fn lemma_position_determines_bitboards(
    p1: [Bitboard; 6],
    c1: [Bitboard; 2],
    p2: [Bitboard; 6],
    c2: [Bitboard; 2],
    pos: [Option<Piece>; 64],
)
    requires
        position_ok(p1, c1, pos),
        position_ok(p2, c2, pos),
    ensures
        p1 == p2,
        c1 == c2,
{
    assert forall|t: int| 0 <= t < 6 implies p1[t] == p2[t] by {
        assert forall|s: int| 0 <= s < 64 implies bit_set(p1[t].0, s) == bit_set(p2[t].0, s) by {
            assert(bit_set(p1[t].0, s) == holds_type(pos, s, t));
            assert(bit_set(p2[t].0, s) == holds_type(pos, s, t));
        }
        lemma_bits_ext(p1[t].0, p2[t].0);
    }
    assert forall|c: int| 0 <= c < 2 implies c1[c] == c2[c] by {
        assert forall|s: int| 0 <= s < 64 implies bit_set(c1[c].0, s) == bit_set(c2[c].0, s) by {
            assert(bit_set(c1[c].0, s) == holds_color(pos, s, c));
            assert(bit_set(c2[c].0, s) == holds_color(pos, s, c));
        }
        lemma_bits_ext(c1[c].0, c2[c].0);
    }
    assert(p1@ =~= p2@);
    assert(c1@ =~= c2@);
}

/// How clearing a mask of castling bits leaves each of the four bits.
proof fn castle_mask_facts(r: u8)
    by (bit_vector)
    ensures
        (r & !1u8) & 1 == 0 && (r & !1u8) & 2 == r & 2 && (r & !1u8) & 4 == r & 4 && (r & !1u8) & 8 == r & 8,
        (r & !2u8) & 2 == 0 && (r & !2u8) & 1 == r & 1 && (r & !2u8) & 4 == r & 4 && (r & !2u8) & 8 == r & 8,
        (r & !3u8) & 1 == 0 && (r & !3u8) & 2 == 0 && (r & !3u8) & 4 == r & 4 && (r & !3u8) & 8 == r & 8,
        (r & !4u8) & 4 == 0 && (r & !4u8) & 1 == r & 1 && (r & !4u8) & 2 == r & 2 && (r & !4u8) & 8 == r & 8,
        (r & !8u8) & 8 == 0 && (r & !8u8) & 1 == r & 1 && (r & !8u8) & 2 == r & 2 && (r & !8u8) & 4 == r & 4,
        (r & !12u8) & 4 == 0 && (r & !12u8) & 8 == 0 && (r & !12u8) & 1 == r & 1 && (r & !12u8) & 2 == r & 2,
{
}

/// The squares whose leaving or reaching costs the castling right `bit`:
/// the king's home square and the home corner of that side's rook.
pub open spec fn right_squares(bit: u8, sq: int) -> bool {
    if bit == 1 {
        sq == 4 || sq == 7
    } else if bit == 2 {
        sq == 4 || sq == 0
    } else if bit == 4 {
        sq == 60 || sq == 63
    } else {
        sq == 60 || sq == 56
    }
}

/// Castling rights after a move: for each of the four rights (bit 1: White
/// king side, 2: White queen side, 4: Black king side, 8: Black queen side),
/// the right is held after the move exactly when it was held before and the
/// move neither left nor reached its king square or its rook corner.
pub proof fn lemma_castling_rights_after_move(b0: Board, b1: Board, m: u16)
    requires
        Board::moved(b0, b1, m),
    ensures
        forall|bit: u8|
            (bit == 1 || bit == 2 || bit == 4 || bit == 8) ==> ((#[trigger] (b1.castling.0 & bit) != 0) == (
            (b0.castling.0 & bit) != 0 && !right_squares(bit, spec_from_sq(m) as int) && !right_squares(
                bit,
                spec_to_sq(m) as int,
            ))),
{
    let from = spec_from_sq(m) as int;
    let to = spec_to_sq(m) as int;
    let r0 = b0.castling.0;
    let r1 = rights_after_square(r0, from);
    castle_mask_facts(r0);
    castle_mask_facts(r1);
    assert(b1.castling.0 == rights_after_square(r1, to));
}

/// What a move does besides castling rights: the other side is to move; the
/// halfmove clock restarts after a pawn move or a capture and counts one more
/// otherwise; the move number advances after Black's move; a pawn's double
/// step leaves as en-passant square the square it passed over, and any other
/// move leaves none; and, castling aside, the origin square is left empty
/// while the target holds the mover, or the piece it promotes to.
pub proof fn lemma_move_effects(b0: Board, b1: Board, m: u16)
    requires
        Board::moved(b0, b1, m),
        b0.piece_on_sq[spec_from_sq(m) as int] is Some,
        spec_from_sq(m) != spec_to_sq(m),
    ensures
        b1.side_to_move != b0.side_to_move,
        ({
            let p = b0.piece_on_sq[spec_from_sq(m) as int].unwrap();
            if p.spec_piece_type() == PieceType::Pawn || b0.piece_on_sq[spec_to_sq(m) as int] is Some {
                b1.halfmove_clock == 0
            } else {
                b1.halfmove_clock == b0.halfmove_clock + 1
            }
        }),
        b0.side_to_move == Color::Black ==> b1.fullmove_number == b0.fullmove_number + 1,
        b0.side_to_move == Color::White ==> b1.fullmove_number == b0.fullmove_number,
        ({
            let p = b0.piece_on_sq[spec_from_sq(m) as int].unwrap();
            let from = spec_from_sq(m) as int;
            let to = spec_to_sq(m) as int;
            spec_flag(m) == Move::FLAG_DBL_PUSH && p.spec_piece_type() == PieceType::Pawn && (if p.spec_color()
                == Color::White {
                to == from + 16
            } else {
                to == from - 16
            }) ==> b1.en_passant == Some(Square(((from + to) / 2) as u8))
        }),
        spec_flag(m) != Move::FLAG_DBL_PUSH ==> b1.en_passant is None,
        !is_castle_flag(m) && spec_flag(m) != Move::FLAG_EP ==> b1.piece_on_sq[spec_from_sq(m) as int] is None,
        !is_castle_flag(m) && spec_flag(m) != Move::FLAG_EP ==> b1.piece_on_sq[spec_to_sq(m) as int] == ({
            let p = b0.piece_on_sq[spec_from_sq(m) as int].unwrap();
            if spec_is_promotion(m) {
                Some(Piece::spec_new(p.spec_color(), spec_promotion_type(m)))
            } else {
                Some(p)
            }
        }),
        spec_flag(m) == Move::FLAG_EP && 8 <= spec_to_sq(m) < 56 ==> {
            let p = b0.piece_on_sq[spec_from_sq(m) as int].unwrap();
            let to = spec_to_sq(m) as int;
            &&& b1.piece_on_sq[spec_from_sq(m) as int] is None
            &&& b1.piece_on_sq[to] == Some(p)
            &&& b1.piece_on_sq[if p.spec_color() == Color::White { to - 8 } else { to + 8 }] is None
        },
{
    let from = spec_from_sq(m) as int;
    let to = spec_to_sq(m) as int;
    crate::types::lemma_move_squares(m);
    let pos = b0.piece_on_sq@;
    let p = pos[from].unwrap();
    assert(b1.piece_on_sq@ == mailbox_after_move(pos, m));
    assert(b1.piece_on_sq[from] == b1.piece_on_sq@[from]);
    assert(b1.piece_on_sq[to] == b1.piece_on_sq@[to]);
    let p3 = pos.update(from, None).update(to, Some(p));
    assert(p3[from] is None);
    assert(p3[to] == Some(p));
    if spec_flag(m) == Move::FLAG_EP && 8 <= to < 56 {
        let v = ep_victim_square(p.spec_color(), to);
        assert(p3.update(v, None)[from] is None);
        assert(p3.update(v, None)[to] == Some(p));
        assert(p3.update(v, None)[v] is None);
        assert((m & 0xF000u16) == 0x5000u16 ==> (m & 0x8000u16) == 0u16) by (bit_vector);
    }
}

} // verus!
