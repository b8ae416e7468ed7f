use vstd::prelude::*;
use crate::bitboard::{bit_set, lemma_bit_single, lemma_bit_zero, lemma_bits_ext, lemma_lsb, lemma_no_bits_zero, popcount, Bitboard};
use crate::types::Piece;
use crate::board::Board;
use crate::nnue::feature::lemma_xor_square;
use crate::types::{color_from_index, piece_type_from_index, Color, PieceType, Square};

verus! {

pub const PAWN_VALUE: i32 = 100;
pub const KNIGHT_VALUE: i32 = 300;
pub const BISHOP_VALUE: i32 = 320;
pub const ROOK_VALUE: i32 = 500;
pub const QUEEN_VALUE: i32 = 900;
pub const KING_VALUE: i32 = 20000;

/// Material values indexed by piece type.
pub const PIECE_VALUES: [i32; 6] = [100, 300, 320, 500, 900, 20000];

pub open spec fn piece_value(pt: PieceType) -> int {
    PIECE_VALUES[pt.spec_index()] as int
}

/// The material value of a piece type.
pub fn piece_value_of(pt: PieceType) -> (v: i32)
    ensures
        v == piece_value(pt),
        100 <= v <= 20000,
{
    PIECE_VALUES[pt.index()]
}

pub const PST_PAWN: [i32; 64] = [
    0, 0, 0, 0, 0, 0, 0, 0, 50, 50, 50, 50, 50, 50, 50, 50, 10, 10, 20, 30, 30, 20, 10, 10, 5, 5,
    10, 25, 25, 10, 5, 5, 0, 0, 0, 20, 20, 0, 0, 0, 5, -5, -10, 0, 0, -10, -5, 5, 5, 10, 10, -20,
    -20, 10, 10, 5, 0, 0, 0, 0, 0, 0, 0, 0,
];

pub const PST_KNIGHT: [i32; 64] = [
    -50, -40, -30, -30, -30, -30, -40, -50, -40, -20, 0, 0, 0, 0, -20, -40, -30, 0, 10, 15, 15, 10,
    0, -30, -30, 5, 15, 20, 20, 15, 5, -30, -30, 0, 15, 20, 20, 15, 0, -30, -30, 5, 10, 15, 15, 10,
    5, -30, -40, -20, 0, 5, 5, 0, -20, -40, -50, -40, -30, -30, -30, -30, -40, -50,
];

pub const PST_BISHOP: [i32; 64] = [
    -20, -10, -10, -10, -10, -10, -10, -20, -10, 0, 0, 0, 0, 0, 0, -10, -10, 0, 5, 10, 10, 5, 0,
    -10, -10, 5, 5, 10, 10, 5, 5, -10, -10, 0, 10, 10, 10, 10, 0, -10, -10, 10, 10, 10, 10, 10, 10,
    -10, -10, 5, 0, 0, 0, 0, 5, -10, -20, -10, -10, -10, -10, -10, -10, -20,
];

pub const PST_ROOK: [i32; 64] = [
    0, 0, 0, 0, 0, 0, 0, 0, 5, 10, 10, 10, 10, 10, 10, 5, -5, 0, 0, 0, 0, 0, 0, -5, -5, 0, 0, 0, 0,
    0, 0, -5, -5, 0, 0, 0, 0, 0, 0, -5, -5, 0, 0, 0, 0, 0, 0, -5, -5, 0, 0, 0, 0, 0, 0, -5, 0, 0,
    0, 5, 5, 0, 0, 0,
];

pub const PST_QUEEN: [i32; 64] = [
    -20, -10, -10, -5, -5, -10, -10, -20, -10, 0, 0, 0, 0, 0, 0, -10, -10, 0, 5, 5, 5, 5, 0, -10,
    -5, 0, 5, 5, 5, 5, 0, -5, 0, 0, 5, 5, 5, 5, 0, -5, -10, 5, 5, 5, 5, 5, 0, -10, -10, 0, 5, 0, 0,
    0, 0, -10, -20, -10, -10, -5, -5, -10, -10, -20,
];

pub const PST_KING_MG: [i32; 64] = [
    -30, -40, -40, -50, -50, -40, -40, -30, -30, -40, -40, -50, -50, -40, -40, -30, -30, -40, -40,
    -50, -50, -40, -40, -30, -30, -40, -40, -50, -50, -40, -40, -30, -20, -30, -30, -40, -40, -30,
    -30, -20, -10, -20, -20, -20, -20, -20, -20, -10, 20, 20, 0, 0, 0, 0, 20, 20, 20, 30, 10, 0, 0,
    10, 30, 20,
];

/// The table entry of a piece type at table index `s`.
pub open spec fn pst_entry(pt: PieceType, s: int) -> int {
    match pt {
        PieceType::Pawn => PST_PAWN[s] as int,
        PieceType::Knight => PST_KNIGHT[s] as int,
        PieceType::Bishop => PST_BISHOP[s] as int,
        PieceType::Rook => PST_ROOK[s] as int,
        PieceType::Queen => PST_QUEEN[s] as int,
        PieceType::King => PST_KING_MG[s] as int,
    }
}

/// The piece-square bonus of a piece on `sq`; Black reads the table rank-flipped.
pub open spec fn pst(pt: PieceType, sq: int, color: Color) -> int {
    if color == Color::Black {
        pst_entry(pt, (sq as u8 ^ 56u8) as int)
    } else {
        pst_entry(pt, sq)
    }
}

proof fn lemma_pst_bounds(pt: PieceType, s: int)
    requires
        0 <= s < 64,
    ensures
        -50 <= pst_entry(pt, s) <= 50,
{
}

fn get_pst_score(pt: PieceType, sq: Square, color: Color) -> (v: i32)
    requires
        sq.0 < 64,
    ensures
        v == pst(pt, sq.0 as int, color),
        -50 <= v <= 50,
{
    let mut s = sq.0 as usize;
    if color == Color::Black {
        s = (sq.0 ^ 56u8) as usize;
        proof {
            lemma_xor_square(sq.0);
        }
    }
    proof {
        lemma_pst_bounds(pt, s as int);
    }
    match pt {
        PieceType::Pawn => PST_PAWN[s],
        PieceType::Knight => PST_KNIGHT[s],
        PieceType::Bishop => PST_BISHOP[s],
        PieceType::Rook => PST_ROOK[s],
        PieceType::Queen => PST_QUEEN[s],
        PieceType::King => PST_KING_MG[s],
    }
}

/// Material plus piece-square bonus of pieces of `color` and type `pt` on the
/// set squares of `bb` below `n`.
pub open spec fn bb_score(bb: u64, pt: PieceType, color: Color, n: nat) -> int
    decreases n,
{
    if n == 0 {
        0
    } else {
        bb_score(bb, pt, color, (n - 1) as nat) + (if bit_set(bb, n - 1) {
            piece_value(pt) + pst(pt, n - 1, color)
        } else {
            0
        })
    }
}

proof fn lemma_bb_score_bound(bb: u64, pt: PieceType, color: Color, n: nat)
    requires
        n <= 64,
    ensures
        -(n * 20050) <= bb_score(bb, pt, color, n) <= n * 20050,
    decreases n,
{
    if n > 0 {
        lemma_bb_score_bound(bb, pt, color, (n - 1) as nat);
        if color == Color::Black {
            let x = (n - 1) as u8;
            lemma_xor_square(x);
            lemma_pst_bounds(pt, (x ^ 56u8) as int);
        } else {
            lemma_pst_bounds(pt, n - 1);
        }
    }
}

proof fn lemma_bb_score_toggle(a: u64, b: u64, pt: PieceType, color: Color, sq: int, n: nat)
    requires
        0 <= sq < 64,
        forall|s: int| s != sq ==> bit_set(a, s) == bit_set(b, s),
        !bit_set(a, sq),
        bit_set(b, sq),
    ensures
        bb_score(b, pt, color, n) == bb_score(a, pt, color, n) + (if sq < n {
            piece_value(pt) + pst(pt, sq, color)
        } else {
            0
        }),
    decreases n,
{
    if n > 0 {
        lemma_bb_score_toggle(a, b, pt, color, sq, (n - 1) as nat);
    }
}

proof fn lemma_bb_score_zero(pt: PieceType, color: Color, n: nat)
    ensures
        bb_score(0, pt, color, n) == 0,
    decreases n,
{
    if n > 0 {
        crate::bitboard::lemma_bit_zero(n - 1);
        lemma_bb_score_zero(pt, color, (n - 1) as nat);
    }
}

/// Score of group `g`: pieces of type `g / 2` and color `g % 2`, counted
/// positively for White and negatively for Black.
pub open spec fn group_score(pieces: [Bitboard; 6], colors: [Bitboard; 2], g: int) -> int {
    let s = bb_score(
        pieces[g / 2].0 & colors[g % 2].0,
        piece_type_from_index(g / 2),
        color_from_index(g % 2),
        64,
    );
    if g % 2 == 0 {
        s
    } else {
        -s
    }
}

pub open spec fn groups_score(pieces: [Bitboard; 6], colors: [Bitboard; 2], n: nat) -> int
    decreases n,
{
    if n == 0 {
        0
    } else {
        groups_score(pieces, colors, (n - 1) as nat) + group_score(pieces, colors, n - 1)
    }
}

proof fn lemma_groups_score_bound(pieces: [Bitboard; 6], colors: [Bitboard; 2], n: nat)
    requires
        n <= 12,
    ensures
        -(n * 1283200) <= groups_score(pieces, colors, n) <= n * 1283200,
    decreases n,
{
    if n > 0 {
        lemma_groups_score_bound(pieces, colors, (n - 1) as nat);
        let g = n - 1;
        lemma_bb_score_bound(pieces[g / 2].0 & colors[g % 2].0, piece_type_from_index(g / 2), color_from_index(g % 2), 64);
    }
}

/// White's material and piece-square score minus Black's.
pub open spec fn material_pst_score(b: &Board) -> int {
    groups_score(b.pieces, b.colors, 12)
}

/// The material and piece-square score from the side to move's point of view.
pub open spec fn side_score(b: &Board) -> int {
    if b.side_to_move == Color::Black {
        -material_pst_score(b)
    } else {
        material_pst_score(b)
    }
}

/// Handing the move to the other side, pieces unchanged, negates the score.
pub proof fn lemma_side_score_flip(a: &Board, b: &Board)
    requires
        a.pieces == b.pieces,
        a.colors == b.colors,
        b.side_to_move == a.side_to_move.spec_flip(),
    ensures
        side_score(b) == -side_score(a),
{
}

/// Material and piece-square evaluation from the side to move's point of view.
pub fn evaluate(board: &Board) -> (v: i32)
    ensures
        v == side_score(board),
{
    let mut score: i32 = 0;
    let mut pt: usize = 0;
    while pt < 6
        invariant
            pt <= 6,
            score == groups_score(board.pieces, board.colors, (2 * pt) as nat),
        decreases 6 - pt,
    {
        let piece_type = crate::types::piece_type_of_index(pt);
        proof {
            lemma_groups_score_bound(board.pieces, board.colors, (2 * pt) as nat);
        }
        let ghost g0 = (2 * pt) as int;
        let mut white_bb = board.color_piece_bb(Color::White, piece_type);
        let ghost start = score;
        proof {
            assert(g0 / 2 == pt && g0 % 2 == 0);
            lemma_bb_score_bound(white_bb.0, piece_type, Color::White, 64);
        }
        while white_bb.is_not_empty()
            invariant
                pt < 6,
                piece_type.spec_index() == pt,
                -(12 * 1283200) <= start <= 12 * 1283200,
                -(64 * 20050) <= bb_score(board.pieces[pt as int].0 & board.colors[0].0, piece_type, Color::White, 64) <= 64 * 20050,
                score + bb_score(white_bb.0, piece_type, Color::White, 64) == start + bb_score(
                    board.pieces[pt as int].0 & board.colors[0].0, piece_type, Color::White, 64),
            decreases white_bb.0,
        {
            let ghost before = white_bb.0;
            let sq = Square::new(white_bb.pop_lsb());
            proof {
                lemma_bb_score_toggle(white_bb.0, before, piece_type, Color::White, sq.0 as int, 64);
                lemma_bb_score_bound(white_bb.0, piece_type, Color::White, 64);
                lemma_bb_score_bound(before, piece_type, Color::White, 64);
            }
            score = score + piece_value_of(piece_type);
            score = score + get_pst_score(piece_type, sq, Color::White);
        }
        proof {
            lemma_bb_score_zero(piece_type, Color::White, 64);
            assert(groups_score(board.pieces, board.colors, (g0 + 1) as nat) == start + group_score(board.pieces, board.colors, g0));
            lemma_groups_score_bound(board.pieces, board.colors, (g0 + 1) as nat);
        }
        let mut black_bb = board.color_piece_bb(Color::Black, piece_type);
        let ghost start2 = score;
        proof {
            assert((g0 + 1) / 2 == pt && (g0 + 1) % 2 == 1);
            lemma_bb_score_bound(black_bb.0, piece_type, Color::Black, 64);
        }
        while black_bb.is_not_empty()
            invariant
                pt < 6,
                piece_type.spec_index() == pt,
                -(12 * 1283200) <= start2 <= 12 * 1283200,
                -(64 * 20050) <= bb_score(board.pieces[pt as int].0 & board.colors[1].0, piece_type, Color::Black, 64) <= 64 * 20050,
                score - bb_score(black_bb.0, piece_type, Color::Black, 64) == start2 - bb_score(
                    board.pieces[pt as int].0 & board.colors[1].0, piece_type, Color::Black, 64),
            decreases black_bb.0,
        {
            let ghost before = black_bb.0;
            let sq = Square::new(black_bb.pop_lsb());
            proof {
                lemma_bb_score_toggle(black_bb.0, before, piece_type, Color::Black, sq.0 as int, 64);
                lemma_bb_score_bound(black_bb.0, piece_type, Color::Black, 64);
                lemma_bb_score_bound(before, piece_type, Color::Black, 64);
            }
            score = score - piece_value_of(piece_type);
            score = score - get_pst_score(piece_type, sq, Color::Black);
        }
        proof {
            lemma_bb_score_zero(piece_type, Color::Black, 64);
            assert(groups_score(board.pieces, board.colors, (g0 + 2) as nat) == start2 + group_score(board.pieces, board.colors, g0 + 1));
        }
        pt += 1;
    }
    proof {
        lemma_groups_score_bound(board.pieces, board.colors, 12);
    }
    if board.side_to_move == Color::Black {
        -score
    } else {
        score
    }
}


/// Division by two rounding toward zero, as integer division does.
pub open spec fn half_toward_zero(x: int) -> int {
    if x >= 0 {
        x / 2
    } else {
        -((-x) / 2)
    }
}

/// Color of a square: (rank + file) mod 2.
pub open spec fn square_shade(s: int) -> int {
    (s / 8 + s % 8) % 2
}

/// Non-pawn material that cannot mate a lone king: none, one knight, one
/// bishop or two knights.
pub open spec fn cannot_mate(np: int) -> bool {
    np == 0 || np == 300 || np == 320 || np == 600
}

/// The endgame correction of a raw evaluation: with no pawns, a lone king
/// against a king, a king and knight, a king and bishop or a king and two
/// knights is an exact draw; pawn endings push an already good score by
/// 200; bishops of opposite colors halve it; with no pawns at all and less
/// than a knight and a pawn of material per side the game is a draw; a side
/// without pawns and with less than a rook's worth of pieces has its winning
/// score halved.
pub open spec fn endgame_value(board: &Board, raw_eval: int) -> int {
    let w_np = board.spec_non_pawn_material(Color::White);
    let b_np = board.spec_non_pawn_material(Color::Black);
    let w_pawns = popcount(board.color_piece_bb_spec(Color::White, PieceType::Pawn));
    let b_pawns = popcount(board.color_piece_bb_spec(Color::Black, PieceType::Pawn));
    let wb = vstd::std_specs::bits::u64_trailing_zeros(board.color_piece_bb_spec(Color::White, PieceType::Bishop)) as int;
    let bb = vstd::std_specs::bits::u64_trailing_zeros(board.color_piece_bb_spec(Color::Black, PieceType::Bishop)) as int;
    if w_pawns == 0 && b_pawns == 0 && ((w_np == 0 && cannot_mate(b_np)) || (b_np == 0 && cannot_mate(w_np))) {
        0
    } else if w_np == 0 && b_np == 0 && raw_eval > 0 {
        raw_eval + 200
    } else if w_np == 320 && b_np == 320 && square_shade(wb) != square_shade(bb) {
        half_toward_zero(raw_eval)
    } else if w_pawns == 0 && b_pawns == 0 {
        if w_np < 400 && b_np < 400 {
            0
        } else {
            raw_eval
        }
    } else if w_pawns == 0 && raw_eval > 50 {
        if w_np < 500 {
            half_toward_zero(raw_eval)
        } else {
            raw_eval
        }
    } else if b_pawns == 0 && raw_eval < -50 {
        if b_np < 500 {
            half_toward_zero(raw_eval)
        } else {
            raw_eval
        }
    } else {
        raw_eval
    }
}

/// Scale or replace the network's evaluation in endgames it knows badly.
pub fn endgame_evaluate(board: &Board, raw_eval: i32) -> (v: i32)
    requires
        board.pos_ok(),
        board.spec_non_pawn_material(Color::White) == 0 && board.spec_non_pawn_material(Color::Black) == 0
            ==> raw_eval <= i32::MAX - 200,
    ensures
        v == endgame_value(board, raw_eval as int),
{
    let w_non_pawn = board.non_pawn_material(Color::White);
    let b_non_pawn = board.non_pawn_material(Color::Black);
    let w_pawns = board.color_piece_bb(Color::White, PieceType::Pawn).count();
    let b_pawns = board.color_piece_bb(Color::Black, PieceType::Pawn).count();
    if w_pawns == 0 && b_pawns == 0 {
        let w_lone = w_non_pawn == 0 && (b_non_pawn == 0 || b_non_pawn == 300 || b_non_pawn == 320 || b_non_pawn == 600);
        let b_lone = b_non_pawn == 0 && (w_non_pawn == 0 || w_non_pawn == 300 || w_non_pawn == 320 || w_non_pawn == 600);
        if w_lone || b_lone {
            return 0;
        }
    }
    if w_non_pawn == 0 && b_non_pawn == 0 {
        if raw_eval > 0 {
            return raw_eval + 200;
        }
    }
    if w_non_pawn == BISHOP_VALUE && b_non_pawn == BISHOP_VALUE {
        let wbb = board.color_piece_bb(Color::White, PieceType::Bishop);
        let bbb = board.color_piece_bb(Color::Black, PieceType::Bishop);
        proof {
            lemma_some_bishop(board, Color::White);
            lemma_some_bishop(board, Color::Black);
        }
        let w_b_sq = Square::new(wbb.lsb());
        let b_b_sq = Square::new(bbb.lsb());
        let w_color = (w_b_sq.rank() + w_b_sq.file()) % 2;
        let b_color = (b_b_sq.rank() + b_b_sq.file()) % 2;
        if w_color != b_color {
            return raw_eval / 2;
        }
    }
    if w_pawns == 0 && b_pawns == 0 {
        let w_mat = w_non_pawn;
        let b_mat = b_non_pawn;
        if w_mat < KNIGHT_VALUE + 100 && b_mat < KNIGHT_VALUE + 100 {
            return 0;
        }
    } else if w_pawns == 0 && raw_eval > 50 {
        if w_non_pawn < ROOK_VALUE {
            return raw_eval / 2;
        }
    } else if b_pawns == 0 && raw_eval < -50 {
        if b_non_pawn < ROOK_VALUE {
            return raw_eval / 2;
        }
    }
    raw_eval
}

/// Non-pawn material of exactly a bishop's value means a bishop is on the board.
proof fn lemma_some_bishop(board: &Board, c: Color)
    requires
        board.spec_non_pawn_material(c) == 320,
    ensures
        board.color_piece_bb_spec(c, PieceType::Bishop) != 0,
{
    if board.color_piece_bb_spec(c, PieceType::Bishop) == 0 {
        assert(popcount(0u64) == 0);
        let n = popcount(board.color_piece_bb_spec(c, PieceType::Knight)) as int;
        let r = popcount(board.color_piece_bb_spec(c, PieceType::Rook)) as int;
        let q = popcount(board.color_piece_bb_spec(c, PieceType::Queen)) as int;
        assert(300 * n + 500 * r + 900 * q != 320) by (nonlinear_arith)
            requires
                n >= 0,
                r >= 0,
                q >= 0,
        ;
    }
}

/// A word with the single bit `k` set counts one bit.
proof fn lemma_popcount_single(k: u64)
    requires
        k < 64,
    ensures
        popcount(1u64 << k) == 1,
    decreases k,
{
    if k == 0 {
        assert(1u64 << 0u64 == 1u64) by (bit_vector);
        assert(popcount(0u64) == 0);
    } else {
        let km = (k - 1) as u64;
        assert((1u64 << k) / 2 == 1u64 << km && (1u64 << k) % 2 == 0 && (1u64 << k) != 0) by (bit_vector)
            requires
                0 < k < 64,
                km == k - 1,
        ;
        lemma_popcount_single(km);
    }
}

/// A color that has exactly one piece of type `pt`, on `s`: its bitboard
/// counts one piece, and its lowest square is `s`.
proof fn lemma_single_piece(board: &Board, c: Color, pt: PieceType, s: int)
    requires
        board.pos_ok(),
        0 <= s < 64,
        forall|t: int| 0 <= t < 64 ==> (#[trigger] board.piece_on_sq[t] == Some(Piece::spec_new(c, pt))) == (t == s),
    ensures
        popcount(board.color_piece_bb_spec(c, pt)) == 1,
        vstd::std_specs::bits::u64_trailing_zeros(board.color_piece_bb_spec(c, pt)) == s,
{
    let w = board.color_piece_bb_spec(c, pt);
    board.lemma_color_piece_bits(c, pt);
    assert forall|t: int| 0 <= t < 64 implies bit_set(w, t) == bit_set(1u64 << (s as u64), t) by {
        lemma_bit_single(s as u64, t);
        assert(board.piece_on_sq[t] == Some(Piece::spec_new(c, pt)) <==> t == s);
    }
    lemma_bits_ext(w, 1u64 << (s as u64));
    lemma_popcount_single(s as u64);
    assert(bit_set(w, s));
    lemma_lsb(w);
    let tz = vstd::std_specs::bits::u64_trailing_zeros(w) as int;
    assert(bit_set(w, tz));
    assert(board.piece_on_sq[tz] == Some(Piece::spec_new(c, pt)));
}

/// A color with no piece of type `pt` has an empty bitboard of that type.
proof fn lemma_no_piece(board: &Board, c: Color, pt: PieceType)
    requires
        board.pos_ok(),
        forall|t: int| 0 <= t < 64 ==> #[trigger] board.piece_on_sq[t] != Some(Piece::spec_new(c, pt)),
    ensures
        popcount(board.color_piece_bb_spec(c, pt)) == 0,
{
    board.lemma_color_piece_bits(c, pt);
    let w = board.color_piece_bb_spec(c, pt);
    assert forall|t: int| 0 <= t < 64 implies !bit_set(w, t) by {
        assert(board.piece_on_sq[t] != Some(Piece::spec_new(c, pt)));
    }
    lemma_no_bits_zero(w);
    assert(popcount(0u64) == 0);
}

/// Bishops of opposite colors: when each side has, besides its king and
/// pawns, exactly one bishop, and the two bishops stand on squares of
/// different shade, the endgame correction halves the raw evaluation,
/// rounding toward zero.
pub proof fn lemma_opposite_bishops_halve(board: &Board, raw: int, ws: int, bs: int)
    requires
        board.pos_ok(),
        0 <= ws < 64,
        0 <= bs < 64,
        (ws / 8 + ws % 8) % 2 != (bs / 8 + bs % 8) % 2,
        forall|t: int|
            0 <= t < 64 ==> (#[trigger] board.piece_on_sq[t] == Some(Piece::spec_new(Color::White, PieceType::Bishop)))
                == (t == ws),
        forall|t: int|
            0 <= t < 64 ==> (#[trigger] board.piece_on_sq[t] == Some(Piece::spec_new(Color::Black, PieceType::Bishop)))
                == (t == bs),
        forall|t: int|
            0 <= t < 64 && #[trigger] board.piece_on_sq[t] is Some ==> {
                let k = board.piece_on_sq[t].unwrap().spec_piece_type();
                k == PieceType::King || k == PieceType::Pawn || k == PieceType::Bishop
            },
    ensures
        endgame_value(board, raw) == (if raw >= 0 { raw / 2 } else { -((-raw) / 2) }),
{
    lemma_single_piece(board, Color::White, PieceType::Bishop, ws);
    lemma_single_piece(board, Color::Black, PieceType::Bishop, bs);
    assert forall|c: Color, pt: PieceType|
        pt == PieceType::Knight || pt == PieceType::Rook || pt == PieceType::Queen implies #[trigger] Piece::spec_new(c, pt).spec_piece_type()
            == pt by {}
    assert forall|t: int, c: Color, pt: PieceType|
        0 <= t < 64 && (pt == PieceType::Knight || pt == PieceType::Rook || pt == PieceType::Queen) implies #[trigger] board.piece_on_sq[t]
            != Some(#[trigger] Piece::spec_new(c, pt)) by {
        if board.piece_on_sq[t] == Some(Piece::spec_new(c, pt)) {
            assert(board.piece_on_sq[t] is Some);
            assert(Piece::spec_new(c, pt).spec_piece_type() == pt);
        }
    }
    lemma_no_piece(board, Color::White, PieceType::Knight);
    lemma_no_piece(board, Color::White, PieceType::Rook);
    lemma_no_piece(board, Color::White, PieceType::Queen);
    lemma_no_piece(board, Color::Black, PieceType::Knight);
    lemma_no_piece(board, Color::Black, PieceType::Rook);
    lemma_no_piece(board, Color::Black, PieceType::Queen);
    assert(board.spec_non_pawn_material(Color::White) == 320);
    assert(board.spec_non_pawn_material(Color::Black) == 320);
}

/// A word that counts no bits is zero.
proof fn lemma_popcount_zero(x: u64)
    ensures
        popcount(x) == 0 ==> x == 0,
    decreases x,
{
    if x != 0 {
        lemma_popcount_zero(x / 2);
    }
}

/// A board with only kings and pawns has no non-pawn material on either
/// side.
proof fn lemma_no_officers(board: &Board)
    requires
        board.pos_ok(),
        forall|t: int|
            0 <= t < 64 && #[trigger] board.piece_on_sq[t] is Some ==> {
                let k = board.piece_on_sq[t].unwrap().spec_piece_type();
                k == PieceType::King || k == PieceType::Pawn
            },
    ensures
        board.spec_non_pawn_material(Color::White) == 0,
        board.spec_non_pawn_material(Color::Black) == 0,
{
    assert forall|c: Color, pt: PieceType|
        pt == PieceType::Knight || pt == PieceType::Bishop || pt == PieceType::Rook || pt == PieceType::Queen implies #[trigger] Piece::spec_new(
            c,
            pt,
        ).spec_piece_type() == pt by {}
    assert forall|t: int, c: Color, pt: PieceType|
        0 <= t < 64 && (pt == PieceType::Knight || pt == PieceType::Bishop || pt == PieceType::Rook || pt
            == PieceType::Queen) implies #[trigger] board.piece_on_sq[t] != Some(#[trigger] Piece::spec_new(c, pt)) by {
        if board.piece_on_sq[t] == Some(Piece::spec_new(c, pt)) {
            assert(board.piece_on_sq[t] is Some);
            assert(Piece::spec_new(c, pt).spec_piece_type() == pt);
        }
    }
    lemma_no_piece(board, Color::White, PieceType::Knight);
    lemma_no_piece(board, Color::White, PieceType::Bishop);
    lemma_no_piece(board, Color::White, PieceType::Rook);
    lemma_no_piece(board, Color::White, PieceType::Queen);
    lemma_no_piece(board, Color::Black, PieceType::Knight);
    lemma_no_piece(board, Color::Black, PieceType::Bishop);
    lemma_no_piece(board, Color::Black, PieceType::Rook);
    lemma_no_piece(board, Color::Black, PieceType::Queen);
}

/// Pawn endings: with only kings and pawns on the board, and a pawn among
/// them, an evaluation the network already finds good is pushed up by 200.
pub proof fn lemma_pawn_ending_push(board: &Board, raw: int, ps: int)
    requires
        board.pos_ok(),
        0 <= ps < 64,
        board.piece_on_sq[ps] matches Some(p) && p.spec_piece_type() == PieceType::Pawn,
        forall|t: int|
            0 <= t < 64 && #[trigger] board.piece_on_sq[t] is Some ==> {
                let k = board.piece_on_sq[t].unwrap().spec_piece_type();
                k == PieceType::King || k == PieceType::Pawn
            },
        raw > 0,
    ensures
        endgame_value(board, raw) == raw + 200,
{
    lemma_no_officers(board);
    let p = board.piece_on_sq[ps].unwrap();
    let c = p.spec_color();
    crate::types::lemma_piece_roundtrip(p);
    board.lemma_color_piece_bits(c, PieceType::Pawn);
    let w = board.color_piece_bb_spec(c, PieceType::Pawn);
    assert(bit_set(w, ps));
    lemma_bit_zero(ps);
    lemma_popcount_zero(w);
    assert(popcount(w) != 0);
}

/// A side whose pieces are its king and at most one knight or bishop, on
/// `sq`: it has no pawns, and its non-pawn material is that of the minor
/// piece, if any; a bishop there is the side's lowest bishop.
proof fn lemma_one_minor(board: &Board, c: Color, sq: int)
    requires
        board.pos_ok(),
        0 <= sq < 64,
        forall|t: int|
            0 <= t < 64 && #[trigger] board.piece_on_sq[t] is Some && board.piece_on_sq[t].unwrap().spec_color() == c ==> {
                let k = board.piece_on_sq[t].unwrap().spec_piece_type();
                k == PieceType::King || (t == sq && (k == PieceType::Knight || k == PieceType::Bishop))
            },
    ensures
        popcount(board.color_piece_bb_spec(c, PieceType::Pawn)) == 0,
        board.piece_on_sq[sq] == Some(Piece::spec_new(c, PieceType::Knight)) ==> board.spec_non_pawn_material(c) == 300,
        board.piece_on_sq[sq] == Some(Piece::spec_new(c, PieceType::Bishop)) ==> board.spec_non_pawn_material(c) == 320
            && vstd::std_specs::bits::u64_trailing_zeros(board.color_piece_bb_spec(c, PieceType::Bishop)) == sq,
        board.piece_on_sq[sq] != Some(Piece::spec_new(c, PieceType::Knight)) && board.piece_on_sq[sq] != Some(
            Piece::spec_new(c, PieceType::Bishop),
        ) ==> board.spec_non_pawn_material(c) == 0,
{
    assert forall|pt: PieceType| #[trigger] Piece::spec_new(c, pt).spec_piece_type() == pt && Piece::spec_new(
        c,
        pt,
    ).spec_color() == c by {}
    assert forall|t: int, pt: PieceType|
        0 <= t < 64 && (pt == PieceType::Pawn || pt == PieceType::Rook || pt == PieceType::Queen) implies #[trigger] board.piece_on_sq[t]
            != Some(#[trigger] Piece::spec_new(c, pt)) by {
        if board.piece_on_sq[t] == Some(Piece::spec_new(c, pt)) {
            assert(board.piece_on_sq[t] is Some);
            assert(Piece::spec_new(c, pt).spec_piece_type() == pt);
        }
    }
    lemma_no_piece(board, c, PieceType::Pawn);
    lemma_no_piece(board, c, PieceType::Rook);
    lemma_no_piece(board, c, PieceType::Queen);
    assert forall|t: int, pt: PieceType|
        0 <= t < 64 && t != sq && (pt == PieceType::Knight || pt == PieceType::Bishop) implies #[trigger] board.piece_on_sq[t]
            != Some(#[trigger] Piece::spec_new(c, pt)) by {
        if board.piece_on_sq[t] == Some(Piece::spec_new(c, pt)) {
            assert(board.piece_on_sq[t] is Some);
            assert(Piece::spec_new(c, pt).spec_piece_type() == pt);
        }
    }
    if board.piece_on_sq[sq] == Some(Piece::spec_new(c, PieceType::Knight)) {
        lemma_single_piece(board, c, PieceType::Knight, sq);
        lemma_no_piece(board, c, PieceType::Bishop);
    } else if board.piece_on_sq[sq] == Some(Piece::spec_new(c, PieceType::Bishop)) {
        lemma_single_piece(board, c, PieceType::Bishop, sq);
        lemma_no_piece(board, c, PieceType::Knight);
    } else {
        lemma_no_piece(board, c, PieceType::Knight);
        lemma_no_piece(board, c, PieceType::Bishop);
    }
}

/// Too little to mate: with no pawns, and besides the kings at most one
/// knight or bishop per side (White's on `ws`, Black's on `bs`), the
/// position is scored an exact draw, whatever the raw evaluation; the one
/// exception is a bishop each on squares of different shade, which the
/// opposite-bishops rule halves instead.
pub proof fn lemma_minor_pieces_draw(board: &Board, raw: int, ws: int, bs: int)
    requires
        board.pos_ok(),
        0 <= ws < 64,
        0 <= bs < 64,
        forall|t: int|
            0 <= t < 64 && #[trigger] board.piece_on_sq[t] is Some ==> {
                let p = board.piece_on_sq[t].unwrap();
                let k = p.spec_piece_type();
                ||| k == PieceType::King
                ||| t == ws && p.spec_color() == Color::White && (k == PieceType::Knight || k == PieceType::Bishop)
                ||| t == bs && p.spec_color() == Color::Black && (k == PieceType::Knight || k == PieceType::Bishop)
            },
        !(board.piece_on_sq[ws] == Some(Piece::spec_new(Color::White, PieceType::Bishop)) && board.piece_on_sq[bs]
            == Some(Piece::spec_new(Color::Black, PieceType::Bishop)) && (ws / 8 + ws % 8) % 2 != (bs / 8 + bs % 8) % 2),
    ensures
        endgame_value(board, raw) == 0,
{
    lemma_one_minor(board, Color::White, ws);
    lemma_one_minor(board, Color::Black, bs);
}

} // verus!
