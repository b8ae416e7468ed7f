use vstd::prelude::*;
use crate::bitboard::{bit_set, lemma_bit_and, lemma_bit_or, lemma_bit_single, lemma_bit_zero, lemma_bits_ext, lemma_zero_iff_no_bits, Bitboard, FILE_A, FILE_H};
use crate::types::{Color, PieceType, Square};

verus! {

pub open spec fn rank_of(s: int) -> int {
    s / 8
}

pub open spec fn file_of(s: int) -> int {
    s % 8
}

pub open spec fn absdiff(a: int, b: int) -> int {
    if a >= b {
        a - b
    } else {
        b - a
    }
}

/// `t` is a knight's jump away from `s`.
pub open spec fn knight_jump(s: int, t: int) -> bool {
    let dr = absdiff(rank_of(s), rank_of(t));
    let df = absdiff(file_of(s), file_of(t));
    0 <= s < 64 && 0 <= t < 64 && ((dr == 1 && df == 2) || (dr == 2 && df == 1))
}

/// `t` is one king step away from `s`.
pub open spec fn king_step(s: int, t: int) -> bool {
    let dr = absdiff(rank_of(s), rank_of(t));
    let df = absdiff(file_of(s), file_of(t));
    0 <= s < 64 && 0 <= t < 64 && dr <= 1 && df <= 1 && s != t
}

/// `t` is diagonally one rank ahead of `s`, seen from `color`'s side.
pub open spec fn pawn_capture_target(color: Color, s: int, t: int) -> bool {
    let forward = match color {
        Color::White => rank_of(t) == rank_of(s) + 1,
        Color::Black => rank_of(t) == rank_of(s) - 1,
    };
    0 <= s < 64 && 0 <= t < 64 && forward && absdiff(file_of(s), file_of(t)) == 1
}

spec fn knight_bits(sq: u64) -> u64 {
    let bb = 1u64 << sq;
    ((bb << 17u64) & !0x0101010101010101u64) | ((bb << 15u64) & !0x8080808080808080u64) | ((bb
        << 10u64) & !0x0303030303030303u64) | ((bb << 6u64) & !0xC0C0C0C0C0C0C0C0u64) | ((bb
        >> 15u64) & !0x0101010101010101u64) | ((bb >> 17u64) & !0x8080808080808080u64) | ((bb
        >> 6u64) & !0x0303030303030303u64) | ((bb >> 10u64) & !0xC0C0C0C0C0C0C0C0u64)
}

spec fn king_bits(sq: u64) -> u64 {
    let bb = 1u64 << sq;
    (bb << 8u64) | (bb >> 8u64) | ((bb << 1u64) & !0x0101010101010101u64) | ((bb >> 1u64)
        & !0x8080808080808080u64) | ((bb << 9u64) & !0x0101010101010101u64) | ((bb << 7u64)
        & !0x8080808080808080u64) | ((bb >> 7u64) & !0x0101010101010101u64) | ((bb >> 9u64)
        & !0x8080808080808080u64)
}

spec fn white_pawn_bits(sq: u64) -> u64 {
    let bb = 1u64 << sq;
    ((bb << 7u64) & !0x8080808080808080u64) | ((bb << 9u64) & !0x0101010101010101u64)
}

spec fn black_pawn_bits(sq: u64) -> u64 {
    let bb = 1u64 << sq;
    ((bb >> 9u64) & !0x8080808080808080u64) | ((bb >> 7u64) & !0x0101010101010101u64)
}

proof fn lemma_knight_bits(sq: u64)
    requires
        sq < 64,
    ensures
        forall|t: int| bit_set(knight_bits(sq), t) == knight_jump(sq as int, t),
{
    assert forall|t: int| bit_set(knight_bits(sq), t) == knight_jump(sq as int, t) by {
        if 0 <= t < 64 {
            let u = t as u64;
            assert(((knight_bits(sq) >> u) & 1 == 1) == (
                (u / 8 == sq / 8 + 2 && u % 8 == sq % 8 + 1) || (u / 8 == sq / 8 + 2 && sq % 8 == u % 8 + 1)
                || (sq / 8 == u / 8 + 2 && u % 8 == sq % 8 + 1) || (sq / 8 == u / 8 + 2 && sq % 8 == u % 8 + 1)
                || (u / 8 == sq / 8 + 1 && u % 8 == sq % 8 + 2) || (u / 8 == sq / 8 + 1 && sq % 8 == u % 8 + 2)
                || (sq / 8 == u / 8 + 1 && u % 8 == sq % 8 + 2) || (sq / 8 == u / 8 + 1 && sq % 8 == u % 8 + 2)))
                by (bit_vector)
                requires
                    sq < 64,
                    u < 64,
            ;
        }
    }
}

proof fn lemma_king_bits(sq: u64)
    requires
        sq < 64,
    ensures
        forall|t: int| bit_set(king_bits(sq), t) == king_step(sq as int, t),
{
    assert forall|t: int| bit_set(king_bits(sq), t) == king_step(sq as int, t) by {
        if 0 <= t < 64 {
            let u = t as u64;
            assert(((king_bits(sq) >> u) & 1 == 1) == (u != sq
                && (u / 8 == sq / 8 || u / 8 == sq / 8 + 1 || sq / 8 == u / 8 + 1)
                && (u % 8 == sq % 8 || u % 8 == sq % 8 + 1 || sq % 8 == u % 8 + 1)))
                by (bit_vector)
                requires
                    sq < 64,
                    u < 64,
            ;
        }
    }
}

proof fn lemma_pawn_bits(sq: u64)
    requires
        sq < 64,
    ensures
        forall|t: int| bit_set(white_pawn_bits(sq), t) == pawn_capture_target(Color::White, sq as int, t),
        forall|t: int| bit_set(black_pawn_bits(sq), t) == pawn_capture_target(Color::Black, sq as int, t),
{
    assert forall|t: int| bit_set(white_pawn_bits(sq), t) == pawn_capture_target(Color::White, sq as int, t) by {
        if 0 <= t < 64 {
            let u = t as u64;
            assert(((white_pawn_bits(sq) >> u) & 1 == 1) == (u / 8 == sq / 8 + 1
                && (u % 8 == sq % 8 + 1 || sq % 8 == u % 8 + 1)))
                by (bit_vector)
                requires
                    sq < 64,
                    u < 64,
            ;
        }
    }
    assert forall|t: int| bit_set(black_pawn_bits(sq), t) == pawn_capture_target(Color::Black, sq as int, t) by {
        if 0 <= t < 64 {
            let u = t as u64;
            assert(((black_pawn_bits(sq) >> u) & 1 == 1) == (sq / 8 == u / 8 + 1
                && (u % 8 == sq % 8 + 1 || sq % 8 == u % 8 + 1)))
                by (bit_vector)
                requires
                    sq < 64,
                    u < 64,
            ;
        }
    }
}

fn knight_bits_exec(sq: u8) -> (n: u64)
    requires
        sq < 64,
    ensures
        n == knight_bits(sq as u64),
{
    let bb: u64 = 1u64 << sq;
    let mut n: u64 = 0;
    n = n | ((bb << 17u64) & !FILE_A);
    n = n | ((bb << 15u64) & !FILE_H);
    n = n | ((bb << 10u64) & !(FILE_A | (FILE_A << 1u64)));
    n = n | ((bb << 6u64) & !(FILE_H | (FILE_H >> 1u64)));
    n = n | ((bb >> 15u64) & !FILE_A);
    n = n | ((bb >> 17u64) & !FILE_H);
    n = n | ((bb >> 6u64) & !(FILE_A | (FILE_A << 1u64)));
    n = n | ((bb >> 10u64) & !(FILE_H | (FILE_H >> 1u64)));
    proof {
        let s = sq as u64;
        assert(n == knight_bits(s)) by (bit_vector)
            requires
                n == (((((((0u64 | (((1u64 << s) << 17u64) & !0x0101010101010101u64)) | (((1u64 << s) << 15u64)
                    & !0x8080808080808080u64)) | (((1u64 << s) << 10u64) & !(0x0101010101010101u64 | (
                0x0101010101010101u64 << 1u64)))) | (((1u64 << s) << 6u64) & !(0x8080808080808080u64 | (
                0x8080808080808080u64 >> 1u64)))) | (((1u64 << s) >> 15u64) & !0x0101010101010101u64)) | (((1u64
                << s) >> 17u64) & !0x8080808080808080u64)) | (((1u64 << s) >> 6u64) & !(0x0101010101010101u64 | (
                0x0101010101010101u64 << 1u64)))) | (((1u64 << s) >> 10u64) & !(0x8080808080808080u64 | (
                0x8080808080808080u64 >> 1u64))),
        ;
    }
    n
}

fn king_bits_exec(sq: u8) -> (k: u64)
    requires
        sq < 64,
    ensures
        k == king_bits(sq as u64),
{
    let bb: u64 = 1u64 << sq;
    let mut k: u64 = 0;
    k = k | (bb << 8u64);
    k = k | (bb >> 8u64);
    k = k | ((bb << 1u64) & !FILE_A);
    k = k | ((bb >> 1u64) & !FILE_H);
    k = k | ((bb << 9u64) & !FILE_A);
    k = k | ((bb << 7u64) & !FILE_H);
    k = k | ((bb >> 7u64) & !FILE_A);
    k = k | ((bb >> 9u64) & !FILE_H);
    proof {
        let s = sq as u64;
        assert(k == king_bits(s)) by (bit_vector)
            requires
                k == (((((((0u64 | ((1u64 << s) << 8u64)) | ((1u64 << s) >> 8u64)) | (((1u64 << s)
                    << 1u64) & !0x0101010101010101u64)) | (((1u64 << s) >> 1u64) & !0x8080808080808080u64)) | (((1u64
                    << s) << 9u64) & !0x0101010101010101u64)) | (((1u64 << s) << 7u64) & !0x8080808080808080u64))
                    | (((1u64 << s) >> 7u64) & !0x0101010101010101u64)) | (((1u64 << s) >> 9u64)
                    & !0x8080808080808080u64),
        ;
    }
    k
}

fn pawn_bits_exec(color: Color, sq: u8) -> (p: u64)
    requires
        sq < 64,
    ensures
        color == Color::White ==> p == white_pawn_bits(sq as u64),
        color == Color::Black ==> p == black_pawn_bits(sq as u64),
{
    let bb: u64 = 1u64 << sq;
    match color {
        Color::White => {
            let nw = (bb << 7u64) & !FILE_H;
            let ne = (bb << 9u64) & !FILE_A;
            nw | ne
        },
        Color::Black => {
            let sw = (bb >> 9u64) & !FILE_H;
            let se = (bb >> 7u64) & !FILE_A;
            sw | se
        },
    }
}

/// Tables of the leaping attacks (pawn captures, knight jumps, king steps)
/// for every square.
pub struct Attacks {
    pub pawn_attacks: [[Bitboard; 64]; 2],
    pub knight_attacks: [Bitboard; 64],
    pub king_attacks: [Bitboard; 64],
}

impl Attacks {
    /// Every entry of the tables holds exactly the squares its piece attacks.
    pub open spec fn wf(&self) -> bool {
        &&& forall|s: int, t: int|
            0 <= s < 64 ==> #[trigger] bit_set(self.pawn_attacks[0][s].0, t) == pawn_capture_target(
                Color::White,
                s,
                t,
            )
        &&& forall|s: int, t: int|
            0 <= s < 64 ==> #[trigger] bit_set(self.pawn_attacks[1][s].0, t) == pawn_capture_target(
                Color::Black,
                s,
                t,
            )
        &&& forall|s: int, t: int|
            0 <= s < 64 ==> #[trigger] bit_set(self.knight_attacks[s].0, t) == knight_jump(s, t)
        &&& forall|s: int, t: int|
            0 <= s < 64 ==> #[trigger] bit_set(self.king_attacks[s].0, t) == king_step(s, t)
    }

    pub fn new() -> (a: Attacks)
        ensures
            a.wf(),
    {
        let mut white = [Bitboard(0); 64];
        let mut black = [Bitboard(0); 64];
        let mut knight_attacks = [Bitboard(0); 64];
        let mut king_attacks = [Bitboard(0); 64];
        let mut sq: usize = 0;
        while sq < 64
            invariant
                sq <= 64,
                forall|s: int, t: int|
                    0 <= s < sq ==> #[trigger] bit_set(white[s].0, t) == pawn_capture_target(
                        Color::White,
                        s,
                        t,
                    ),
                forall|s: int, t: int|
                    0 <= s < sq ==> #[trigger] bit_set(black[s].0, t) == pawn_capture_target(
                        Color::Black,
                        s,
                        t,
                    ),
                forall|s: int, t: int|
                    0 <= s < sq ==> #[trigger] bit_set(knight_attacks[s].0, t) == knight_jump(s, t),
                forall|s: int, t: int|
                    0 <= s < sq ==> #[trigger] bit_set(king_attacks[s].0, t) == king_step(s, t),
            decreases 64 - sq,
        {
            proof {
                lemma_pawn_bits(sq as u64);
                lemma_knight_bits(sq as u64);
                lemma_king_bits(sq as u64);
            }
            white[sq] = Bitboard::new(pawn_bits_exec(Color::White, sq as u8));
            black[sq] = Bitboard::new(pawn_bits_exec(Color::Black, sq as u8));
            knight_attacks[sq] = Bitboard::new(knight_bits_exec(sq as u8));
            king_attacks[sq] = Bitboard::new(king_bits_exec(sq as u8));
            sq += 1;
        }
        Attacks { pawn_attacks: [white, black], knight_attacks, king_attacks }
    }
}

/// The squares a pawn of `color` on `sq` attacks.
pub fn pawn_attacks(color: Color, sq: Square) -> (b: Bitboard)
    requires
        sq.0 < 64,
    ensures
        forall|t: int| bit_set(b.0, t) == pawn_capture_target(color, sq.0 as int, t),
{
    proof {
        lemma_pawn_bits(sq.0 as u64);
    }
    Bitboard::new(pawn_bits_exec(color, sq.0))
}

/// The squares a knight on `sq` attacks.
pub fn knight_attacks(sq: Square) -> (b: Bitboard)
    requires
        sq.0 < 64,
    ensures
        forall|t: int| bit_set(b.0, t) == knight_jump(sq.0 as int, t),
{
    proof {
        lemma_knight_bits(sq.0 as u64);
    }
    Bitboard::new(knight_bits_exec(sq.0))
}

/// The squares a king on `sq` attacks.
pub fn king_attacks(sq: Square) -> (b: Bitboard)
    requires
        sq.0 < 64,
    ensures
        forall|t: int| bit_set(b.0, t) == king_step(sq.0 as int, t),
{
    proof {
        lemma_king_bits(sq.0 as u64);
    }
    Bitboard::new(king_bits_exec(sq.0))
}


/// `k` steps along direction `d` (one of -1, 0, 1).
pub open spec fn steps(k: int, d: int) -> int {
    if d == 1 {
        k
    } else if d == -1 {
        -k
    } else {
        0
    }
}

/// A sliding direction: one of the eight compass directions.
pub open spec fn valid_dir(dr: int, df: int) -> bool {
    -1 <= dr <= 1 && -1 <= df <= 1 && (dr != 0 || df != 0)
}

/// How many steps along the direction separate `s` from `t`, judged by the
/// coordinate that the direction moves.
pub open spec fn ray_dist(s: int, dr: int, df: int, t: int) -> int {
    if dr == 1 {
        rank_of(t) - rank_of(s)
    } else if dr == -1 {
        rank_of(s) - rank_of(t)
    } else if df == 1 {
        file_of(t) - file_of(s)
    } else {
        file_of(s) - file_of(t)
    }
}

/// Whether the square `k` steps from `s` along the direction is on the board.
pub open spec fn ray_on_board(s: int, dr: int, df: int, k: int) -> bool {
    0 <= rank_of(s) + steps(k, dr) < 8 && 0 <= file_of(s) + steps(k, df) < 8
}

/// The square `k` steps from `s` along the direction.
pub open spec fn ray_square(s: int, dr: int, df: int, k: int) -> int {
    (rank_of(s) + steps(k, dr)) * 8 + file_of(s) + steps(k, df)
}

/// No square strictly before step `k` along the ray is occupied.
pub open spec fn ray_clear(s: int, occ: u64, dr: int, df: int, k: int) -> bool {
    forall|j: int| 1 <= j < k ==> !#[trigger] bit_set(occ, ray_square(s, dr, df, j))
}

/// `t` lies on the ray from `s` in the direction, and every square between
/// them is empty: a slider on `s` attacks `t` along this ray.
pub open spec fn on_ray(s: int, occ: u64, dr: int, df: int, t: int) -> bool {
    let k = ray_dist(s, dr, df, t);
    &&& 0 <= t < 64
    &&& k >= 1
    &&& ray_on_board(s, dr, df, k)
    &&& t == ray_square(s, dr, df, k)
    &&& ray_clear(s, occ, dr, df, k)
}

/// Squares a rook on `s` attacks when `occ` is occupied.
pub open spec fn rook_attack(s: int, occ: u64, t: int) -> bool {
    on_ray(s, occ, 1, 0, t) || on_ray(s, occ, -1, 0, t) || on_ray(s, occ, 0, 1, t) || on_ray(
        s,
        occ,
        0,
        -1,
        t,
    )
}

/// Squares a bishop on `s` attacks when `occ` is occupied.
pub open spec fn bishop_attack(s: int, occ: u64, t: int) -> bool {
    on_ray(s, occ, 1, 1, t) || on_ray(s, occ, 1, -1, t) || on_ray(s, occ, -1, 1, t) || on_ray(
        s,
        occ,
        -1,
        -1,
        t,
    )
}

/// Squares a queen on `s` attacks when `occ` is occupied.
pub open spec fn queen_attack(s: int, occ: u64, t: int) -> bool {
    rook_attack(s, occ, t) || bishop_attack(s, occ, t)
}

/// The square `k` steps along a ray: on the board, `k` steps away by the
/// direction's measure, moved by the steps in rank and file.
pub proof fn lemma_ray_square_facts(s: int, dr: int, df: int, k: int)
    requires
        0 <= s < 64,
        valid_dir(dr, df),
        k >= 1,
        ray_on_board(s, dr, df, k),
    ensures
        0 <= ray_square(s, dr, df, k) < 64,
        ray_dist(s, dr, df, ray_square(s, dr, df, k)) == k,
        rank_of(ray_square(s, dr, df, k)) == rank_of(s) + steps(k, dr),
        file_of(ray_square(s, dr, df, k)) == file_of(s) + steps(k, df),
        ray_square(s, dr, df, k) != s,
{
    let r = rank_of(s) + steps(k, dr);
    let f = file_of(s) + steps(k, df);
    assert((r * 8 + f) / 8 == r) by (nonlinear_arith)
        requires
            0 <= f < 8,
            0 <= r < 8,
    ;
    assert((r * 8 + f) % 8 == f) by (nonlinear_arith)
        requires
            0 <= f < 8,
            0 <= r < 8,
    ;
}

/// A ray seen from its far end: if `t` is on the ray from `s` in one
/// direction, then `s` is on the ray from `t` in the opposite direction, with
/// the same squares between them.
pub proof fn lemma_ray_symmetric(s: int, occ: u64, dr: int, df: int, t: int)
    requires
        0 <= s < 64,
        valid_dir(dr, df),
        on_ray(s, occ, dr, df, t),
    ensures
        on_ray(t, occ, -dr, -df, s),
{
    let k = ray_dist(s, dr, df, t);
    lemma_ray_square_facts(s, dr, df, k);
    assert(rank_of(t) == rank_of(s) + steps(k, dr));
    assert(file_of(t) == file_of(s) + steps(k, df));
    assert(ray_dist(t, -dr, -df, s) == k);
    assert(ray_on_board(t, -dr, -df, k));
    assert(s == ray_square(t, -dr, -df, k)) by {
        assert(s == rank_of(s) * 8 + file_of(s));
    }
    assert forall|j: int| 1 <= j < k implies !#[trigger] bit_set(occ, ray_square(t, -dr, -df, j)) by {
        assert(ray_square(t, -dr, -df, j) == ray_square(s, dr, df, k - j));
        assert(!bit_set(occ, ray_square(s, dr, df, k - j)));
    }
}

pub proof fn lemma_rook_symmetric(s: int, occ: u64, t: int)
    requires
        0 <= s < 64,
        0 <= t < 64,
    ensures
        rook_attack(s, occ, t) == rook_attack(t, occ, s),
{
    if on_ray(s, occ, 1, 0, t) { lemma_ray_symmetric(s, occ, 1, 0, t); }
    if on_ray(s, occ, -1, 0, t) { lemma_ray_symmetric(s, occ, -1, 0, t); }
    if on_ray(s, occ, 0, 1, t) { lemma_ray_symmetric(s, occ, 0, 1, t); }
    if on_ray(s, occ, 0, -1, t) { lemma_ray_symmetric(s, occ, 0, -1, t); }
    if on_ray(t, occ, 1, 0, s) { lemma_ray_symmetric(t, occ, 1, 0, s); }
    if on_ray(t, occ, -1, 0, s) { lemma_ray_symmetric(t, occ, -1, 0, s); }
    if on_ray(t, occ, 0, 1, s) { lemma_ray_symmetric(t, occ, 0, 1, s); }
    if on_ray(t, occ, 0, -1, s) { lemma_ray_symmetric(t, occ, 0, -1, s); }
}

pub proof fn lemma_bishop_symmetric(s: int, occ: u64, t: int)
    requires
        0 <= s < 64,
        0 <= t < 64,
    ensures
        bishop_attack(s, occ, t) == bishop_attack(t, occ, s),
{
    if on_ray(s, occ, 1, 1, t) { lemma_ray_symmetric(s, occ, 1, 1, t); }
    if on_ray(s, occ, -1, 1, t) { lemma_ray_symmetric(s, occ, -1, 1, t); }
    if on_ray(s, occ, 1, -1, t) { lemma_ray_symmetric(s, occ, 1, -1, t); }
    if on_ray(s, occ, -1, -1, t) { lemma_ray_symmetric(s, occ, -1, -1, t); }
    if on_ray(t, occ, 1, 1, s) { lemma_ray_symmetric(t, occ, 1, 1, s); }
    if on_ray(t, occ, -1, 1, s) { lemma_ray_symmetric(t, occ, -1, 1, s); }
    if on_ray(t, occ, 1, -1, s) { lemma_ray_symmetric(t, occ, 1, -1, s); }
    if on_ray(t, occ, -1, -1, s) { lemma_ray_symmetric(t, occ, -1, -1, s); }
}

/// A piece of type `pt` and color `c` on `s` attacks `t` when `occ` is occupied.
pub open spec fn piece_attacks(pt: PieceType, c: Color, s: int, t: int, occ: u64) -> bool {
    match pt {
        PieceType::Pawn => pawn_capture_target(c, s, t),
        PieceType::Knight => knight_jump(s, t),
        PieceType::Bishop => bishop_attack(s, occ, t),
        PieceType::Rook => rook_attack(s, occ, t),
        PieceType::Queen => queen_attack(s, occ, t),
        PieceType::King => king_step(s, t),
    }
}

/// Attack bits of one ray from `sq`, stopping at the first occupied square.
fn ray_walk(sq: u8, occ: u64, dr: i32, df: i32) -> (a: u64)
    requires
        sq < 64,
        valid_dir(dr as int, df as int),
    ensures
        forall|t: int| bit_set(a, t) == on_ray(sq as int, occ, dr as int, df as int, t),
{
    let ghost s = sq as int;
    let r: i32 = (sq / 8) as i32;
    let f: i32 = (sq % 8) as i32;
    let mut attacks: u64 = 0;
    let mut cr: i32 = r + dr;
    let mut cf: i32 = f + df;
    let ghost mut k: int = 1;
    proof {
        assert forall|t: int| !bit_set(attacks, t) by {
            lemma_bit_zero(t);
        }
    }
    loop
        invariant
            0 <= s < 64,
            s == sq,
            r == rank_of(s),
            f == file_of(s),
            valid_dir(dr as int, df as int),
            k >= 1,
            k <= 8,
            cr == r + steps(k, dr as int),
            cf == f + steps(k, df as int),
            forall|j: int| 1 <= j < k ==> ray_on_board(s, dr as int, df as int, j),
            ray_clear(s, occ, dr as int, df as int, k),
            forall|t: int|
                bit_set(attacks, t) == (0 <= t < 64 && 1 <= ray_dist(s, dr as int, df as int, t) < k
                    && ray_on_board(s, dr as int, df as int, ray_dist(s, dr as int, df as int, t))
                    && t == ray_square(s, dr as int, df as int, ray_dist(s, dr as int, df as int, t))),
        decreases 8 - k,
    {
        if !(0 <= cr && cr <= 7 && 0 <= cf && cf <= 7) {
            proof {
                assert forall|t: int| bit_set(attacks, t) == on_ray(s, occ, dr as int, df as int, t) by {
                    let d = ray_dist(s, dr as int, df as int, t);
                    if d >= k {
                        assert(!ray_on_board(s, dr as int, df as int, d));
                    }
                }
            }
            return attacks;
        }
        let idx: u64 = (cr * 8 + cf) as u64;
        let bit: u64 = 1u64 << idx;
        proof {
            lemma_ray_square_facts(s, dr as int, df as int, k);
            assert(idx as int == ray_square(s, dr as int, df as int, k));
            assert forall|t: int| #[trigger] bit_set(attacks | bit, t) == (bit_set(attacks, t) || t == idx) by {
                lemma_bit_or(attacks, bit, t);
                lemma_bit_single(idx, t);
            }
            assert forall|t: int|
                bit_set(attacks | bit, t) == (0 <= t < 64 && 1 <= ray_dist(s, dr as int, df as int, t) < k + 1
                    && ray_on_board(s, dr as int, df as int, ray_dist(s, dr as int, df as int, t))
                    && t == ray_square(s, dr as int, df as int, ray_dist(s, dr as int, df as int, t))) by {
                if t == idx {
                    assert(ray_dist(s, dr as int, df as int, t) == k);
                    assert(bit_set(attacks | bit, t));
                    assert(ray_on_board(s, dr as int, df as int, k));
                    assert(0 <= t < 64);
                } else if ray_dist(s, dr as int, df as int, t) == k {
                    assert(t != ray_square(s, dr as int, df as int, k));
                    assert(!bit_set(attacks, t));
                    assert(!bit_set(attacks | bit, t));
                } else {
                    assert(bit_set(attacks | bit, t) == bit_set(attacks, t));
                }
            }
        }
        attacks = attacks | bit;
        if occ & bit != 0 {
            proof {
                assert(bit_set(occ, idx as int)) by {
                    lemma_bit_and(occ, bit, idx as int);
                    lemma_bit_single(idx, idx as int);
                    lemma_zero_iff_no_bits(occ & bit);
                    assert forall|u: int| 0 <= u < 64 && bit_set(occ & bit, u) implies u == idx by {
                        lemma_bit_and(occ, bit, u);
                        lemma_bit_single(idx, u);
                    }
                }
                assert forall|t: int| bit_set(attacks, t) == on_ray(s, occ, dr as int, df as int, t) by {
                    let d = ray_dist(s, dr as int, df as int, t);
                    if d > k && 0 <= t < 64 {
                        assert(!ray_clear(s, occ, dr as int, df as int, d)) by {
                            assert(bit_set(occ, ray_square(s, dr as int, df as int, k)));
                        }
                    }
                }
            }
            return attacks;
        }
        proof {
            assert(!bit_set(occ, idx as int)) by {
                lemma_bit_and(occ, bit, idx as int);
                lemma_bit_single(idx, idx as int);
                lemma_zero_iff_no_bits(occ & bit);
            }
            assert(ray_clear(s, occ, dr as int, df as int, k + 1));
        }
        cr = cr + dr;
        cf = cf + df;
        proof {
            k = k + 1;
        }
    }
}


proof fn lemma_or4(a: u64, b: u64, c: u64, d: u64, t: int)
    ensures
        bit_set(a | b | c | d, t) == (bit_set(a, t) || bit_set(b, t) || bit_set(c, t) || bit_set(d, t)),
{
    lemma_bit_or(a, b, t);
    lemma_bit_or(a | b, c, t);
    lemma_bit_or(a | b | c, d, t);
}

/// Rook attacks computed by walking the four rays.
fn rook_attacks_slow(sq: u32, occ: u64) -> (a: u64)
    requires
        sq < 64,
    ensures
        forall|t: int| bit_set(a, t) == rook_attack(sq as int, occ, t),
{
    let s = sq as u8;
    let n = ray_walk(s, occ, 1, 0);
    let so = ray_walk(s, occ, -1, 0);
    let e = ray_walk(s, occ, 0, 1);
    let w = ray_walk(s, occ, 0, -1);
    proof {
        assert forall|t: int| bit_set(n | so | e | w, t) == rook_attack(sq as int, occ, t) by {
            lemma_or4(n, so, e, w, t);
        }
    }
    n | so | e | w
}

/// Bishop attacks computed by walking the four diagonals.
fn bishop_attacks_slow(sq: u32, occ: u64) -> (a: u64)
    requires
        sq < 64,
    ensures
        forall|t: int| bit_set(a, t) == bishop_attack(sq as int, occ, t),
{
    let s = sq as u8;
    let ne = ray_walk(s, occ, 1, 1);
    let nw = ray_walk(s, occ, 1, -1);
    let se = ray_walk(s, occ, -1, 1);
    let sw = ray_walk(s, occ, -1, -1);
    proof {
        assert forall|t: int| bit_set(ne | nw | se | sw, t) == bishop_attack(sq as int, occ, t) by {
            lemma_or4(ne, nw, se, sw, t);
        }
    }
    ne | nw | se | sw
}

/// The squares a bishop on `sq` attacks, rays stopping at the first occupied square.
pub fn bishop_attacks(sq: Square, occ: Bitboard) -> (b: Bitboard)
    requires
        sq.0 < 64,
    ensures
        forall|t: int| bit_set(b.0, t) == bishop_attack(sq.0 as int, occ.0, t),
{
    Bitboard::new(bishop_attacks_slow(sq.0 as u32, occ.0))
}

/// The squares a rook on `sq` attacks, rays stopping at the first occupied square.
pub fn rook_attacks(sq: Square, occ: Bitboard) -> (b: Bitboard)
    requires
        sq.0 < 64,
    ensures
        forall|t: int| bit_set(b.0, t) == rook_attack(sq.0 as int, occ.0, t),
{
    Bitboard::new(rook_attacks_slow(sq.0 as u32, occ.0))
}

/// The squares a queen on `sq` attacks.
pub fn queen_attacks(sq: Square, occ: Bitboard) -> (b: Bitboard)
    requires
        sq.0 < 64,
    ensures
        forall|t: int| bit_set(b.0, t) == queen_attack(sq.0 as int, occ.0, t),
{
    let bi = bishop_attacks(sq, occ);
    let ro = rook_attacks(sq, occ);
    proof {
        assert forall|t: int| bit_set(bi.0 | ro.0, t) == queen_attack(sq.0 as int, occ.0, t) by {
            lemma_bit_or(bi.0, ro.0, t);
        }
    }
    Bitboard::new(bi.0 | ro.0)
}


// Magic bitboards for the sliding pieces.

/// Magic multipliers of the rook squares.
pub open spec fn rook_magic_seq() -> Seq<u64> {
    seq![
        0x0080001020400080u64, 0x0040001000200040, 0x0080081000200080, 0x0080040800100080,
        0x0080020400080080, 0x0080010200040080, 0x0080008001000200, 0x0080002040800100,
        0x0000800020400080, 0x0000400020005000, 0x0000801000200080, 0x0000800800100080,
        0x0000800400080080, 0x0000800200040080, 0x0000800100020080, 0x0000800040800100,
        0x0000208000400080, 0x0000404000201000, 0x0000808010002000, 0x0000808008001000,
        0x0000808004000800, 0x0000808002000400, 0x0000010100020004, 0x0000020000408104,
        0x0000208080004000, 0x0000200040005000, 0x0000100080200080, 0x0000080080100080,
        0x0000040080080080, 0x0000020080040080, 0x0000010080800200, 0x0000800080004100,
        0x0000204000800080, 0x0000200040401000, 0x0000100080802000, 0x0000080080801000,
        0x0000040080800800, 0x0000020080800400, 0x0000020001010004, 0x0000800040800100,
        0x0000204000808000, 0x0000200040008080, 0x0000100020008080, 0x0000080010008080,
        0x0000040008008080, 0x0000020004008080, 0x0000010002008080, 0x0000004081020004,
        0x0000204000800080, 0x0000200040008080, 0x0000100020008080, 0x0000080010008080,
        0x0000040008008080, 0x0000020004008080, 0x0000800100020080, 0x0000800041000080,
        0x00FFFCDDFCED714A, 0x007FFCDDFCED714A, 0x003FFFCDFFD88096, 0x0000040810002101,
        0x0001000204080011, 0x0001000204000801, 0x0001000082000401, 0x0001FFFAABFAD1A2,
    ]
}

/// Magic multipliers of the bishop squares.
pub open spec fn bishop_magic_seq() -> Seq<u64> {
    seq![
        0x0002020202020200u64, 0x0002020202020000, 0x0004010202000000, 0x0004040080000000,
        0x0001104000000000, 0x0000821040000000, 0x0000410410400000, 0x0000104104104000,
        0x0000040404040400, 0x0000020202020200, 0x0000040102020000, 0x0000040400800000,
        0x0000011040000000, 0x0000008210400000, 0x0000004104104000, 0x0000002082082000,
        0x0004000808080800, 0x0002000404040400, 0x0001000202020200, 0x0000800802004000,
        0x0000800400A00000, 0x0000200100884000, 0x0000400082082000, 0x0000200041041000,
        0x0002080010101000, 0x0001040008080800, 0x0000208004010400, 0x0000404004010200,
        0x0000840000802000, 0x0000404002011000, 0x0000808001041000, 0x0000404000820800,
        0x0001041000202000, 0x0000820800101000, 0x0000104400080800, 0x0000020080080080,
        0x0000404040040100, 0x0000808100020100, 0x0001010100020800, 0x0000808080010400,
        0x0000820820004000, 0x0000410410002000, 0x0000082088001000, 0x0000002011000800,
        0x0000080100400400, 0x0001010101000200, 0x0002020202000400, 0x0001010101000200,
        0x0000410410400000, 0x0000208208200000, 0x0000002084100000, 0x0000000020880000,
        0x0000001002020000, 0x0000040408020000, 0x0004040404040000, 0x0002020202020000,
        0x0000104104104000, 0x0000002082082000, 0x0000000020841000, 0x0000000000208800,
        0x0000000010020200, 0x0000000404080200, 0x0000040404040400, 0x0002020202020200,
    ]
}

/// Index bits of each rook square's table.
pub open spec fn rook_bits_seq() -> Seq<u32> {
    seq![
        12u32, 11, 11, 11, 11, 11, 11, 12, 11, 10, 10, 10, 10, 10, 10, 11,
        11, 10, 10, 10, 10, 10, 10, 11, 11, 10, 10, 10, 10, 10, 10, 11,
        11, 10, 10, 10, 10, 10, 10, 11, 11, 10, 10, 10, 10, 10, 10, 11,
        11, 10, 10, 10, 10, 10, 10, 11, 12, 11, 11, 11, 11, 11, 11, 12,
    ]
}

/// Index bits of each bishop square's table.
pub open spec fn bishop_bits_seq() -> Seq<u32> {
    seq![
        6u32, 5, 5, 5, 5, 5, 5, 6, 5, 5, 5, 5, 5, 5, 5, 5,
        5, 5, 7, 7, 7, 7, 5, 5, 5, 5, 7, 9, 9, 7, 5, 5,
        5, 5, 7, 9, 9, 7, 5, 5, 5, 5, 7, 7, 7, 7, 5, 5,
        5, 5, 5, 5, 5, 5, 5, 5, 6, 5, 5, 5, 5, 5, 5, 6,
    ]
}

/// Magic multipliers of the rook squares.
fn rook_magic_numbers() -> (v: Vec<u64>)
    ensures
        v.len() == 64,
        v@ == rook_magic_seq(),
{
    vec![
        0x0080001020400080u64, 0x0040001000200040, 0x0080081000200080, 0x0080040800100080,
        0x0080020400080080, 0x0080010200040080, 0x0080008001000200, 0x0080002040800100,
        0x0000800020400080, 0x0000400020005000, 0x0000801000200080, 0x0000800800100080,
        0x0000800400080080, 0x0000800200040080, 0x0000800100020080, 0x0000800040800100,
        0x0000208000400080, 0x0000404000201000, 0x0000808010002000, 0x0000808008001000,
        0x0000808004000800, 0x0000808002000400, 0x0000010100020004, 0x0000020000408104,
        0x0000208080004000, 0x0000200040005000, 0x0000100080200080, 0x0000080080100080,
        0x0000040080080080, 0x0000020080040080, 0x0000010080800200, 0x0000800080004100,
        0x0000204000800080, 0x0000200040401000, 0x0000100080802000, 0x0000080080801000,
        0x0000040080800800, 0x0000020080800400, 0x0000020001010004, 0x0000800040800100,
        0x0000204000808000, 0x0000200040008080, 0x0000100020008080, 0x0000080010008080,
        0x0000040008008080, 0x0000020004008080, 0x0000010002008080, 0x0000004081020004,
        0x0000204000800080, 0x0000200040008080, 0x0000100020008080, 0x0000080010008080,
        0x0000040008008080, 0x0000020004008080, 0x0000800100020080, 0x0000800041000080,
        0x00FFFCDDFCED714A, 0x007FFCDDFCED714A, 0x003FFFCDFFD88096, 0x0000040810002101,
        0x0001000204080011, 0x0001000204000801, 0x0001000082000401, 0x0001FFFAABFAD1A2,
    ]
}

/// Magic multipliers of the bishop squares.
fn bishop_magic_numbers() -> (v: Vec<u64>)
    ensures
        v.len() == 64,
        v@ == bishop_magic_seq(),
{
    vec![
        0x0002020202020200u64, 0x0002020202020000, 0x0004010202000000, 0x0004040080000000,
        0x0001104000000000, 0x0000821040000000, 0x0000410410400000, 0x0000104104104000,
        0x0000040404040400, 0x0000020202020200, 0x0000040102020000, 0x0000040400800000,
        0x0000011040000000, 0x0000008210400000, 0x0000004104104000, 0x0000002082082000,
        0x0004000808080800, 0x0002000404040400, 0x0001000202020200, 0x0000800802004000,
        0x0000800400A00000, 0x0000200100884000, 0x0000400082082000, 0x0000200041041000,
        0x0002080010101000, 0x0001040008080800, 0x0000208004010400, 0x0000404004010200,
        0x0000840000802000, 0x0000404002011000, 0x0000808001041000, 0x0000404000820800,
        0x0001041000202000, 0x0000820800101000, 0x0000104400080800, 0x0000020080080080,
        0x0000404040040100, 0x0000808100020100, 0x0001010100020800, 0x0000808080010400,
        0x0000820820004000, 0x0000410410002000, 0x0000082088001000, 0x0000002011000800,
        0x0000080100400400, 0x0001010101000200, 0x0002020202000400, 0x0001010101000200,
        0x0000410410400000, 0x0000208208200000, 0x0000002084100000, 0x0000000020880000,
        0x0000001002020000, 0x0000040408020000, 0x0004040404040000, 0x0002020202020000,
        0x0000104104104000, 0x0000002082082000, 0x0000000020841000, 0x0000000000208800,
        0x0000000010020200, 0x0000000404080200, 0x0000040404040400, 0x0002020202020200,
    ]
}

/// Index bits of each rook square's table.
fn rook_bits() -> (v: Vec<u32>)
    ensures
        v.len() == 64,
        v@ == rook_bits_seq(),
        forall|i: int| 0 <= i < 64 ==> 5 <= #[trigger] v@[i] <= 12,
{
    let v = vec![
        12u32, 11, 11, 11, 11, 11, 11, 12, 11, 10, 10, 10, 10, 10, 10, 11,
        11, 10, 10, 10, 10, 10, 10, 11, 11, 10, 10, 10, 10, 10, 10, 11,
        11, 10, 10, 10, 10, 10, 10, 11, 11, 10, 10, 10, 10, 10, 10, 11,
        11, 10, 10, 10, 10, 10, 10, 11, 12, 11, 11, 11, 11, 11, 11, 12,
    ];
    proof {
        assert forall|i: int| 0 <= i < 64 implies 5 <= #[trigger] v@[i] <= 12 by {}
    }
    v
}

/// Index bits of each bishop square's table.
fn bishop_bits() -> (v: Vec<u32>)
    ensures
        v.len() == 64,
        v@ == bishop_bits_seq(),
        forall|i: int| 0 <= i < 64 ==> 5 <= #[trigger] v@[i] <= 12,
{
    let v = vec![
        6u32, 5, 5, 5, 5, 5, 5, 6, 5, 5, 5, 5, 5, 5, 5, 5,
        5, 5, 7, 7, 7, 7, 5, 5, 5, 5, 7, 9, 9, 7, 5, 5,
        5, 5, 7, 9, 9, 7, 5, 5, 5, 5, 7, 7, 7, 7, 5, 5,
        5, 5, 5, 5, 5, 5, 5, 5, 6, 5, 5, 5, 5, 5, 5, 6,
    ];
    proof {
        assert forall|i: int| 0 <= i < 64 implies 5 <= #[trigger] v@[i] <= 12 by {}
    }
    v
}

/// The relevant occupancy of a rook on `s`: the squares of its rays, without
/// the last square of each ray, which blocks nothing behind it.
pub open spec fn rook_mask_bit(s: int, t: int) -> bool {
    &&& 0 <= t < 64
    &&& t != s
    &&& ((file_of(t) == file_of(s) && 1 <= rank_of(t) <= 6) || (rank_of(t) == rank_of(s) && 1
        <= file_of(t) <= 6))
}

/// The relevant occupancy of a bishop on `s`: its diagonal squares off the
/// board's edge.
pub open spec fn bishop_mask_bit(s: int, t: int) -> bool {
    &&& 0 <= t < 64
    &&& t != s
    &&& absdiff(rank_of(t), rank_of(s)) == absdiff(file_of(t), file_of(s))
    &&& 1 <= rank_of(t) <= 6
    &&& 1 <= file_of(t) <= 6
}

/// The relevant occupancy of a rook (`rook`) or a bishop on `s`.
pub open spec fn mask_bit(rook: bool, s: int, t: int) -> bool {
    if rook {
        rook_mask_bit(s, t)
    } else {
        bishop_mask_bit(s, t)
    }
}

/// The attacks of a rook (`rook`) or a bishop on `s`.
pub open spec fn slider_attack(rook: bool, s: int, occ: u64, t: int) -> bool {
    if rook {
        rook_attack(s, occ, t)
    } else {
        bishop_attack(s, occ, t)
    }
}

/// The square after the last subset of `m` in increasing order (carry-rippler).
pub open spec fn next_subset(s: u64, m: u64) -> u64 {
    vstd::wrapping::u64_specs::wrapping_sub(s, m) & m
}

/// The table slot that the magic multiplication selects for `x`.
pub open spec fn magic_index(x: u64, magic: u64, shift: u32) -> int {
    (vstd::wrapping::u64_specs::wrapping_mul(x, magic) >> shift) as int
}

/// Number of slots of a square's table.
pub open spec fn region_size(shift: u32) -> int {
    (1u64 << ((64 - shift) as u64)) as int
}

/// Facts about subsets, masks and shifts, proved by bit-blasting.
proof fn magic_word_facts(s: u64, m: u64, t: u64, w: u64, sh: u64)
    by (bit_vector)
    ensures
        s & !m == 0 ==> (if s >= m { (s - m) as u64 } else { (s - m + 0x1_0000_0000_0000_0000) as u64 }) & m & !m == 0,
        (s & !m == 0 && s != m) ==> (if s >= m { (s - m) as u64 } else { (s - m + 0x1_0000_0000_0000_0000) as u64 }) & m > s,
        (s & !m == 0 && s == m) ==> (if s >= m { (s - m) as u64 } else { (s - m + 0x1_0000_0000_0000_0000) as u64 }) & m == 0,
        (s & !m == 0 && t & !m == 0 && s < t) ==> (if s >= m { (s - m) as u64 } else { (s - m + 0x1_0000_0000_0000_0000) as u64 }) & m <= t,
        t & !m == 0 ==> t <= m,
        (t & m) & !m == 0,
        0u64 & !m == 0,
        (52 <= sh && sh <= 59) ==> (w >> sh) < (1u64 << ((64 - sh) as u64)),
        (52 <= sh && sh <= 59) ==> 32 <= (1u64 << ((64 - sh) as u64)) <= 4096,
{
}

/// The carry-rippler step: the next subset of `m` after `s` is the smallest
/// subset of `m` above `s`, and wraps to zero after `m` itself.
proof fn lemma_next_subset(s: u64, m: u64, t: u64)
    requires
        s & !m == 0,
    ensures
        next_subset(s, m) & !m == 0,
        s != m ==> next_subset(s, m) > s,
        s == m ==> next_subset(s, m) == 0,
        (t & !m == 0 && s < t) ==> next_subset(s, m) <= t,
        t & !m == 0 ==> t <= m,
{
    magic_word_facts(s, m, t, 0, 0);
}

/// Every square of a ray strictly before an on-board square lies in the mask
/// of the piece moving along that ray.
proof fn lemma_between_in_mask(s: int, dr: int, df: int, j: int, k: int)
    requires
        0 <= s < 64,
        valid_dir(dr, df),
        1 <= j < k,
        ray_on_board(s, dr, df, k),
    ensures
        mask_bit(dr == 0 || df == 0, s, ray_square(s, dr, df, j)),
{
    assert(ray_on_board(s, dr, df, j));
    lemma_ray_square_facts(s, dr, df, j);
}

/// A ray sees the occupancy only through the mask.
proof fn lemma_on_ray_masked(s: int, occ: u64, m: u64, dr: int, df: int, t: int)
    requires
        0 <= s < 64,
        valid_dir(dr, df),
        forall|u: int| mask_bit(dr == 0 || df == 0, s, u) ==> bit_set(m, u),
    ensures
        on_ray(s, occ & m, dr, df, t) == on_ray(s, occ, dr, df, t),
{
    let k = ray_dist(s, dr, df, t);
    if k >= 1 && ray_on_board(s, dr, df, k) {
        assert forall|j: int| 1 <= j < k implies bit_set(occ & m, ray_square(s, dr, df, j))
            == bit_set(occ, ray_square(s, dr, df, j)) by {
            lemma_between_in_mask(s, dr, df, j, k);
            lemma_bit_and(occ, m, ray_square(s, dr, df, j));
        }
        assert(ray_clear(s, occ & m, dr, df, k) == ray_clear(s, occ, dr, df, k));
    }
}

/// Slider attacks depend on the occupancy of the mask's squares only.
pub proof fn lemma_slider_relevant(rook: bool, s: int, occ: u64, m: u64, t: int)
    requires
        0 <= s < 64,
        forall|u: int| mask_bit(rook, s, u) ==> bit_set(m, u),
    ensures
        slider_attack(rook, s, occ & m, t) == slider_attack(rook, s, occ, t),
{
    if rook {
        lemma_on_ray_masked(s, occ, m, 1, 0, t);
        lemma_on_ray_masked(s, occ, m, -1, 0, t);
        lemma_on_ray_masked(s, occ, m, 0, 1, t);
        lemma_on_ray_masked(s, occ, m, 0, -1, t);
    } else {
        lemma_on_ray_masked(s, occ, m, 1, 1, t);
        lemma_on_ray_masked(s, occ, m, 1, -1, t);
        lemma_on_ray_masked(s, occ, m, -1, 1, t);
        lemma_on_ray_masked(s, occ, m, -1, -1, t);
    }
}

/// A slider always attacks some square: its neighbour along a ray that
/// points into the board.
proof fn lemma_slider_witness(rook: bool, s: int, occ: u64) -> (t: int)
    requires
        0 <= s < 64,
    ensures
        slider_attack(rook, s, occ, t),
{
    let dr: int = if rank_of(s) < 7 { 1 } else { -1 };
    let df: int = if rook { 0 } else if file_of(s) < 7 { 1 } else { -1 };
    assert(ray_on_board(s, dr, df, 1));
    lemma_ray_square_facts(s, dr, df, 1);
    let t = ray_square(s, dr, df, 1);
    assert(on_ray(s, occ, dr, df, t));
    t
}

/// The relevant-occupancy mask of a rook on `sq`.
fn rook_mask(sq: u32) -> (m: u64)
    requires
        sq < 64,
    ensures
        forall|t: int| bit_set(m, t) == rook_mask_bit(sq as int, t),
{
    let r = sq / 8;
    let f = sq % 8;
    let mut mask: u64 = 0;
    let mut t: u32 = 0;
    proof {
        assert forall|u: int| !bit_set(mask, u) by {
            lemma_bit_zero(u);
        }
    }
    while t < 64
        invariant
            sq < 64,
            r == rank_of(sq as int),
            f == file_of(sq as int),
            t <= 64,
            forall|u: int| bit_set(mask, u) == (u < t && rook_mask_bit(sq as int, u)),
        decreases 64 - t,
    {
        let tr = t / 8;
        let tf = t % 8;
        let wanted = t != sq && ((tf == f && 1 <= tr && tr <= 6) || (tr == r && 1 <= tf && tf <= 6));
        let bit: u64 = 1u64 << (t as u64);
        proof {
            assert forall|u: int| #[trigger] bit_set(mask | bit, u) == (bit_set(mask, u) || u == t) by {
                lemma_bit_or(mask, bit, u);
                lemma_bit_single(t as u64, u);
            }
        }
        if wanted {
            mask = mask | bit;
        }
        t += 1;
    }
    mask
}

/// The relevant-occupancy mask of a bishop on `sq`.
fn bishop_mask(sq: u32) -> (m: u64)
    requires
        sq < 64,
    ensures
        forall|t: int| bit_set(m, t) == bishop_mask_bit(sq as int, t),
{
    let r = sq / 8;
    let f = sq % 8;
    let mut mask: u64 = 0;
    let mut t: u32 = 0;
    proof {
        assert forall|u: int| !bit_set(mask, u) by {
            lemma_bit_zero(u);
        }
    }
    while t < 64
        invariant
            sq < 64,
            r == rank_of(sq as int),
            f == file_of(sq as int),
            t <= 64,
            forall|u: int| bit_set(mask, u) == (u < t && bishop_mask_bit(sq as int, u)),
        decreases 64 - t,
    {
        let tr = t / 8;
        let tf = t % 8;
        let dr = if tr >= r { tr - r } else { r - tr };
        let df = if tf >= f { tf - f } else { f - tf };
        let wanted = t != sq && dr == df && 1 <= tr && tr <= 6 && 1 <= tf && tf <= 6;
        let bit: u64 = 1u64 << (t as u64);
        proof {
            assert forall|u: int| #[trigger] bit_set(mask | bit, u) == (bit_set(mask, u) || u == t) by {
                lemma_bit_or(mask, bit, u);
                lemma_bit_single(t as u64, u);
            }
        }
        if wanted {
            mask = mask | bit;
        }
        t += 1;
    }
    mask
}

/// All subsets of `mask`, in increasing order (carry-rippler enumeration).
fn enumerate_subsets(mask: u64) -> (subsets: Vec<u64>)
    ensures
        forall|j: int| 0 <= j < subsets.len() ==> #[trigger] subsets@[j] & !mask == 0,
        forall|x: u64| x & !mask == 0 ==> #[trigger] subsets@.contains(x),
{
    let mut subsets: Vec<u64> = Vec::new();
    let mut subset: u64 = 0;
    proof {
        magic_word_facts(0, mask, 0, 0, 0);
    }
    loop
        invariant_except_break
            subset & !mask == 0,
            subset <= mask,
            forall|x: u64| (x & !mask == 0 && x < subset) ==> #[trigger] subsets@.contains(x),
        invariant
            forall|j: int| 0 <= j < subsets.len() ==> #[trigger] subsets@[j] & !mask == 0,
        ensures
            forall|x: u64| x & !mask == 0 ==> #[trigger] subsets@.contains(x),
        decreases mask - subset,
    {
        let ghost earlier = subsets@;
        subsets.push(subset);
        proof {
            assert(subsets@ == earlier.push(subset));
            assert forall|x: u64| x & !mask == 0 && x <= subset implies #[trigger] subsets@.contains(x) by {
                if x == subset {
                    assert(subsets@[earlier.len() as int] == x);
                } else {
                    assert(earlier.contains(x));
                    let j = choose|j: int| 0 <= j < earlier.len() && earlier[j] == x;
                    assert(subsets@[j] == x);
                }
            }
        }
        let next = subset.wrapping_sub(mask) & mask;
        proof {
            lemma_next_subset(subset, mask, next);
        }
        if next == 0 {
            proof {
                assert(subset == mask);
                assert forall|x: u64| x & !mask == 0 implies #[trigger] subsets@.contains(x) by {
                    lemma_next_subset(subset, mask, x);
                }
            }
            break;
        }
        proof {
            assert forall|x: u64| (x & !mask == 0 && x < next) implies #[trigger] subsets@.contains(x) by {
                lemma_next_subset(subset, mask, x);
            }
        }
        subset = next;
    }
    subsets
}

/// Lookup parameters of one square: the relevant mask, the magic
/// multiplier, the shift that keeps the index bits, and where the square's
/// table starts.
#[derive(Copy, Clone)]
struct MagicEntry {
    mask: u64,
    magic: u64,
    shift: u32,
    offset: usize,
}

/// The table slot of the entry `e` for the occupancy `occ`.
spec fn lookup(table: Seq<u64>, e: MagicEntry, occ: u64) -> u64 {
    table[e.offset + magic_index(occ & e.mask, e.magic, e.shift)]
}

/// The slot for `occ` holds exactly the attacks of the slider on `s`.
spec fn lookup_ok(table: Seq<u64>, e: MagicEntry, rook: bool, s: int, occ: u64) -> bool {
    forall|t: int| bit_set(lookup(table, e, occ), t) == slider_attack(rook, s, occ, t)
}

/// The slot that `x` selects holds exactly the attacks of the slider on `s`.
spec fn slot_ok(table: Seq<u64>, e: MagicEntry, rook: bool, s: int, x: u64) -> bool {
    forall|t: int| bit_set(table[e.offset + magic_index(x, e.magic, e.shift)], t) == slider_attack(rook, s, x, t)
}

/// The entry's table lies inside `table`, and every occupancy finds its
/// attacks there.
spec fn entry_ok(table: Seq<u64>, e: MagicEntry, rook: bool, s: int) -> bool {
    &&& 52 <= e.shift <= 59
    &&& e.offset + region_size(e.shift) <= table.len()
    &&& forall|occ: u64| #[trigger] lookup_ok(table, e, rook, s, occ)
}

/// The bits of `m` are the relevant occupancy of the slider on `s`.
pub open spec fn is_slider_mask(rook: bool, s: int, m: u64) -> bool {
    forall|t: int| bit_set(m, t) == mask_bit(rook, s, t)
}

/// The relevant-occupancy mask of a rook (`rook`) or a bishop on `s`, as a word.
pub open spec fn slider_mask(rook: bool, s: int) -> u64 {
    choose|m: u64| #[trigger] is_slider_mask(rook, s, m)
}

/// The slider on `s` attacks the same squares through the occupancies `x`
/// and `y`.
pub open spec fn same_attacks(rook: bool, s: int, x: u64, y: u64) -> bool {
    forall|t: int| slider_attack(rook, s, x, t) == slider_attack(rook, s, y, t)
}

/// A destructive collision: two occupancies of the slider's mask that the
/// magic multiplier sends to one slot, though their attacks differ.
pub open spec fn magic_collides(rook: bool, s: int, magic: u64, shift: u32) -> bool {
    exists|x: u64, y: u64|
        #![trigger magic_index(x, magic, shift), magic_index(y, magic, shift)]
        x & !slider_mask(rook, s) == 0 && y & !slider_mask(rook, s) == 0 && magic_index(x, magic, shift)
            == magic_index(y, magic, shift) && !same_attacks(rook, s, x, y)
}

/// A word whose bits are the slider's mask is that mask.
proof fn lemma_slider_mask(rook: bool, s: int, m: u64)
    requires
        forall|t: int| bit_set(m, t) == mask_bit(rook, s, t),
    ensures
        m == slider_mask(rook, s),
{
    assert(is_slider_mask(rook, s, m));
    let c = slider_mask(rook, s);
    assert(forall|t: int| bit_set(c, t) == mask_bit(rook, s, t));
    lemma_bits_ext(m, c);
}

/// Fills the table of one square, whose slots are still empty.  Returns
/// `false` when two occupancies with different attacks meet in one slot.
fn fill_square(table: &mut Vec<u64>, rook: bool, sq: u32, e: MagicEntry) -> (ok: bool)
    requires
        sq < 64,
        forall|t: int| bit_set(e.mask, t) == mask_bit(rook, sq as int, t),
        52 <= e.shift <= 59,
        e.offset + region_size(e.shift) <= old(table).len(),
        forall|k: int| e.offset <= k < e.offset + region_size(e.shift) ==> old(table)@[k] == 0,
    ensures
        final(table).len() == old(table).len(),
        forall|k: int|
            0 <= k < old(table).len() && !(e.offset <= k < e.offset + region_size(e.shift))
                ==> final(table)@[k] == old(table)@[k],
        ok ==> entry_ok(final(table)@, e, rook, sq as int),
        ok == !magic_collides(rook, sq as int, e.magic, e.shift),
{
    proof {
        lemma_slider_mask(rook, sq as int, e.mask);
    }
    let subsets = enumerate_subsets(e.mask);
    let ghost size = region_size(e.shift);
    let ghost s = sq as int;
    let mut i: usize = 0;
    while i < subsets.len()
        invariant
            sq < 64,
            s == sq,
            forall|t: int| bit_set(e.mask, t) == mask_bit(rook, s, t),
            e.mask == slider_mask(rook, s),
            52 <= e.shift <= 59,
            size == region_size(e.shift),
            e.offset + size <= table.len(),
            table.len() == old(table).len(),
            i <= subsets.len(),
            forall|j: int| 0 <= j < subsets.len() ==> #[trigger] subsets@[j] & !e.mask == 0,
            forall|k: int|
                0 <= k < old(table).len() && !(e.offset <= k < e.offset + size) ==> table@[k]
                    == old(table)@[k],
            forall|k: int| e.offset <= k < e.offset + size ==> (table@[k] == 0 || exists|j: int|
                0 <= j < i && k == e.offset + magic_index(#[trigger] subsets@[j], e.magic, e.shift)),
            forall|j: int| 0 <= j < i ==> slot_ok(table@, e, rook, s, #[trigger] subsets@[j]),
        decreases subsets.len() - i,
    {
        let ghost before = table@;
        let occ = subsets[i];
        let idx = (occ.wrapping_mul(e.magic) >> e.shift) as usize;
        proof {
            magic_word_facts(0, 0, 0, vstd::wrapping::u64_specs::wrapping_mul(occ, e.magic), e.shift as u64);
            assert(idx as int == magic_index(occ, e.magic, e.shift));
        }
        let attacks = if rook {
            rook_attacks_slow(sq, occ)
        } else {
            bishop_attacks_slow(sq, occ)
        };
        let dest = table[e.offset + idx];
        if dest == 0 {
            proof {
                assert forall|j: int| 0 <= j < i implies e.offset + magic_index(#[trigger] subsets@[j], e.magic, e.shift)
                    != e.offset + idx by {
                    let w = lemma_slider_witness(rook, s, subsets@[j]);
                    assert(slot_ok(table@, e, rook, s, subsets@[j]));
                    if e.offset + magic_index(subsets@[j], e.magic, e.shift) == e.offset + idx {
                        lemma_bit_zero(w);
                    }
                }
            }
            table.set(e.offset + idx, attacks);
        } else if dest != attacks {
            proof {
                let k = e.offset + idx;
                let j = choose|j: int| 0 <= j < i && k == e.offset + magic_index(#[trigger] subsets@[j], e.magic, e.shift);
                let x = subsets@[j];
                assert(slot_ok(table@, e, rook, s, x));
                if same_attacks(rook, s, x, occ) {
                    assert forall|t: int| 0 <= t < 64 implies bit_set(dest, t) == bit_set(attacks, t) by {
                        assert(slider_attack(rook, s, x, t) == slider_attack(rook, s, occ, t));
                    }
                    lemma_bits_ext(dest, attacks);
                }
                assert(magic_index(x, e.magic, e.shift) == magic_index(occ, e.magic, e.shift));
                assert(x & !e.mask == 0);
                assert(occ & !e.mask == 0);
                assert(magic_collides(rook, s, e.magic, e.shift));
            }
            return false;
        }
        proof {
            assert(slot_ok(table@, e, rook, s, occ));
            assert forall|j: int| 0 <= j < i implies slot_ok(table@, e, rook, s, #[trigger] subsets@[j]) by {
                let k = e.offset + magic_index(subsets@[j], e.magic, e.shift);
                magic_word_facts(0, 0, 0, vstd::wrapping::u64_specs::wrapping_mul(subsets@[j], e.magic), e.shift as u64);
                assert(slot_ok(before, e, rook, s, subsets@[j]));
                if dest == 0 {
                    assert(k != e.offset + idx);
                    assert(table@ == before.update(e.offset + idx, attacks));
                } else {
                    assert(table@ == before);
                }
                assert(table@[k] == before[k]);
            }
        }
        i += 1;
    }
    proof {
        assert forall|occ: u64| #[trigger] lookup_ok(table@, e, rook, s, occ) by {
            let x = occ & e.mask;
            magic_word_facts(0, e.mask, occ, 0, 0);
            assert(subsets@.contains(x));
            let j = choose|j: int| 0 <= j < subsets.len() && subsets@[j] == x;
            assert(slot_ok(table@, e, rook, s, subsets@[j]));
            assert forall|t: int| bit_set(lookup(table@, e, occ), t) == slider_attack(rook, s, occ, t) by {
                lemma_slider_relevant(rook, s, occ, e.mask, t);
            }
        }
        if magic_collides(rook, s, e.magic, e.shift) {
            let (x, y) = choose|x: u64, y: u64|
                #![trigger magic_index(x, e.magic, e.shift), magic_index(y, e.magic, e.shift)]
                x & !slider_mask(rook, s) == 0 && y & !slider_mask(rook, s) == 0 && magic_index(x, e.magic, e.shift)
                    == magic_index(y, e.magic, e.shift) && !same_attacks(rook, s, x, y);
            assert(subsets@.contains(x));
            assert(subsets@.contains(y));
            let jx = choose|j: int| 0 <= j < subsets.len() && subsets@[j] == x;
            let jy = choose|j: int| 0 <= j < subsets.len() && subsets@[j] == y;
            assert(slot_ok(table@, e, rook, s, subsets@[jx]));
            assert(slot_ok(table@, e, rook, s, subsets@[jy]));
            assert forall|t: int| slider_attack(rook, s, x, t) == slider_attack(rook, s, y, t) by {
                assert(bit_set(table@[e.offset + magic_index(x, e.magic, e.shift)], t) == slider_attack(rook, s, x, t));
                assert(bit_set(table@[e.offset + magic_index(y, e.magic, e.shift)], t) == slider_attack(rook, s, y, t));
            }
        }
    }
    true
}

/// Slider attack tables reached by magic multiplication: one table per
/// square, each indexed by the relevant occupancy.
pub struct MagicTables {
    rook_magics: Vec<MagicEntry>,
    bishop_magics: Vec<MagicEntry>,
    table: Vec<u64>,
}

impl MagicTables {
    /// Every square of both pieces finds its exact attacks in the table.
    pub closed spec fn wf(&self) -> bool {
        &&& self.rook_magics.len() == 64
        &&& self.bishop_magics.len() == 64
        &&& forall|s: int| 0 <= s < 64 ==> #[trigger] entry_ok(self.table@, self.rook_magics@[s], true, s)
        &&& forall|s: int| 0 <= s < 64 ==> #[trigger] entry_ok(self.table@, self.bishop_magics@[s], false, s)
    }

    fn lookup(&self, rook: bool, sq: Square, occ: Bitboard) -> (b: Bitboard)
        requires
            self.wf(),
            sq.0 < 64,
        ensures
            forall|t: int| bit_set(b.0, t) == slider_attack(rook, sq.0 as int, occ.0, t),
    {
        let e = if rook { self.rook_magics[sq.0 as usize] } else { self.bishop_magics[sq.0 as usize] };
        proof {
            assert(entry_ok(self.table@, e, rook, sq.0 as int));
            assert(lookup_ok(self.table@, e, rook, sq.0 as int, occ.0));
            magic_word_facts(0, 0, 0, vstd::wrapping::u64_specs::wrapping_mul(occ.0 & e.mask, e.magic), e.shift as u64);
        }
        let idx = ((occ.0 & e.mask).wrapping_mul(e.magic) >> e.shift) as usize;
        assert(idx as int == magic_index(occ.0 & e.mask, e.magic, e.shift));
        assert(idx < region_size(e.shift));
        assert(e.offset + region_size(e.shift) <= self.table.len());
        Bitboard::new(self.table[e.offset + idx])
    }

    /// The squares a rook on `sq` attacks, read from the tables.
    pub fn rook_attacks(&self, sq: Square, occ: Bitboard) -> (b: Bitboard)
        requires
            self.wf(),
            sq.0 < 64,
        ensures
            forall|t: int| bit_set(b.0, t) == rook_attack(sq.0 as int, occ.0, t),
    {
        self.lookup(true, sq, occ)
    }

    /// The squares a bishop on `sq` attacks, read from the tables.
    pub fn bishop_attacks(&self, sq: Square, occ: Bitboard) -> (b: Bitboard)
        requires
            self.wf(),
            sq.0 < 64,
        ensures
            forall|t: int| bit_set(b.0, t) == bishop_attack(sq.0 as int, occ.0, t),
    {
        self.lookup(false, sq, occ)
    }

    /// The squares a queen on `sq` attacks, read from the tables.
    pub fn queen_attacks(&self, sq: Square, occ: Bitboard) -> (b: Bitboard)
        requires
            self.wf(),
            sq.0 < 64,
        ensures
            forall|t: int| bit_set(b.0, t) == queen_attack(sq.0 as int, occ.0, t),
    {
        let bi = self.lookup(false, sq, occ);
        let ro = self.lookup(true, sq, occ);
        proof {
            assert forall|t: int| bit_set(bi.0 | ro.0, t) == queen_attack(sq.0 as int, occ.0, t) by {
                lemma_bit_or(bi.0, ro.0, t);
            }
        }
        Bitboard::new(bi.0 | ro.0)
    }
}

/// Growing the table past an entry's slots keeps the entry valid.
proof fn lemma_entry_ok_prefix(t1: Seq<u64>, t2: Seq<u64>, e: MagicEntry, rook: bool, s: int)
    requires
        entry_ok(t1, e, rook, s),
        t1.len() <= t2.len(),
        forall|k: int| 0 <= k < t1.len() ==> t2[k] == t1[k],
    ensures
        entry_ok(t2, e, rook, s),
{
    assert forall|occ: u64| #[trigger] lookup_ok(t2, e, rook, s, occ) by {
        magic_word_facts(0, 0, 0, vstd::wrapping::u64_specs::wrapping_mul(occ & e.mask, e.magic), e.shift as u64);
        assert(lookup_ok(t1, e, rook, s, occ));
        assert(lookup(t2, e, occ) == lookup(t1, e, occ));
    }
}

/// Appends the table of one square, filled, and returns its entry; `None`
/// on a destructive collision.
fn build_square(table: &mut Vec<u64>, rook: bool, sq: u32, magic: u64, bits: u32) -> (r: Option<MagicEntry>)
    requires
        sq < 64,
        5 <= bits <= 12,
    ensures
        old(table).len() <= final(table).len() <= old(table).len() + 4096,
        forall|k: int| 0 <= k < old(table).len() ==> final(table)@[k] == old(table)@[k],
        r matches Some(e) ==> entry_ok(final(table)@, e, rook, sq as int),
        r is None <==> magic_collides(rook, sq as int, magic, (64 - bits) as u32),
{
    let mask = if rook { rook_mask(sq) } else { bishop_mask(sq) };
    let shift: u32 = 64 - bits;
    let table_size: usize = (1u64 << (bits as u64)) as usize;
    let offset = table.len();
    proof {
        magic_word_facts(0, 0, 0, 0, shift as u64);
        assert(table_size == region_size(shift));
    }
    let ghost before = table@;
    let mut k: usize = 0;
    while k < table_size
        invariant
            k <= table_size,
            table.len() == offset + k,
            forall|j: int| 0 <= j < offset ==> table@[j] == before[j],
            forall|j: int| offset <= j < offset + k ==> table@[j] == 0,
        decreases table_size - k,
    {
        table.push(0);
        k += 1;
    }
    let entry = MagicEntry { mask, magic, shift, offset };
    if fill_square(table, rook, sq, entry) {
        Some(entry)
    } else {
        None
    }
}

/// The magic multiplier and index bits of the slider on `s` make a
/// destructive collision.
pub open spec fn square_collides(rook: bool, s: int) -> bool {
    if rook {
        magic_collides(true, s, rook_magic_seq()[s], (64 - rook_bits_seq()[s]) as u32)
    } else {
        magic_collides(false, s, bishop_magic_seq()[s], (64 - bishop_bits_seq()[s]) as u32)
    }
}

/// Builds the magic lookup tables of both sliders.  Returns `None` when two
/// occupancies with different attacks meet in one slot of a square's table,
/// which the magic numbers here are chosen never to do.
pub fn init_magics() -> (r: Option<MagicTables>)
    ensures
        r matches Some(t) ==> t.wf(),
        r is None <==> exists|rook: bool, s: int| 0 <= s < 64 && #[trigger] square_collides(rook, s),
{
    let rook_numbers = rook_magic_numbers();
    let bishop_numbers = bishop_magic_numbers();
    let rook_sizes = rook_bits();
    let bishop_sizes = bishop_bits();
    let mut table: Vec<u64> = Vec::new();
    let mut rook_entries: Vec<MagicEntry> = Vec::new();
    let mut sq: u32 = 0;
    while sq < 64
        invariant
            sq <= 64,
            rook_numbers.len() == 64,
            rook_sizes.len() == 64,
            rook_numbers@ == rook_magic_seq(),
            rook_sizes@ == rook_bits_seq(),
            forall|s: int| 0 <= s < sq ==> !#[trigger] square_collides(true, s),
            forall|i: int| 0 <= i < 64 ==> 5 <= #[trigger] rook_sizes@[i] <= 12,
            table.len() <= sq * 4096,
            rook_entries.len() == sq,
            forall|s: int| 0 <= s < sq ==> #[trigger] entry_ok(table@, rook_entries@[s], true, s),
        decreases 64 - sq,
    {
        let ghost before = table@;
        match build_square(&mut table, true, sq, rook_numbers[sq as usize], rook_sizes[sq as usize]) {
            Some(e) => {
                proof {
                    assert forall|s: int| 0 <= s < sq implies #[trigger] entry_ok(table@, rook_entries@[s], true, s) by {
                        lemma_entry_ok_prefix(before, table@, rook_entries@[s], true, s);
                    }
                }
                rook_entries.push(e);
            },
            None => {
                assert(square_collides(true, sq as int));
                return None;
            },
        }
        sq += 1;
    }
    let mut bishop_entries: Vec<MagicEntry> = Vec::new();
    sq = 0;
    while sq < 64
        invariant
            sq <= 64,
            bishop_numbers.len() == 64,
            bishop_sizes.len() == 64,
            bishop_numbers@ == bishop_magic_seq(),
            bishop_sizes@ == bishop_bits_seq(),
            forall|s: int| 0 <= s < 64 ==> !#[trigger] square_collides(true, s),
            forall|s: int| 0 <= s < sq ==> !#[trigger] square_collides(false, s),
            forall|i: int| 0 <= i < 64 ==> 5 <= #[trigger] bishop_sizes@[i] <= 12,
            table.len() <= (64 + sq) * 4096,
            rook_entries.len() == 64,
            forall|s: int| 0 <= s < 64 ==> #[trigger] entry_ok(table@, rook_entries@[s], true, s),
            bishop_entries.len() == sq,
            forall|s: int| 0 <= s < sq ==> #[trigger] entry_ok(table@, bishop_entries@[s], false, s),
        decreases 64 - sq,
    {
        let ghost before = table@;
        match build_square(&mut table, false, sq, bishop_numbers[sq as usize], bishop_sizes[sq as usize]) {
            Some(e) => {
                proof {
                    assert forall|s: int| 0 <= s < 64 implies #[trigger] entry_ok(table@, rook_entries@[s], true, s) by {
                        lemma_entry_ok_prefix(before, table@, rook_entries@[s], true, s);
                    }
                    assert forall|s: int| 0 <= s < sq implies #[trigger] entry_ok(table@, bishop_entries@[s], false, s) by {
                        lemma_entry_ok_prefix(before, table@, bishop_entries@[s], false, s);
                    }
                }
                bishop_entries.push(e);
            },
            None => {
                assert(square_collides(false, sq as int));
                return None;
            },
        }
        sq += 1;
    }
    proof {
        assert forall|rook: bool, s: int| 0 <= s < 64 implies !#[trigger] square_collides(rook, s) by {
            if rook {
                assert(!square_collides(true, s));
            } else {
                assert(!square_collides(false, s));
            }
        }
    }
    Some(MagicTables { rook_magics: rook_entries, bishop_magics: bishop_entries, table })
}

/// Marker type of the slider attack interface.
pub struct SliderAttacks;

} // verus!
