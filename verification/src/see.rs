use vstd::prelude::*;
use vstd::std_specs::bits::u64_trailing_zeros;
use crate::attacks::{
    absdiff, bishop_attack, file_of, lemma_bishop_symmetric, lemma_ray_square_facts, lemma_rook_symmetric, on_ray, piece_attacks, rank_of,
    ray_clear, ray_dist, ray_on_board, ray_square, rook_attack, steps, valid_dir,
};
use crate::bitboard::{bit_set, lemma_bit_and, lemma_bit_or, lemma_bit_single, lemma_bit_xor, lemma_bit_zero, lemma_bits_ext, lemma_lsb};
use crate::board::{
    attacker_bits, attacker_on, bishop_bits, is_attacker_bits, is_bishop_bits, is_rook_bits, lemma_clear_bit_smaller,
    rook_bits, Board,
};
use crate::types::{lemma_move_squares, piece_type_from_index, see_value, spec_from_sq, spec_to_sq, Color, Piece, PieceType};

verus! {

/// A word whose bits are the squares below `n` for which `p` holds.
proof fn lemma_word_for(p: spec_fn(int) -> bool, n: int) -> (x: u64)
    requires
        0 <= n <= 64,
    ensures
        forall|s: int| #[trigger] bit_set(x, s) == (0 <= s < n && p(s)),
    decreases n,
{
    if n == 0 {
        assert forall|s: int| #[trigger] bit_set(0u64, s) == (0 <= s < n && p(s)) by {
            lemma_bit_zero(s);
        }
        0u64
    } else {
        let y = lemma_word_for(p, n - 1);
        if p(n - 1) {
            let k = (n - 1) as u64;
            let x = y | (1u64 << k);
            assert forall|s: int| #[trigger] bit_set(x, s) == (0 <= s < n && p(s)) by {
                lemma_bit_or(y, 1u64 << k, s);
                lemma_bit_single(k, s);
            }
            x
        } else {
            y
        }
    }
}

/// The named attack words have the bits they describe.
proof fn lemma_named_words(pos: [Option<Piece>; 64], occ: u64, sq: int)
    ensures
        is_bishop_bits(bishop_bits(sq, occ), sq, occ),
        is_rook_bits(rook_bits(sq, occ), sq, occ),
        is_attacker_bits(attacker_bits(pos, occ, sq), pos, occ, sq),
{
    let b = lemma_word_for(|t: int| bishop_attack(sq, occ, t), 64);
    assert(is_bishop_bits(b, sq, occ)) by {
        assert forall|t: int| bit_set(b, t) == bishop_attack(sq, occ, t) by {
            if bishop_attack(sq, occ, t) {
                assert(0 <= t < 64);
            }
        }
    }
    let r = lemma_word_for(|t: int| rook_attack(sq, occ, t), 64);
    assert(is_rook_bits(r, sq, occ)) by {
        assert forall|t: int| bit_set(r, t) == rook_attack(sq, occ, t) by {
            if rook_attack(sq, occ, t) {
                assert(0 <= t < 64);
            }
        }
    }
    let a = lemma_word_for(|s: int| attacker_on(pos, occ, sq, s), 64);
    assert(is_attacker_bits(a, pos, occ, sq));
}

/// `t` lies on a diagonal through `x`, away from it.
pub open spec fn diagonal_of(x: int, t: int) -> bool {
    absdiff(rank_of(x), rank_of(t)) == absdiff(file_of(x), file_of(t)) && rank_of(x) != rank_of(t)
}

/// `t` lies on the rank or the file of `x`, away from it.
pub open spec fn straight_of(x: int, t: int) -> bool {
    (rank_of(x) == rank_of(t) && file_of(x) != file_of(t)) || (file_of(x) == file_of(t) && rank_of(x) != rank_of(t))
}

/// A square reached along a ray lies on a diagonal of the start for a
/// diagonal direction, on its rank or file for a straight one.
proof fn lemma_ray_line(s: int, occ: u64, dr: int, df: int, t: int)
    requires
        0 <= s < 64,
        valid_dir(dr, df),
        on_ray(s, occ, dr, df, t),
    ensures
        dr != 0 && df != 0 ==> diagonal_of(s, t),
        dr == 0 || df == 0 ==> straight_of(s, t),
{
    lemma_ray_square_facts(s, dr, df, ray_dist(s, dr, df, t));
}

/// A piece on `x` of a type other than the king that attacks `t` on a
/// diagonal of `x` is a pawn, a bishop or a queen; one that attacks `t` on
/// the rank or file of `x` is a rook or a queen.
proof fn lemma_attack_line(pt: PieceType, c: Color, x: int, t: int, occ: u64)
    requires
        0 <= x < 64,
        pt != PieceType::King,
        piece_attacks(pt, c, x, t, occ),
    ensures
        diagonal_of(x, t) ==> pt == PieceType::Pawn || pt == PieceType::Bishop || pt == PieceType::Queen,
        straight_of(x, t) ==> pt == PieceType::Rook || pt == PieceType::Queen,
{
    match pt {
        PieceType::Bishop => {
            if on_ray(x, occ, 1, 1, t) { lemma_ray_line(x, occ, 1, 1, t); }
            if on_ray(x, occ, 1, -1, t) { lemma_ray_line(x, occ, 1, -1, t); }
            if on_ray(x, occ, -1, 1, t) { lemma_ray_line(x, occ, -1, 1, t); }
            if on_ray(x, occ, -1, -1, t) { lemma_ray_line(x, occ, -1, -1, t); }
        },
        PieceType::Rook => {
            if on_ray(x, occ, 1, 0, t) { lemma_ray_line(x, occ, 1, 0, t); }
            if on_ray(x, occ, -1, 0, t) { lemma_ray_line(x, occ, -1, 0, t); }
            if on_ray(x, occ, 0, 1, t) { lemma_ray_line(x, occ, 0, 1, t); }
            if on_ray(x, occ, 0, -1, t) { lemma_ray_line(x, occ, 0, -1, t); }
        },
        _ => {},
    }
}

/// Emptying one occupied square `sq` keeps every ray open that was open,
/// and a ray it opens passes `sq` on the way: the target then lies on the
/// same kind of line through `sq`.
proof fn lemma_ray_opened(s: int, occ: u64, occ2: u64, sq: int, dr: int, df: int, t: int)
    requires
        0 <= s < 64,
        valid_dir(dr, df),
        forall|x: int| #[trigger] bit_set(occ2, x) == (bit_set(occ, x) && x != sq),
    ensures
        on_ray(s, occ, dr, df, t) ==> on_ray(s, occ2, dr, df, t),
        on_ray(s, occ2, dr, df, t) && !on_ray(s, occ, dr, df, t) ==> {
            &&& 0 <= sq < 64
            &&& dr != 0 && df != 0 ==> diagonal_of(sq, t)
            &&& dr == 0 || df == 0 ==> straight_of(sq, t)
        },
{
    let k = ray_dist(s, dr, df, t);
    if on_ray(s, occ, dr, df, t) {
        assert forall|j: int| 1 <= j < k implies !#[trigger] bit_set(occ2, ray_square(s, dr, df, j)) by {
            assert(!bit_set(occ, ray_square(s, dr, df, j)));
        }
    }
    if on_ray(s, occ2, dr, df, t) && !on_ray(s, occ, dr, df, t) {
        assert(!ray_clear(s, occ, dr, df, k));
        let j = choose|j: int| 1 <= j < k && #[trigger] bit_set(occ, ray_square(s, dr, df, j));
        assert(!bit_set(occ2, ray_square(s, dr, df, j)));
        assert(ray_square(s, dr, df, j) == sq);
        assert(ray_on_board(s, dr, df, j)) by {
            assert(ray_on_board(s, dr, df, k));
        }
        lemma_ray_square_facts(s, dr, df, j);
        lemma_ray_square_facts(s, dr, df, k);
    }
}

impl Board {
    /// The pieces an exchange on `to` weighs when `occ` is occupied: every
    /// piece that attacks `to`, and once the exchange has begun only those
    /// still standing on an occupied square.
    pub open spec fn see_attackers(&self, to: int, occ: u64, first: bool) -> u64 {
        if first {
            attacker_bits(self.piece_on_sq, occ, to)
        } else {
            attacker_bits(self.piece_on_sq, occ, to) & occ
        }
    }

    /// Taking the piece on `sq` (of type index `k`, attacking `to`) off the
    /// occupied squares makes a piece on `s` attack `to` exactly when it did
    /// before, or it is a bishop or queen seen along a diagonal from `to`
    /// after a pawn, bishop or queen left, or a rook or queen seen along a
    /// rank or file after a rook or queen left.
    proof fn lemma_xray_bit(&self, to: int, occ: u64, occ2: u64, sq: int, k: int, s: int)
        requires
            self.pos_ok(),
            0 <= to < 64,
            0 <= sq < 64,
            0 <= k < 5,
            bit_set(self.pieces[k].0, sq),
            attacker_on(self.piece_on_sq, occ, to, sq),
            forall|x: int| #[trigger] bit_set(occ2, x) == (bit_set(occ, x) && x != sq),
            bit_set(occ2, s),
        ensures
            attacker_on(self.piece_on_sq, occ2, to, s) == (attacker_on(self.piece_on_sq, occ, to, s) || ((k == 0 || k
                == 2 || k == 4) && bishop_attack(to, occ2, s) && (bit_set(self.pieces[2].0, s) || bit_set(
                self.pieces[4].0,
                s,
            ))) || ((k == 3 || k == 4) && rook_attack(to, occ2, s) && (bit_set(self.pieces[3].0, s) || bit_set(
                self.pieces[4].0,
                s,
            )))),
    {
        let pos = self.piece_on_sq;
        assert(pos[sq] is Some);
        let q = pos[sq].unwrap();
        assert(q.spec_piece_type().spec_index() == k);
        lemma_attack_line(q.spec_piece_type(), q.spec_color(), sq, to, occ);
        assert(0 <= s < 64);
        lemma_bishop_symmetric(to, occ2, s);
        lemma_rook_symmetric(to, occ2, s);
        lemma_ray_opened(s, occ, occ2, sq, 1, 1, to);
        lemma_ray_opened(s, occ, occ2, sq, 1, -1, to);
        lemma_ray_opened(s, occ, occ2, sq, -1, 1, to);
        lemma_ray_opened(s, occ, occ2, sq, -1, -1, to);
        lemma_ray_opened(s, occ, occ2, sq, 1, 0, to);
        lemma_ray_opened(s, occ, occ2, sq, -1, 0, to);
        lemma_ray_opened(s, occ, occ2, sq, 0, 1, to);
        lemma_ray_opened(s, occ, occ2, sq, 0, -1, to);
        assert(bit_set(self.pieces[2].0, s) == (pos[s] is Some && pos[s].unwrap().spec_piece_type().spec_index() == 2));
        assert(bit_set(self.pieces[3].0, s) == (pos[s] is Some && pos[s].unwrap().spec_piece_type().spec_index() == 3));
        assert(bit_set(self.pieces[4].0, s) == (pos[s] is Some && pos[s].unwrap().spec_piece_type().spec_index() == 4));
    }

    /// The attackers after the piece on `sq` (of type index `k`) has
    /// captured, as the exchange keeps them: the pieces it uncovers behind it
    /// added, those no longer on an occupied square dropped.
    pub open spec fn see_next_attackers(&self, to: int, occ: u64, attackers: u64, sq: u8, k: int) -> u64 {
        let occ2 = occ ^ (1u64 << sq);
        let a1 = if k == 0 || k == 2 || k == 4 {
            attackers | (bishop_bits(to, occ2) & (self.pieces[2].0 | self.pieces[4].0))
        } else {
            attackers
        };
        let a2 = if k == 3 || k == 4 {
            a1 | (rook_bits(to, occ2) & (self.pieces[3].0 | self.pieces[4].0))
        } else {
            a1
        };
        a2 & occ2
    }

    /// After a capture from `sq`, the attackers the exchange keeps are the
    /// pieces that attack `to` on the new occupancy.
    proof fn lemma_xray_step(&self, to: int, occ: u64, first: bool, sq: u8, k: int)
        requires
            self.pos_ok(),
            0 <= to < 64,
            sq < 64,
            0 <= k < 5,
            bit_set(occ, sq as int),
            bit_set(self.pieces[k].0, sq as int),
            bit_set(self.see_attackers(to, occ, first), sq as int),
        ensures
            self.see_next_attackers(to, occ, self.see_attackers(to, occ, first), sq, k) == self.see_attackers(
                to,
                occ ^ (1u64 << sq),
                false,
            ),
    {
        let pos = self.piece_on_sq;
        let attackers = self.see_attackers(to, occ, first);
        let occ2 = occ ^ (1u64 << sq);
        lemma_named_words(pos, occ, to);
        lemma_named_words(pos, occ2, to);
        assert forall|x: int| #[trigger] bit_set(occ2, x) == (bit_set(occ, x) && x != sq) by {
            lemma_bit_xor(occ, 1u64 << sq, x);
            lemma_bit_single(sq as u64, x);
        }
        lemma_bit_and(attacker_bits(pos, occ, to), occ, sq as int);
        assert(attacker_on(pos, occ, to, sq as int));
        let bq = bishop_bits(to, occ2) & (self.pieces[2].0 | self.pieces[4].0);
        let rq = rook_bits(to, occ2) & (self.pieces[3].0 | self.pieces[4].0);
        let a1 = if k == 0 || k == 2 || k == 4 {
            attackers | bq
        } else {
            attackers
        };
        let a2 = if k == 3 || k == 4 {
            a1 | rq
        } else {
            a1
        };
        let lhs = self.see_next_attackers(to, occ, attackers, sq, k);
        let rhs = self.see_attackers(to, occ2, false);
        assert(lhs == a2 & occ2);
        assert forall|s: int| 0 <= s < 64 implies bit_set(lhs, s) == bit_set(rhs, s) by {
            lemma_bit_and(a2, occ2, s);
            lemma_bit_or(attackers, bq, s);
            lemma_bit_or(a1, rq, s);
            lemma_bit_and(bishop_bits(to, occ2), self.pieces[2].0 | self.pieces[4].0, s);
            lemma_bit_or(self.pieces[2].0, self.pieces[4].0, s);
            lemma_bit_and(rook_bits(to, occ2), self.pieces[3].0 | self.pieces[4].0, s);
            lemma_bit_or(self.pieces[3].0, self.pieces[4].0, s);
            lemma_bit_and(attacker_bits(pos, occ, to), occ, s);
            lemma_bit_and(attacker_bits(pos, occ2, to), occ2, s);
            if bit_set(occ2, s) {
                self.lemma_xray_bit(to, occ, occ2, sq as int, k, s);
            }
        }
        lemma_bits_ext(lhs, rhs);
    }

    /// The piece type that `least_kind` finds is the cheapest, from `j` up,
    /// with a square in `att`: one below the king has a square there, and no
    /// type before it has; the king stands for none below it.
    pub proof fn lemma_least_kind_found(&self, att: u64, j: int)
        requires
            0 <= j,
        ensures
            self.least_kind(att, j) < 5 ==> att & self.pieces[self.least_kind(att, j)].0 != 0,
            j <= 5 ==> j <= self.least_kind(att, j),
            forall|i: int| j <= i < self.least_kind(att, j) && i < 5 ==> att & #[trigger] self.pieces[i].0 == 0,
        decreases 5 - j,
    {
        if j < 5 && att & self.pieces[j].0 == 0 {
            self.lemma_least_kind_found(att, j + 1);
        }
    }

    /// The exchange on `to` with the attackers taken afresh at every step:
    /// the side `stm` recaptures with its cheapest piece among those that
    /// attack `to` on the occupied squares `occupied`; a king recaptures only
    /// when nothing of the other side attacks; each side stops when going on
    /// does not pay.  `swap` is the balance to beat and `res` whether the side
    /// that started is ahead; `first` marks the first reply, where the piece
    /// that made the first capture still counts from its origin square.
    pub open spec fn see_play(&self, to: int, occupied: u64, stm: Color, swap: int, res: int, first: bool) -> bool
        decreases (if first { 1int } else { 0int }), occupied,
    {
        let attackers = self.see_attackers(to, occupied, first);
        let stm_att = attackers & self.colors[stm.spec_index()].0;
        if stm_att == 0 {
            res != 0
        } else {
            let k = self.least_kind(stm_att, 0);
            if k >= 5 {
                ((attackers & self.colors[stm.spec_flip().spec_index()].0) == 0) == (res != 0)
            } else {
                let sq = u64_trailing_zeros(stm_att & self.pieces[k].0) as u8;
                let res2 = 1 - res;
                let swap2 = see_value(piece_type_from_index(k)) - swap;
                if swap2 < res2 {
                    res2 != 0
                } else {
                    proof {
                        if !first {
                            self.lemma_least_kind_found(stm_att, 0);
                            lemma_lsb(stm_att & self.pieces[k].0);
                            lemma_bit_and(stm_att, self.pieces[k].0, sq as int);
                            lemma_bit_and(attackers, self.colors[stm.spec_index()].0, sq as int);
                            lemma_bit_and(attacker_bits(self.piece_on_sq, occupied, to), occupied, sq as int);
                            lemma_clear_bit_smaller(occupied, sq as u64);
                        }
                    }
                    self.see_play(to, occupied ^ (1u64 << sq), stm.spec_flip(), swap2, res2, false)
                }
            }
        }
    }

    /// The exchange as `see_exchange` keeps its attackers, adding the pieces
    /// uncovered behind each capturing piece, is the exchange with the
    /// attackers taken afresh at every step.
    proof fn lemma_exchange_plays(&self, to: int, occ: u64, stm: Color, swap: int, res: int, first: bool)
        requires
            self.pos_ok(),
            0 <= to < 64,
            first ==> forall|s: int|
                #[trigger] bit_set(self.see_attackers(to, occ, true) & self.colors[stm.spec_index()].0, s) ==> bit_set(
                    occ,
                    s,
                ),
        ensures
            self.see_exchange(to, occ, self.see_attackers(to, occ, first), stm, swap, res, first) == self.see_play(
                to,
                occ,
                stm,
                swap,
                res,
                first,
            ),
        decreases (if first { 1int } else { 0int }), occ,
    {
        let attackers = self.see_attackers(to, occ, first);
        let stm_att = attackers & self.colors[stm.spec_index()].0;
        if stm_att != 0 {
            let k = self.least_kind(stm_att, 0);
            if k < 5 {
                let sq = u64_trailing_zeros(stm_att & self.pieces[k].0) as u8;
                let res2 = 1 - res;
                let swap2 = see_value(piece_type_from_index(k)) - swap;
                if !(swap2 < res2) {
                    self.lemma_least_kind_found(stm_att, 0);
                    lemma_lsb(stm_att & self.pieces[k].0);
                    lemma_bit_and(stm_att, self.pieces[k].0, sq as int);
                    lemma_bit_and(attackers, self.colors[stm.spec_index()].0, sq as int);
                    if !first {
                        lemma_bit_and(attacker_bits(self.piece_on_sq, occ, to), occ, sq as int);
                    }
                    assert(bit_set(occ, sq as int));
                    self.lemma_xray_step(to, occ, first, sq, k);
                    if !first {
                        lemma_clear_bit_smaller(occ, sq as u64);
                    }
                    self.lemma_exchange_plays(to, occ ^ (1u64 << sq), stm.spec_flip(), swap2, res2, false);
                }
            }
        }
    }

    /// The outcome of the exchange that `m` starts against `threshold`,
    /// played with the attackers taken afresh at every step.
    pub open spec fn see_play_result(&self, m: u16, threshold: i32) -> bool {
        let start = self.see_start(m, threshold);
        let from = spec_from_sq(m);
        let to = spec_to_sq(m);
        if start < 0 {
            false
        } else {
            match self.piece_on_sq[from as int] {
                None => false,
                Some(p) => {
                    let swap = see_value(p.spec_piece_type()) - start;
                    swap <= 0 || self.see_play(
                        to as int,
                        self.occ() ^ (1u64 << from) ^ (1u64 << to),
                        self.side_to_move.spec_flip(),
                        swap,
                        1,
                        true,
                    )
                },
            }
        }
    }

    /// The static exchange that `see_ge` plays weighs, at every step, exactly
    /// the pieces that attack the target square on the squares still
    /// occupied: a slider standing behind a piece that has just captured
    /// joins the exchange once that piece has left.  So the outcome is the
    /// cheapest-attacker exchange with the attackers taken afresh after every
    /// capture, for a move of a piece of the side to move (or from an empty
    /// square).
    pub proof fn lemma_see_weighs_current_attackers(&self, m: u16, threshold: i32)
        requires
            self.pos_ok(),
            self.piece_on_sq[spec_from_sq(m) as int] matches Some(p) ==> p.spec_color() == self.side_to_move,
        ensures
            self.see_result(m, threshold) == self.see_play_result(m, threshold),
    {
        let from = spec_from_sq(m);
        let to = spec_to_sq(m);
        lemma_move_squares(m);
        let pos = self.piece_on_sq;
        let occ = self.occ() ^ (1u64 << from) ^ (1u64 << to);
        let opp = self.side_to_move.spec_flip();
        lemma_named_words(pos, occ, to as int);
        assert forall|s: int|
            #[trigger] bit_set(self.see_attackers(to as int, occ, true) & self.colors[opp.spec_index()].0, s) implies bit_set(
            occ,
            s,
        ) by {
            lemma_bit_and(attacker_bits(pos, occ, to as int), self.colors[opp.spec_index()].0, s);
            assert(attacker_on(pos, occ, to as int, s));
            assert(pos[s].unwrap().spec_color() == opp);
            assert(s != from as int);
            assert(s != to as int);
            lemma_bit_or(self.colors[0].0, self.colors[1].0, s);
            lemma_bit_xor(self.occ() ^ (1u64 << from), 1u64 << to, s);
            lemma_bit_xor(self.occ(), 1u64 << from, s);
            lemma_bit_single(from as u64, s);
            lemma_bit_single(to as u64, s);
        }
        self.lemma_exchange_plays(to as int, occ, opp, see_value(pos[from as int].unwrap().spec_piece_type()) - self.see_start(m, threshold), 1, true);
    }
}

} // verus!
