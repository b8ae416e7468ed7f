use vstd::prelude::*;
use crate::attacks::{
    bishop_attacks, king_attacks, knight_attacks, pawn_attacks, pawn_capture_target, piece_attacks,
    queen_attacks, rook_attacks,
};
use crate::bitboard::{
    bit_set, lemma_bit_and, lemma_bit_not, lemma_bit_or, lemma_bit_shl, lemma_bit_shr, lemma_bit_zero, lemma_rank_bits,
    Bitboard, RANK_1, RANK_3, RANK_6, RANK_8,
};
use crate::board::{has_square, is_castle_flag, king_square, lemma_castle_masks, Board};
use crate::types::{
    flag_ok, lemma_move_roundtrip, spec_flag, spec_from_sq, spec_is_capture, spec_is_promotion, spec_move_bits, spec_to_sq,
    piece_type_from_index, Color, Move, Piece, PieceType, Square,
};

verus! {

/// The moves generated for one position, in the order they were generated.
pub struct MoveList {
    pub moves: Vec<Move>,
    pub count: usize,
}

impl MoveList {
    /// `count` is the number of moves held.
    pub open spec fn wf(&self) -> bool {
        self.count == self.moves@.len()
    }

    pub fn new() -> (l: MoveList)
        ensures
            l.wf(),
            l.moves@.len() == 0,
    {
        MoveList { moves: Vec::new(), count: 0 }
    }

    /// Appends `m`.
    pub fn push(&mut self, m: Move)
        requires
            old(self).wf(),
        ensures
            final(self).wf(),
            final(self).moves@ == old(self).moves@.push(m),
    {
        self.moves.push(m);
        self.count = self.moves.len();
    }
}

impl Default for MoveList {
    fn default() -> (l: MoveList)
        ensures
            l.wf(),
            l.moves@.len() == 0,
    {
        MoveList::new()
    }
}

/// What move generation takes for granted beyond a consistent board: a
/// castling right only while that side's king stands on its home square, and
/// an en passant square, if any, empty and on the third or sixth rank.
pub open spec fn setup_ok(b: &Board) -> bool {
    &&& (b.has_right(Color::White, true) || b.has_right(Color::White, false)) ==> b.piece_on_sq[4]
        == Some(Piece::spec_new(Color::White, PieceType::King))
    &&& (b.has_right(Color::Black, true) || b.has_right(Color::Black, false)) ==> b.piece_on_sq[60]
        == Some(Piece::spec_new(Color::Black, PieceType::King))
    &&& (b.en_passant matches Some(e) ==> (e.0 / 8 == 2 || e.0 / 8 == 5) && b.piece_on_sq[e.0 as int] is None)
}

/// The boards move generation works on: bitboards that agree with the
/// mailbox, and an en passant square on the board.
pub open spec fn gen_ready(b: &Board) -> bool {
    b.pos_ok() && (b.en_passant matches Some(e) ==> e.0 < 64)
}

/// `after` starts with `before`.
pub open spec fn keeps_prefix(before: Seq<Move>, after: Seq<Move>) -> bool {
    before.len() <= after.len() && forall|i: int| 0 <= i < before.len() ==> after[i] == before[i]
}

/// `m` is one of the moves of `moves`.
pub open spec fn listed(moves: Seq<Move>, m: u16) -> bool {
    exists|i: int| 0 <= i < moves.len() && #[trigger] moves[i].0 == m
}

/// A list that keeps its prefix keeps every move listed in it.
proof fn lemma_listed_grows(a: Seq<Move>, b: Seq<Move>)
    requires
        keeps_prefix(a, b),
    ensures
        forall|m: u16| listed(a, m) ==> #[trigger] listed(b, m),
{
    assert forall|m: u16| listed(a, m) implies #[trigger] listed(b, m) by {
        let i = choose|i: int| 0 <= i < a.len() && a[i].0 == m;
        assert(b[i] == a[i]);
    }
}

/// The move just pushed is listed.
proof fn lemma_listed_push(a: Seq<Move>, m: Move)
    ensures
        listed(a.push(m), m.0),
        forall|x: u16| listed(a, x) ==> #[trigger] listed(a.push(m), x),
{
    assert(a.push(m)[a.len() as int] == m);
    lemma_listed_grows(a, a.push(m));
}

/// No move of `s` between `lo` and `hi` occurs twice.
pub open spec fn distinct_in(s: Seq<Move>, lo: int, hi: int) -> bool {
    forall|i: int, j: int| lo <= i < j < hi ==> #[trigger] s[i].0 != #[trigger] s[j].0
}

/// A run without repeats stays so when a move that is not in it is added.
proof fn lemma_distinct_push(s: Seq<Move>, lo: int, m: Move)
    requires
        0 <= lo <= s.len(),
        distinct_in(s, lo, s.len() as int),
        forall|i: int| lo <= i < s.len() ==> #[trigger] s[i].0 != m.0,
    ensures
        distinct_in(s.push(m), lo, s.len() + 1int),
{
    let t = s.push(m);
    assert forall|i: int, j: int| lo <= i < j < t.len() implies #[trigger] t[i].0 != #[trigger] t[j].0 by {
        if j < s.len() {
            assert(t[i] == s[i] && t[j] == s[j]);
        } else {
            assert(t[i] == s[i]);
        }
    }
}

/// Two runs without repeats, where `p` holds of every move of the second
/// and of none of the first, make one run without repeats.
proof fn lemma_distinct_join(s: Seq<Move>, lo: int, mid: int, hi: int, p: spec_fn(u16) -> bool)
    requires
        0 <= lo <= mid <= hi <= s.len(),
        distinct_in(s, lo, mid),
        distinct_in(s, mid, hi),
        forall|i: int| lo <= i < mid ==> !p(#[trigger] s[i].0),
        forall|i: int| mid <= i < hi ==> p(#[trigger] s[i].0),
    ensures
        distinct_in(s, lo, hi),
{
    assert forall|i: int, j: int| lo <= i < j < hi implies #[trigger] s[i].0 != #[trigger] s[j].0 by {
        if i < mid && mid <= j {
            assert(!p(s[i].0));
            assert(p(s[j].0));
        }
    }
}

/// What a longer list keeps of a run of a shorter one it extends.
proof fn lemma_distinct_prefix(a: Seq<Move>, b: Seq<Move>, lo: int, hi: int)
    requires
        keeps_prefix(a, b),
        0 <= lo <= hi <= a.len(),
        distinct_in(a, lo, hi),
    ensures
        distinct_in(b, lo, hi),
{
    assert forall|i: int, j: int| lo <= i < j < hi implies #[trigger] b[i].0 != #[trigger] b[j].0 by {
        assert(b[i] == a[i] && b[j] == a[j]);
    }
}

/// Every move of `moves` from index `start` on is pseudo-legal on `b`,
/// where `b` meets `setup_ok`.
pub open spec fn sound_from(b: &Board, moves: Seq<Move>, start: int) -> bool {
    forall|i: int| start <= i < moves.len() ==> (setup_ok(b) ==> b.spec_pseudo_legal(#[trigger] moves[i].0))
}

/// Every move of `moves` from index `start` on captures or promotes.
pub open spec fn tactical_from(moves: Seq<Move>, start: int) -> bool {
    forall|i: int| start <= i < moves.len() ==> (spec_is_capture(#[trigger] moves[i].0) || spec_is_promotion(moves[i].0))
}

/// A move with flag `flag` from `from` to `to` is pseudo-legal on `b` where `b` meets `setup_ok`.
pub open spec fn sound_move(b: &Board, from: int, to: int, flag: u16) -> bool {
    setup_ok(b) ==> b.spec_pseudo_legal(spec_move_bits(from as u8, to as u8, flag))
}

/// The pieces of color `c` and type `pt` as the mailbox holds them.
pub open spec fn piece_at(b: &Board, s: int, c: Color, pt: PieceType) -> bool {
    0 <= s < 64 && b.piece_on_sq[s] == Some(Piece::spec_new(c, pt))
}

proof fn lemma_piece_parts(c: Color, pt: PieceType)
    ensures
        Piece::spec_new(c, pt).wf(),
        Piece::spec_new(c, pt).spec_color() == c,
        Piece::spec_new(c, pt).spec_piece_type() == pt,
{
}

/// Appends a move with flag `flag` from `from` to each square of `targets`,
/// lowest square first.
fn push_targets(board: &Board, list: &mut MoveList, from: u8, targets: u64, flag: u16)
    requires
        old(list).wf(),
        from < 64,
        forall|t: int| #[trigger] bit_set(targets, t) ==> sound_move(board, from as int, t, flag),
        flag_ok(flag),
    ensures
        final(list).wf(),
        keeps_prefix(old(list).moves@, final(list).moves@),
        sound_from(board, final(list).moves@, old(list).moves@.len() as int),
        (flag / 16384) % 2 == 1 ==> tactical_from(final(list).moves@, old(list).moves@.len() as int),
        forall|t: int| #[trigger] bit_set(targets, t) ==> listed(final(list).moves@, spec_move_bits(from, t as u8, flag)),
        distinct_in(final(list).moves@, old(list).moves@.len() as int, final(list).moves@.len() as int),
        forall|i: int|
            old(list).moves@.len() <= i < final(list).moves@.len() ==> spec_from_sq(#[trigger] final(list).moves@[i].0)
                == from && spec_flag(final(list).moves@[i].0) == flag && bit_set(
                targets,
                spec_to_sq(final(list).moves@[i].0) as int,
            ),
{
    let ghost init = list.moves@;
    let mut bb = Bitboard::new(targets);
    while bb.is_not_empty()
        invariant
            list.wf(),
            from < 64,
            flag_ok(flag),
            keeps_prefix(init, list.moves@),
            sound_from(board, list.moves@, init.len() as int),
            (flag / 16384) % 2 == 1 ==> tactical_from(list.moves@, init.len() as int),
            forall|t: int| #[trigger] bit_set(bb.0, t) ==> sound_move(board, from as int, t, flag),
            forall|t: int| #[trigger] bit_set(bb.0, t) ==> bit_set(targets, t),
            forall|t: int|
                #[trigger] bit_set(targets, t) && !bit_set(bb.0, t) ==> listed(list.moves@, spec_move_bits(from, t as u8, flag)),
            distinct_in(list.moves@, init.len() as int, list.moves@.len() as int),
            forall|i: int|
                init.len() <= i < list.moves@.len() ==> spec_from_sq(#[trigger] list.moves@[i].0) == from && spec_flag(
                    list.moves@[i].0,
                ) == flag && bit_set(targets, spec_to_sq(list.moves@[i].0) as int) && !bit_set(
                    bb.0,
                    spec_to_sq(list.moves@[i].0) as int,
                ),
        decreases bb.0,
    {
        let ghost before = list.moves@;
        let ghost bb0 = bb.0;
        let to = bb.pop_lsb();
        let m = Move::new(from, to, flag);
        proof {
            assert(sound_move(board, from as int, to as int, flag));
            lemma_move_roundtrip(from, to, flag);
            assert forall|i: int| init.len() <= i < before.len() implies #[trigger] before[i].0 != m.0 by {
                assert(!bit_set(bb0, spec_to_sq(before[i].0) as int));
            }
            lemma_distinct_push(before, init.len() as int, m);
        }
        list.push(m);
        proof {
            assert forall|i: int| init.len() <= i < list.moves@.len() implies spec_from_sq(
                #[trigger] list.moves@[i].0,
            ) == from && spec_flag(list.moves@[i].0) == flag && bit_set(targets, spec_to_sq(list.moves@[i].0) as int)
                && !bit_set(bb.0, spec_to_sq(list.moves@[i].0) as int) by {
                if i < before.len() {
                    assert(list.moves@[i] == before[i]);
                }
            }
            lemma_listed_push(before, m);
            assert forall|t: int| #[trigger] bit_set(targets, t) && !bit_set(bb.0, t) implies listed(
                list.moves@,
                spec_move_bits(from, t as u8, flag),
            ) by {
                if t != to as int {
                    assert(!bit_set(bb0, t));
                }
            }
        }
    }
    proof {
        assert forall|t: int| #[trigger] bit_set(targets, t) implies listed(list.moves@, spec_move_bits(from, t as u8, flag)) by {
            lemma_bit_zero(t);
        }
    }
}

/// The squares a knight, bishop, rook, queen or king on `from` attacks.
fn piece_targets(pt: PieceType, from: u8, occ: u64) -> (b: u64)
    requires
        from < 64,
        pt != PieceType::Pawn,
    ensures
        forall|t: int| #[trigger] bit_set(b, t) == piece_attacks(pt, Color::White, from as int, t, occ),
{
    let sq = Square::new(from);
    match pt {
        PieceType::Knight => knight_attacks(sq).0,
        PieceType::Bishop => bishop_attacks(sq, Bitboard::new(occ)).0,
        PieceType::Rook => rook_attacks(sq, Bitboard::new(occ)).0,
        PieceType::Queen => queen_attacks(sq, Bitboard::new(occ)).0,
        _ => king_attacks(sq).0,
    }
}

/// A knight, bishop, rook, queen or king move to a square it attacks is
/// pseudo-legal when it captures an enemy piece with the capture flag or
/// moves to an empty square with the quiet flag.
proof fn lemma_piece_move_sound(b: &Board, from: int, to: int, pt: PieceType, flag: u16)
    requires
        b.pos_ok(),
        piece_at(b, from, b.side_to_move, pt),
        pt != PieceType::Pawn,
        0 <= to < 64,
        piece_attacks(pt, Color::White, from, to, b.occ()),
        (flag == Move::FLAG_CAPTURE && b.piece_on_sq[to] is Some && b.piece_on_sq[to].unwrap().spec_color()
            != b.side_to_move) || (flag == Move::FLAG_QUIET && b.piece_on_sq[to] is None),
    ensures
        b.spec_pseudo_legal(spec_move_bits(from as u8, to as u8, flag)),
{
    lemma_piece_parts(b.side_to_move, pt);
    lemma_move_roundtrip(from as u8, to as u8, flag);
}

/// Every move of the piece of type `pt` on `s` is listed: each capture of
/// an enemy piece it attacks, and, unless `captures_only`, each step to an
/// empty square it attacks.
pub open spec fn piece_moves_listed(moves: Seq<Move>, b: &Board, pt: PieceType, s: int, captures_only: bool) -> bool {
    &&& forall|t: int|
        piece_attacks(pt, Color::White, s, t, b.occ()) && enemy_at(b, t) ==> #[trigger] listed(
            moves,
            spec_move_bits(s as u8, t as u8, Move::FLAG_CAPTURE),
        )
    &&& !captures_only ==> forall|t: int|
        piece_attacks(pt, Color::White, s, t, b.occ()) && empty_at(b, t) ==> #[trigger] listed(
            moves,
            spec_move_bits(s as u8, t as u8, Move::FLAG_QUIET),
        )
}

proof fn lemma_piece_moves_grow(a: Seq<Move>, c: Seq<Move>, b: &Board, pt: PieceType, s: int, captures_only: bool)
    requires
        keeps_prefix(a, c),
        piece_moves_listed(a, b, pt, s, captures_only),
    ensures
        piece_moves_listed(c, b, pt, s, captures_only),
{
    lemma_listed_grows(a, c);
}

/// Moves of the piece of type `pt` (not a pawn) standing on `from`:
/// captures, then, unless `captures_only`, quiet moves.
fn gen_piece_from(board: &Board, list: &mut MoveList, pt: PieceType, from: u8, captures_only: bool)
    requires
        old(list).wf(),
        board.pos_ok(),
        pt != PieceType::Pawn,
        from < 64,
        piece_at(board, from as int, board.side_to_move, pt),
    ensures
        final(list).wf(),
        keeps_prefix(old(list).moves@, final(list).moves@),
        sound_from(board, final(list).moves@, old(list).moves@.len() as int),
        captures_only ==> tactical_from(final(list).moves@, old(list).moves@.len() as int),
        piece_moves_listed(final(list).moves@, board, pt, from as int, captures_only),
        distinct_in(final(list).moves@, old(list).moves@.len() as int, final(list).moves@.len() as int),
        forall|i: int|
            old(list).moves@.len() <= i < final(list).moves@.len() ==> spec_from_sq(#[trigger] final(list).moves@[i].0)
                == from && (spec_flag(final(list).moves@[i].0) == Move::FLAG_CAPTURE || spec_flag(
                final(list).moves@[i].0,
            ) == Move::FLAG_QUIET),
{
    let side = board.side_to_move;
    let us = board.color_occupancy(side).0;
    let them = board.color_occupancy(side.flip()).0;
    let occ = board.occupancies().0;
    let reach = piece_targets(pt, from, occ);
    let attacks = reach & !us;
    let captures = attacks & them;
    proof {
        assert forall|t: int| #[trigger] bit_set(captures, t) implies sound_move(board, from as int, t, Move::FLAG_CAPTURE) by {
            lemma_bit_and(attacks, them, t);
            lemma_bit_and(reach, !us, t);
            lemma_bit_not(us, t);
            assert(bit_set(them, t) == crate::board::holds_color(board.piece_on_sq, t, side.spec_flip().spec_index()));
            lemma_piece_move_sound(board, from as int, t, pt, Move::FLAG_CAPTURE);
        }
    }
    let ghost init = list.moves@;
    push_targets(board, list, from, captures, Move::FLAG_CAPTURE);
    let ghost p1 = list.moves@;
    proof {
        assert forall|t: int|
            piece_attacks(pt, Color::White, from as int, t, board.occ()) && enemy_at(board, t) implies #[trigger] listed(
                list.moves@,
                spec_move_bits(from, t as u8, Move::FLAG_CAPTURE),
            ) by {
            lemma_bit_and(attacks, them, t);
            lemma_bit_and(reach, !us, t);
            lemma_bit_not(us, t);
            lemma_color_bits(board, t);
            assert(bit_set(us, t) == crate::board::holds_color(board.piece_on_sq, t, side.spec_index()));
            assert(bit_set(captures, t));
        }
    }
    if !captures_only {
        let quiets = attacks & !(us | them);
        proof {
            assert forall|t: int| #[trigger] bit_set(quiets, t) implies sound_move(board, from as int, t, Move::FLAG_QUIET) by {
                lemma_bit_and(attacks, !(us | them), t);
                lemma_bit_and(reach, !us, t);
            lemma_bit_not(us, t);
                lemma_bit_not(us | them, t);
                lemma_bit_or(us, them, t);
                assert(bit_set(them, t) == crate::board::holds_color(board.piece_on_sq, t, side.spec_flip().spec_index()));
                assert(bit_set(us, t) == crate::board::holds_color(board.piece_on_sq, t, side.spec_index()));
                if board.piece_on_sq[t] is Some {
                    assert(board.piece_on_sq[t].unwrap().wf());
                }
                lemma_piece_move_sound(board, from as int, t, pt, Move::FLAG_QUIET);
            }
        }
        push_targets(board, list, from, quiets, Move::FLAG_QUIET);
        proof {
            lemma_distinct_prefix(p1, list.moves@, init.len() as int, p1.len() as int);
            let q = |x: u16| spec_flag(x) == Move::FLAG_QUIET;
            assert forall|i: int| init.len() <= i < p1.len() implies !q(#[trigger] list.moves@[i].0) by {
                assert(list.moves@[i] == p1[i]);
            }
            lemma_distinct_join(list.moves@, init.len() as int, p1.len() as int, list.moves@.len() as int, q);
            assert forall|i: int| init.len() <= i < list.moves@.len() implies spec_from_sq(
                #[trigger] list.moves@[i].0,
            ) == from && (spec_flag(list.moves@[i].0) == Move::FLAG_CAPTURE || spec_flag(list.moves@[i].0)
                == Move::FLAG_QUIET) by {
                if i < p1.len() {
                    assert(list.moves@[i] == p1[i]);
                }
            }
            lemma_listed_grows(p1, list.moves@);
            assert forall|t: int|
                piece_attacks(pt, Color::White, from as int, t, board.occ()) && empty_at(board, t) implies #[trigger] listed(
                    list.moves@,
                    spec_move_bits(from, t as u8, Move::FLAG_QUIET),
                ) by {
                lemma_bit_and(attacks, !(us | them), t);
                lemma_bit_and(reach, !us, t);
                lemma_bit_not(us, t);
                lemma_color_bits(board, t);
                assert(bit_set(us, t) == crate::board::holds_color(board.piece_on_sq, t, side.spec_index()));
                assert(bit_set(quiets, t));
            }
        }
    }
}

/// Moves of every piece of type `pt` (knight, bishop, rook or queen) of the
/// side to move, lowest square first.
fn gen_piece_moves(board: &Board, list: &mut MoveList, pt: PieceType, captures_only: bool)
    requires
        old(list).wf(),
        board.pos_ok(),
        pt != PieceType::Pawn,
    ensures
        final(list).wf(),
        keeps_prefix(old(list).moves@, final(list).moves@),
        sound_from(board, final(list).moves@, old(list).moves@.len() as int),
        captures_only ==> tactical_from(final(list).moves@, old(list).moves@.len() as int),
        forall|s: int|
            piece_at(board, s, board.side_to_move, pt) ==> #[trigger] piece_moves_listed(
                final(list).moves@,
                board,
                pt,
                s,
                captures_only,
            ),
        distinct_in(final(list).moves@, old(list).moves@.len() as int, final(list).moves@.len() as int),
        forall|i: int|
            old(list).moves@.len() <= i < final(list).moves@.len() ==> piece_at(
                board,
                spec_from_sq(#[trigger] final(list).moves@[i].0) as int,
                board.side_to_move,
                pt,
            ) && (spec_flag(final(list).moves@[i].0) == Move::FLAG_CAPTURE || spec_flag(final(list).moves@[i].0)
                == Move::FLAG_QUIET),
{
    let ghost init = list.moves@;
    let mut pieces = board.color_piece_bb(board.side_to_move, pt);
    let ghost all = pieces.0;
    while pieces.is_not_empty()
        invariant
            list.wf(),
            board.pos_ok(),
            pt != PieceType::Pawn,
            keeps_prefix(init, list.moves@),
            sound_from(board, list.moves@, init.len() as int),
            captures_only ==> tactical_from(list.moves@, init.len() as int),
            forall|s: int| #[trigger] bit_set(pieces.0, s) ==> piece_at(board, s, board.side_to_move, pt),
            forall|s: int| #[trigger] bit_set(all, s) == piece_at(board, s, board.side_to_move, pt),
            forall|s: int| #[trigger] bit_set(pieces.0, s) ==> bit_set(all, s),
            forall|s: int|
                #[trigger] bit_set(all, s) && !bit_set(pieces.0, s) ==> piece_moves_listed(
                    list.moves@,
                    board,
                    pt,
                    s,
                    captures_only,
                ),
            distinct_in(list.moves@, init.len() as int, list.moves@.len() as int),
            forall|i: int|
                init.len() <= i < list.moves@.len() ==> bit_set(all, spec_from_sq(#[trigger] list.moves@[i].0) as int)
                    && !bit_set(pieces.0, spec_from_sq(list.moves@[i].0) as int) && (spec_flag(list.moves@[i].0)
                    == Move::FLAG_CAPTURE || spec_flag(list.moves@[i].0) == Move::FLAG_QUIET),
        decreases pieces.0,
    {
        let ghost before = list.moves@;
        let ghost bb0 = pieces.0;
        let from = pieces.pop_lsb();
        gen_piece_from(board, list, pt, from, captures_only);
        proof {
            lemma_distinct_prefix(before, list.moves@, init.len() as int, before.len() as int);
            let q = |x: u16| spec_from_sq(x) == from;
            assert forall|i: int| init.len() <= i < before.len() implies !q(#[trigger] list.moves@[i].0) by {
                assert(list.moves@[i] == before[i]);
                assert(!bit_set(bb0, spec_from_sq(before[i].0) as int));
            }
            lemma_distinct_join(list.moves@, init.len() as int, before.len() as int, list.moves@.len() as int, q);
            assert forall|i: int| init.len() <= i < list.moves@.len() implies bit_set(
                all,
                spec_from_sq(#[trigger] list.moves@[i].0) as int,
            ) && !bit_set(pieces.0, spec_from_sq(list.moves@[i].0) as int) && (spec_flag(list.moves@[i].0)
                == Move::FLAG_CAPTURE || spec_flag(list.moves@[i].0) == Move::FLAG_QUIET) by {
                if i < before.len() {
                    assert(list.moves@[i] == before[i]);
                }
            }
            assert forall|s: int|
                #[trigger] bit_set(all, s) && !bit_set(pieces.0, s) implies piece_moves_listed(
                    list.moves@,
                    board,
                    pt,
                    s,
                    captures_only,
                ) by {
                if s != from as int {
                    assert(!bit_set(bb0, s));
                    lemma_piece_moves_grow(before, list.moves@, board, pt, s, captures_only);
                }
            }
        }
    }
    proof {
        assert forall|s: int| piece_at(board, s, board.side_to_move, pt) implies #[trigger] piece_moves_listed(
            list.moves@,
            board,
            pt,
            s,
            captures_only,
        ) by {
            lemma_bit_zero(s);
            assert(bit_set(all, s));
        }
        assert forall|i: int| init.len() <= i < list.moves@.len() implies piece_at(
            board,
            spec_from_sq(#[trigger] list.moves@[i].0) as int,
            board.side_to_move,
            pt,
        ) && (spec_flag(list.moves@[i].0) == Move::FLAG_CAPTURE || spec_flag(list.moves@[i].0) == Move::FLAG_QUIET) by {
            assert(bit_set(all, spec_from_sq(list.moves@[i].0) as int));
        }
    }
}

/// The castling move of `c` on the king's (`king_side`) or queen's side.
pub open spec fn castle_move(c: Color, king_side: bool) -> u16 {
    if c == Color::White {
        if king_side {
            spec_move_bits(4, 6, Move::FLAG_K_CASTLE)
        } else {
            spec_move_bits(4, 2, Move::FLAG_Q_CASTLE)
        }
    } else {
        if king_side {
            spec_move_bits(60, 62, Move::FLAG_K_CASTLE)
        } else {
            spec_move_bits(60, 58, Move::FLAG_Q_CASTLE)
        }
    }
}

/// Each castling move of the side to move whose right is held and whose
/// path is empty is listed.
pub open spec fn castling_listed(moves: Seq<Move>, b: &Board) -> bool {
    &&& (b.has_right(b.side_to_move, true) && b.castle_path_empty(b.side_to_move, true)) ==> listed(
        moves,
        castle_move(b.side_to_move, true),
    )
    &&& (b.has_right(b.side_to_move, false) && b.castle_path_empty(b.side_to_move, false)) ==> listed(
        moves,
        castle_move(b.side_to_move, false),
    )
}

/// Castling moves whose right is held and whose squares between king and
/// rook are empty; whether the king passes through check is left to later.
fn gen_castling(board: &Board, list: &mut MoveList)
    requires
        old(list).wf(),
        board.pos_ok(),
    ensures
        final(list).wf(),
        keeps_prefix(old(list).moves@, final(list).moves@),
        sound_from(board, final(list).moves@, old(list).moves@.len() as int),
        castling_listed(final(list).moves@, board),
        distinct_in(final(list).moves@, old(list).moves@.len() as int, final(list).moves@.len() as int),
        forall|i: int|
            old(list).moves@.len() <= i < final(list).moves@.len() ==> spec_flag(#[trigger] final(list).moves@[i].0)
                == Move::FLAG_K_CASTLE || spec_flag(final(list).moves@[i].0) == Move::FLAG_Q_CASTLE,
        forall|i: int|
            old(list).moves@.len() <= i < final(list).moves@.len() ==> #[trigger] final(list).moves@[i].0
                == castle_move(board.side_to_move, spec_flag(final(list).moves@[i].0) == Move::FLAG_K_CASTLE),
{
    let occ = board.occupancies();
    let ghost l0 = list.moves@;
    proof {
        lemma_castle_masks(occ.0);
        lemma_piece_parts(Color::White, PieceType::King);
        lemma_piece_parts(Color::Black, PieceType::King);
        lemma_move_roundtrip(4, 6, Move::FLAG_K_CASTLE);
        lemma_move_roundtrip(4, 2, Move::FLAG_Q_CASTLE);
        lemma_move_roundtrip(60, 62, Move::FLAG_K_CASTLE);
        lemma_move_roundtrip(60, 58, Move::FLAG_Q_CASTLE);
        assert(bit_set(occ.0, 1) == (board.piece_on_sq[1] is Some));
        assert(bit_set(occ.0, 2) == (board.piece_on_sq[2] is Some));
        assert(bit_set(occ.0, 3) == (board.piece_on_sq[3] is Some));
        assert(bit_set(occ.0, 5) == (board.piece_on_sq[5] is Some));
        assert(bit_set(occ.0, 6) == (board.piece_on_sq[6] is Some));
        assert(bit_set(occ.0, 57) == (board.piece_on_sq[57] is Some));
        assert(bit_set(occ.0, 58) == (board.piece_on_sq[58] is Some));
        assert(bit_set(occ.0, 59) == (board.piece_on_sq[59] is Some));
        assert(bit_set(occ.0, 61) == (board.piece_on_sq[61] is Some));
        assert(bit_set(occ.0, 62) == (board.piece_on_sq[62] is Some));
    }
    if board.side_to_move == Color::White {
        if board.castling.has_wk() && (occ.0 & 0x60) == 0 {
            let m = Move::new(4, 6, Move::FLAG_K_CASTLE);
            let ghost before = list.moves@;
            list.push(m);
            proof {
                lemma_listed_push(before, m);
            }
        }
        let ghost l1 = list.moves@;
        if board.castling.has_wq() && (occ.0 & 0xE) == 0 {
            let m = Move::new(4, 2, Move::FLAG_Q_CASTLE);
            proof {
                lemma_distinct_push(l1, l0.len() as int, m);
            }
            list.push(m);
            proof {
                lemma_listed_push(l1, m);
            }
        }
    } else {
        if board.castling.has_bk() && (occ.0 & 0x6000000000000000) == 0 {
            let m = Move::new(60, 62, Move::FLAG_K_CASTLE);
            let ghost before = list.moves@;
            list.push(m);
            proof {
                lemma_listed_push(before, m);
            }
        }
        let ghost l1 = list.moves@;
        if board.castling.has_bq() && (occ.0 & 0x0E00000000000000) == 0 {
            let m = Move::new(60, 58, Move::FLAG_Q_CASTLE);
            proof {
                lemma_distinct_push(l1, l0.len() as int, m);
            }
            list.push(m);
            proof {
                lemma_listed_push(l1, m);
            }
        }
    }
}


/// A square with no piece on it.
pub open spec fn empty_at(b: &Board, s: int) -> bool {
    0 <= s < 64 && b.piece_on_sq[s] is None
}

/// A square holding a piece of the side not to move.
pub open spec fn enemy_at(b: &Board, s: int) -> bool {
    0 <= s < 64 && b.piece_on_sq[s] is Some && b.piece_on_sq[s].unwrap().spec_color() != b.side_to_move
}

/// What the color bitboards say of a square.
proof fn lemma_color_bits(b: &Board, t: int)
    requires
        b.pos_ok(),
    ensures
        bit_set(b.colors[b.side_to_move.spec_flip().spec_index()].0, t) == enemy_at(b, t),
        bit_set(!(b.colors[b.side_to_move.spec_index()].0 | b.colors[b.side_to_move.spec_flip().spec_index()].0), t)
            == empty_at(b, t),
{
    let us = b.colors[b.side_to_move.spec_index()].0;
    let them = b.colors[b.side_to_move.spec_flip().spec_index()].0;
    lemma_bit_not(us | them, t);
    lemma_bit_or(us, them, t);
    if 0 <= t < 64 && b.piece_on_sq[t] is Some {
        assert(b.piece_on_sq[t].unwrap().wf());
    }
}

/// The square one step forward for a pawn of `c`.
pub open spec fn forward(c: Color, s: int) -> int {
    if c == Color::White { s + 8 } else { s - 8 }
}

/// Whether `s` is on the rank where a pawn of `c` promotes.
pub open spec fn promotion_rank(c: Color, s: int) -> bool {
    if c == Color::White { s / 8 == 7 } else { s / 8 == 0 }
}

/// A pawn move onto an empty square, one step forward, or two from the
/// starting rank over an empty square with the double push flag; the flag
/// promotes exactly on the last rank and does not capture.
proof fn lemma_pawn_push_sound(b: &Board, from: int, to: int, flag: u16)
    requires
        b.pos_ok(),
        piece_at(b, from, b.side_to_move, PieceType::Pawn),
        empty_at(b, to),
        flag_ok(flag),
        (flag / 16384) % 2 == 0,
        (flag >= 32768) == (to / 8 == 0 || to / 8 == 7),
        to == forward(b.side_to_move, from) || (flag == Move::FLAG_DBL_PUSH && empty_at(b, forward(b.side_to_move, from))
            && to == forward(b.side_to_move, forward(b.side_to_move, from)) && (if b.side_to_move == Color::White {
            from / 8 == 1
        } else {
            from / 8 == 6
        })),
    ensures
        b.spec_pseudo_legal(spec_move_bits(from as u8, to as u8, flag)),
{
    lemma_piece_parts(b.side_to_move, PieceType::Pawn);
    lemma_move_roundtrip(from as u8, to as u8, flag);
}

/// A pawn capture of an enemy piece diagonally forward, the flag promoting
/// exactly on the last rank.
proof fn lemma_pawn_capture_sound(b: &Board, from: int, to: int, flag: u16)
    requires
        b.pos_ok(),
        piece_at(b, from, b.side_to_move, PieceType::Pawn),
        enemy_at(b, to),
        flag_ok(flag),
        (flag / 16384) % 2 == 1,
        flag != Move::FLAG_EP,
        (flag >= 32768) == (to / 8 == 0 || to / 8 == 7),
        pawn_capture_target(b.side_to_move, from, to),
    ensures
        b.spec_pseudo_legal(spec_move_bits(from as u8, to as u8, flag)),
{
    lemma_piece_parts(b.side_to_move, PieceType::Pawn);
    lemma_move_roundtrip(from as u8, to as u8, flag);
}

/// An en passant capture onto the en passant square.
proof fn lemma_pawn_ep_sound(b: &Board, from: int, to: int)
    requires
        b.pos_ok(),
        setup_ok(b),
        piece_at(b, from, b.side_to_move, PieceType::Pawn),
        0 <= to < 64,
        b.en_passant == Some(Square(to as u8)),
        pawn_capture_target(b.side_to_move, from, to),
    ensures
        b.spec_pseudo_legal(spec_move_bits(from as u8, to as u8, Move::FLAG_EP)),
{
    lemma_piece_parts(b.side_to_move, PieceType::Pawn);
    lemma_move_roundtrip(from as u8, to as u8, Move::FLAG_EP);
}

/// The four promotions of the pawn on `from` reaching `to`, capturing or
/// not, are listed.
pub open spec fn promotions_listed(moves: Seq<Move>, from: int, to: int, capture: bool) -> bool {
    let f = from as u8;
    let t = to as u8;
    if capture {
        &&& listed(moves, spec_move_bits(f, t, Move::FLAG_PC_QUEEN))
        &&& listed(moves, spec_move_bits(f, t, Move::FLAG_PC_ROOK))
        &&& listed(moves, spec_move_bits(f, t, Move::FLAG_PC_BISHOP))
        &&& listed(moves, spec_move_bits(f, t, Move::FLAG_PC_KNIGHT))
    } else {
        &&& listed(moves, spec_move_bits(f, t, Move::FLAG_PR_QUEEN))
        &&& listed(moves, spec_move_bits(f, t, Move::FLAG_PR_ROOK))
        &&& listed(moves, spec_move_bits(f, t, Move::FLAG_PR_BISHOP))
        &&& listed(moves, spec_move_bits(f, t, Move::FLAG_PR_KNIGHT))
    }
}

/// One forward step from `from` to `to`, a square on the promotion rank:
/// pushes the four promotions, queen first.
fn push_promotions(board: &Board, list: &mut MoveList, from: u8, to: u8, capture: bool)
    requires
        old(list).wf(),
        board.pos_ok(),
        from < 64,
        to < 64,
        piece_at(board, from as int, board.side_to_move, PieceType::Pawn),
        promotion_rank(board.side_to_move, to as int),
        capture ==> enemy_at(board, to as int) && pawn_capture_target(board.side_to_move, from as int, to as int),
        !capture ==> empty_at(board, to as int) && to == forward(board.side_to_move, from as int),
    ensures
        final(list).wf(),
        keeps_prefix(old(list).moves@, final(list).moves@),
        sound_from(board, final(list).moves@, old(list).moves@.len() as int),
        tactical_from(final(list).moves@, old(list).moves@.len() as int),
        promotions_listed(final(list).moves@, from as int, to as int, capture),
        distinct_in(final(list).moves@, old(list).moves@.len() as int, final(list).moves@.len() as int),
        forall|i: int|
            old(list).moves@.len() <= i < final(list).moves@.len() ==> spec_from_sq(#[trigger] final(list).moves@[i].0)
                == from && spec_to_sq(final(list).moves@[i].0) == to && spec_flag(final(list).moves@[i].0) >= 0x8000u16
                && spec_is_capture(final(list).moves@[i].0) == capture && (capture ==> spec_flag(
                final(list).moves@[i].0,
            ) >= 0xC000u16),
{
    let ghost l0 = list.moves@;
    push_promotion(board, list, from, to, capture, if capture { Move::FLAG_PC_QUEEN } else { Move::FLAG_PR_QUEEN });
    let ghost l1 = list.moves@;
    push_promotion(board, list, from, to, capture, if capture { Move::FLAG_PC_ROOK } else { Move::FLAG_PR_ROOK });
    let ghost l2 = list.moves@;
    push_promotion(board, list, from, to, capture, if capture { Move::FLAG_PC_BISHOP } else { Move::FLAG_PR_BISHOP });
    let ghost l3 = list.moves@;
    push_promotion(board, list, from, to, capture, if capture { Move::FLAG_PC_KNIGHT } else { Move::FLAG_PR_KNIGHT });
    proof {
        lemma_listed_grows(l1, l2);
        lemma_listed_grows(l2, l3);
        lemma_listed_grows(l3, list.moves@);
        assert(keeps_prefix(l1, l3));
        lemma_listed_grows(l1, list.moves@);
        lemma_listed_grows(l2, list.moves@);
        let f0: u16 = if capture { Move::FLAG_PC_QUEEN } else { Move::FLAG_PR_QUEEN };
        let f1: u16 = if capture { Move::FLAG_PC_ROOK } else { Move::FLAG_PR_ROOK };
        let f2: u16 = if capture { Move::FLAG_PC_BISHOP } else { Move::FLAG_PR_BISHOP };
        let f3: u16 = if capture { Move::FLAG_PC_KNIGHT } else { Move::FLAG_PR_KNIGHT };
        lemma_move_roundtrip(from, to, f0);
        lemma_move_roundtrip(from, to, f1);
        lemma_move_roundtrip(from, to, f2);
        lemma_move_roundtrip(from, to, f3);
        let n = l0.len() as int;
        assert(list.moves@.len() == n + 4);
        assert(list.moves@[n].0 == spec_move_bits(from, to, f0));
        assert(list.moves@[n + 1].0 == spec_move_bits(from, to, f1));
        assert(list.moves@[n + 2].0 == spec_move_bits(from, to, f2));
        assert(list.moves@[n + 3].0 == spec_move_bits(from, to, f3));
    }
}

fn push_promotion(board: &Board, list: &mut MoveList, from: u8, to: u8, capture: bool, flag: u16)
    requires
        old(list).wf(),
        board.pos_ok(),
        from < 64,
        to < 64,
        piece_at(board, from as int, board.side_to_move, PieceType::Pawn),
        promotion_rank(board.side_to_move, to as int),
        capture ==> enemy_at(board, to as int) && pawn_capture_target(board.side_to_move, from as int, to as int),
        !capture ==> empty_at(board, to as int) && to == forward(board.side_to_move, from as int),
        flag >= 32768,
        flag_ok(flag),
        ((flag / 16384) % 2 == 1) == capture,
    ensures
        final(list).wf(),
        keeps_prefix(old(list).moves@, final(list).moves@),
        sound_from(board, final(list).moves@, old(list).moves@.len() as int),
        tactical_from(final(list).moves@, old(list).moves@.len() as int),
        listed(final(list).moves@, spec_move_bits(from, to, flag)),
        final(list).moves@ == old(list).moves@.push(Move(spec_move_bits(from, to, flag))),
        spec_from_sq(spec_move_bits(from, to, flag)) == from && spec_to_sq(spec_move_bits(from, to, flag)) == to
            && spec_flag(spec_move_bits(from, to, flag)) == flag,
{
    let m = Move::new(from, to, flag);
    proof {
        lemma_move_roundtrip(from, to, flag);
        if capture {
            lemma_pawn_capture_sound(board, from as int, to as int, flag);
        } else {
            lemma_pawn_push_sound(board, from as int, to as int, flag);
        }
    }
    let ghost before = list.moves@;
    list.push(m);
    proof {
        lemma_listed_push(before, m);
    }
}

/// A square a pawn of the side to move can step forward to.
pub open spec fn push_target(b: &Board, t: int) -> bool {
    &&& empty_at(b, t)
    &&& 0 <= forward(b.side_to_move.spec_flip(), t) < 64
    &&& piece_at(b, forward(b.side_to_move.spec_flip(), t), b.side_to_move, PieceType::Pawn)
}

/// The single pawn step onto `t` is listed: its four promotions on the
/// last rank, a quiet move elsewhere.
pub open spec fn push_listed(moves: Seq<Move>, b: &Board, t: int) -> bool {
    let from = forward(b.side_to_move.spec_flip(), t);
    if promotion_rank(b.side_to_move, t) {
        promotions_listed(moves, from, t, false)
    } else {
        listed(moves, spec_move_bits(from as u8, t as u8, Move::FLAG_QUIET))
    }
}

/// A move by a pawn of the side to move that neither captures nor steps
/// twice: a plain step or a promotion.
pub open spec fn pawn_step(b: &Board, m: u16) -> bool {
    &&& piece_at(b, spec_from_sq(m) as int, b.side_to_move, PieceType::Pawn)
    &&& !spec_is_capture(m)
    &&& spec_flag(m) == Move::FLAG_QUIET || spec_flag(m) >= 0x8000u16
}

/// Single pawn pushes onto each square of `targets`: the four promotions on
/// the last rank, a quiet move elsewhere.
fn gen_pawn_pushes(board: &Board, list: &mut MoveList, targets: u64)
    requires
        old(list).wf(),
        board.pos_ok(),
        forall|t: int| #[trigger] bit_set(targets, t) ==> push_target(board, t),
    ensures
        final(list).wf(),
        keeps_prefix(old(list).moves@, final(list).moves@),
        sound_from(board, final(list).moves@, old(list).moves@.len() as int),
        (forall|t: int| #[trigger] bit_set(targets, t) ==> promotion_rank(board.side_to_move, t)) ==> tactical_from(
            final(list).moves@,
            old(list).moves@.len() as int,
        ),
        forall|t: int| #[trigger] bit_set(targets, t) ==> push_listed(final(list).moves@, board, t),
        distinct_in(final(list).moves@, old(list).moves@.len() as int, final(list).moves@.len() as int),
        forall|i: int|
            old(list).moves@.len() <= i < final(list).moves@.len() ==> pawn_step(board, #[trigger] final(list).moves@[i].0),
{
    let ghost init = list.moves@;
    let white = board.side_to_move == Color::White;
    let mut bb = Bitboard::new(targets);
    while bb.is_not_empty()
        invariant
            list.wf(),
            board.pos_ok(),
            white == (board.side_to_move == Color::White),
            keeps_prefix(init, list.moves@),
            sound_from(board, list.moves@, init.len() as int),
            (forall|t: int| #[trigger] bit_set(targets, t) ==> promotion_rank(board.side_to_move, t)) ==> tactical_from(
                list.moves@,
                init.len() as int,
            ),
            forall|t: int| #[trigger] bit_set(bb.0, t) ==> bit_set(targets, t) && push_target(board, t),
            forall|t: int| #[trigger] bit_set(targets, t) && !bit_set(bb.0, t) ==> push_listed(list.moves@, board, t),
            distinct_in(list.moves@, init.len() as int, list.moves@.len() as int),
            forall|i: int|
                init.len() <= i < list.moves@.len() ==> pawn_step(board, #[trigger] list.moves@[i].0) && !bit_set(
                    bb.0,
                    spec_to_sq(list.moves@[i].0) as int,
                ),
        decreases bb.0,
    {
        let ghost before = list.moves@;
        let ghost bb0 = bb.0;
        let to = bb.pop_lsb();
        proof {
            assert(bit_set(targets, to as int) && push_target(board, to as int));
        }
        let from = if white { to - 8 } else { to + 8 };
        if (white && to >= 56) || (!white && to <= 7) {
            push_promotions(board, list, from, to, false);
        } else {
            proof {
                lemma_move_roundtrip(from, to, Move::FLAG_QUIET);
                lemma_pawn_push_sound(board, from as int, to as int, Move::FLAG_QUIET);
            }
            let m = Move::new(from, to, Move::FLAG_QUIET);
            list.push(m);
            proof {
                lemma_listed_push(before, m);
            }
        }
        proof {
            lemma_distinct_prefix(before, list.moves@, init.len() as int, before.len() as int);
            let q = |x: u16| spec_to_sq(x) == to;
            assert forall|i: int| init.len() <= i < before.len() implies !q(#[trigger] list.moves@[i].0) by {
                assert(list.moves@[i] == before[i]);
                assert(!bit_set(bb0, spec_to_sq(before[i].0) as int));
            }
            assert forall|i: int| before.len() <= i < list.moves@.len() implies q(#[trigger] list.moves@[i].0) && pawn_step(
                board,
                list.moves@[i].0,
            ) by {
            }
            lemma_distinct_join(list.moves@, init.len() as int, before.len() as int, list.moves@.len() as int, q);
            assert forall|i: int| init.len() <= i < list.moves@.len() implies pawn_step(
                board,
                #[trigger] list.moves@[i].0,
            ) && !bit_set(bb.0, spec_to_sq(list.moves@[i].0) as int) by {
                if i < before.len() {
                    assert(list.moves@[i] == before[i]);
                } else {
                    assert(q(list.moves@[i].0));
                }
            }
            lemma_listed_grows(before, list.moves@);
            assert(push_listed(list.moves@, board, to as int));
            assert forall|t: int| #[trigger] bit_set(targets, t) && !bit_set(bb.0, t) implies push_listed(list.moves@, board, t) by {
                if t != to as int {
                    assert(!bit_set(bb0, t));
                    assert(push_listed(before, board, t));
                }
            }
        }
    }
    proof {
        assert forall|t: int| #[trigger] bit_set(targets, t) implies push_listed(list.moves@, board, t) by {
            lemma_bit_zero(t);
        }
    }
}

/// A square a pawn of the side to move reaches with a double step.
pub open spec fn double_target(b: &Board, t: int) -> bool {
    let mid = forward(b.side_to_move.spec_flip(), t);
    let from = forward(b.side_to_move.spec_flip(), mid);
    &&& empty_at(b, t)
    &&& empty_at(b, mid)
    &&& 0 <= from < 64
    &&& piece_at(b, from, b.side_to_move, PieceType::Pawn)
    &&& (if b.side_to_move == Color::White { from / 8 == 1 } else { from / 8 == 6 })
}

/// The double pawn step onto `t` is listed.
pub open spec fn double_listed(moves: Seq<Move>, b: &Board, t: int) -> bool {
    let from = forward(b.side_to_move.spec_flip(), forward(b.side_to_move.spec_flip(), t));
    listed(moves, spec_move_bits(from as u8, t as u8, Move::FLAG_DBL_PUSH))
}

/// Double pawn pushes onto each square of `targets`.
fn gen_double_pushes(board: &Board, list: &mut MoveList, targets: u64)
    requires
        old(list).wf(),
        board.pos_ok(),
        forall|t: int| #[trigger] bit_set(targets, t) ==> double_target(board, t),
    ensures
        final(list).wf(),
        keeps_prefix(old(list).moves@, final(list).moves@),
        sound_from(board, final(list).moves@, old(list).moves@.len() as int),
        forall|t: int| #[trigger] bit_set(targets, t) ==> double_listed(final(list).moves@, board, t),
        distinct_in(final(list).moves@, old(list).moves@.len() as int, final(list).moves@.len() as int),
        forall|i: int|
            old(list).moves@.len() <= i < final(list).moves@.len() ==> piece_at(
                board,
                spec_from_sq(#[trigger] final(list).moves@[i].0) as int,
                board.side_to_move,
                PieceType::Pawn,
            ) && spec_flag(final(list).moves@[i].0) == Move::FLAG_DBL_PUSH && (spec_to_sq(final(list).moves@[i].0) as int
                == spec_from_sq(final(list).moves@[i].0) + 16 || spec_to_sq(final(list).moves@[i].0) as int
                == spec_from_sq(final(list).moves@[i].0) - 16),
{
    let ghost init = list.moves@;
    let white = board.side_to_move == Color::White;
    let mut bb = Bitboard::new(targets);
    while bb.is_not_empty()
        invariant
            list.wf(),
            board.pos_ok(),
            white == (board.side_to_move == Color::White),
            keeps_prefix(init, list.moves@),
            sound_from(board, list.moves@, init.len() as int),
            forall|t: int| #[trigger] bit_set(bb.0, t) ==> double_target(board, t),
            forall|t: int| #[trigger] bit_set(bb.0, t) ==> bit_set(targets, t),
            forall|t: int| #[trigger] bit_set(targets, t) && !bit_set(bb.0, t) ==> double_listed(list.moves@, board, t),
            distinct_in(list.moves@, init.len() as int, list.moves@.len() as int),
            forall|i: int|
                init.len() <= i < list.moves@.len() ==> piece_at(
                    board,
                    spec_from_sq(#[trigger] list.moves@[i].0) as int,
                    board.side_to_move,
                    PieceType::Pawn,
                ) && spec_flag(list.moves@[i].0) == Move::FLAG_DBL_PUSH && !bit_set(
                    bb.0,
                    spec_to_sq(list.moves@[i].0) as int,
                ) && (spec_to_sq(list.moves@[i].0) as int == spec_from_sq(list.moves@[i].0) + 16 || spec_to_sq(
                    list.moves@[i].0,
                ) as int == spec_from_sq(list.moves@[i].0) - 16),
        decreases bb.0,
    {
        let ghost before = list.moves@;
        let ghost bb0 = bb.0;
        let to = bb.pop_lsb();
        proof {
            assert(double_target(board, to as int));
        }
        let from = if white { to - 16 } else { to + 16 };
        proof {
            lemma_move_roundtrip(from, to, Move::FLAG_DBL_PUSH);
            lemma_pawn_push_sound(board, from as int, to as int, Move::FLAG_DBL_PUSH);
        }
        let m = Move::new(from, to, Move::FLAG_DBL_PUSH);
        proof {
            assert forall|i: int| init.len() <= i < before.len() implies #[trigger] before[i].0 != m.0 by {
                assert(!bit_set(bb0, spec_to_sq(before[i].0) as int));
            }
            lemma_distinct_push(before, init.len() as int, m);
        }
        list.push(m);
        proof {
            assert forall|i: int| init.len() <= i < list.moves@.len() implies piece_at(
                board,
                spec_from_sq(#[trigger] list.moves@[i].0) as int,
                board.side_to_move,
                PieceType::Pawn,
            ) && spec_flag(list.moves@[i].0) == Move::FLAG_DBL_PUSH && !bit_set(
                bb.0,
                spec_to_sq(list.moves@[i].0) as int,
            ) && (spec_to_sq(list.moves@[i].0) as int == spec_from_sq(list.moves@[i].0) + 16 || spec_to_sq(
                list.moves@[i].0,
            ) as int == spec_from_sq(list.moves@[i].0) - 16) by {
                if i < before.len() {
                    assert(list.moves@[i] == before[i]);
                }
            }
            lemma_listed_push(before, m);
            assert(double_listed(list.moves@, board, to as int));
            assert forall|t: int| #[trigger] bit_set(targets, t) && !bit_set(bb.0, t) implies double_listed(list.moves@, board, t) by {
                if t != to as int {
                    assert(!bit_set(bb0, t));
                    assert(double_listed(before, board, t));
                }
            }
        }
    }
    proof {
        assert forall|t: int| #[trigger] bit_set(targets, t) implies double_listed(list.moves@, board, t) by {
            lemma_bit_zero(t);
        }
    }
}

/// The capture by the pawn on `s` of the enemy piece on `t` is listed: its
/// four promotions on the last rank, a plain capture elsewhere.
pub open spec fn capture_listed(moves: Seq<Move>, b: &Board, s: int, t: int) -> bool {
    if promotion_rank(b.side_to_move, t) {
        promotions_listed(moves, s, t, true)
    } else {
        listed(moves, spec_move_bits(s as u8, t as u8, Move::FLAG_CAPTURE))
    }
}

/// Every capture of the pawn on `s` is listed, en passant included.
pub open spec fn pawn_captures_listed(moves: Seq<Move>, b: &Board, s: int) -> bool {
    &&& forall|t: int|
        enemy_at(b, t) && pawn_capture_target(b.side_to_move, s, t) ==> #[trigger] capture_listed(moves, b, s, t)
    &&& b.en_passant matches Some(e) ==> (pawn_capture_target(b.side_to_move, s, e.0 as int) ==> listed(
        moves,
        spec_move_bits(s as u8, e.0, Move::FLAG_EP),
    ))
}

/// Captures by each pawn of `pawns`: onto enemy pieces (promoting on the last
/// rank), then en passant.
fn gen_pawn_captures(board: &Board, list: &mut MoveList, pawns: u64, them: u64)
    requires
        old(list).wf(),
        gen_ready(board),
        forall|s: int| #[trigger] bit_set(pawns, s) ==> piece_at(board, s, board.side_to_move, PieceType::Pawn),
        forall|t: int| #[trigger] bit_set(them, t) == enemy_at(board, t),
    ensures
        final(list).wf(),
        keeps_prefix(old(list).moves@, final(list).moves@),
        sound_from(board, final(list).moves@, old(list).moves@.len() as int),
        tactical_from(final(list).moves@, old(list).moves@.len() as int),
        forall|s: int| #[trigger] bit_set(pawns, s) ==> pawn_captures_listed(final(list).moves@, board, s),
        distinct_in(final(list).moves@, old(list).moves@.len() as int, final(list).moves@.len() as int),
        forall|i: int|
            old(list).moves@.len() <= i < final(list).moves@.len() ==> bit_set(
                pawns,
                spec_from_sq(#[trigger] final(list).moves@[i].0) as int,
            ) && spec_is_capture(final(list).moves@[i].0) && (spec_flag(final(list).moves@[i].0) == Move::FLAG_CAPTURE
                || spec_flag(final(list).moves@[i].0) == Move::FLAG_EP || spec_flag(final(list).moves@[i].0)
                >= 0xC000u16),
{
    let ghost init = list.moves@;
    let side = board.side_to_move;
    let mut pawns_bb = Bitboard::new(pawns);
    while pawns_bb.is_not_empty()
        invariant
            list.wf(),
            gen_ready(board),
            side == board.side_to_move,
            keeps_prefix(init, list.moves@),
            sound_from(board, list.moves@, init.len() as int),
            tactical_from(list.moves@, init.len() as int),
            forall|s: int| #[trigger] bit_set(pawns_bb.0, s) ==> piece_at(board, s, board.side_to_move, PieceType::Pawn),
            forall|t: int| #[trigger] bit_set(them, t) == enemy_at(board, t),
            forall|s: int| #[trigger] bit_set(pawns_bb.0, s) ==> bit_set(pawns, s),
            forall|s: int| #[trigger] bit_set(pawns, s) && !bit_set(pawns_bb.0, s) ==> pawn_captures_listed(list.moves@, board, s),
            distinct_in(list.moves@, init.len() as int, list.moves@.len() as int),
            forall|i: int|
                init.len() <= i < list.moves@.len() ==> bit_set(pawns, spec_from_sq(#[trigger] list.moves@[i].0) as int)
                    && !bit_set(pawns_bb.0, spec_from_sq(list.moves@[i].0) as int) && spec_is_capture(list.moves@[i].0)
                    && (spec_flag(list.moves@[i].0) == Move::FLAG_CAPTURE || spec_flag(list.moves@[i].0)
                    == Move::FLAG_EP || spec_flag(list.moves@[i].0) >= 0xC000u16),
        decreases pawns_bb.0,
    {
        let ghost outer_before = list.moves@;
        let ghost pbb0 = pawns_bb.0;
        let from = pawns_bb.pop_lsb();
        proof {
            assert(piece_at(board, from as int, side, PieceType::Pawn));
        }
        let pa = pawn_attacks(side, Square::new(from)).0;
        let mut att_bb = Bitboard::new(pa & them);
        let ghost att0 = pa & them;
        proof {
            assert forall|t: int| #[trigger] bit_set(att_bb.0, t) == (enemy_at(board, t) && pawn_capture_target(side, from as int, t)) by {
                lemma_bit_and(pa, them, t);
            }
        }
        while att_bb.is_not_empty()
            invariant
                list.wf(),
                gen_ready(board),
                from < 64,
                side == board.side_to_move,
                piece_at(board, from as int, side, PieceType::Pawn),
                keeps_prefix(init, list.moves@),
                keeps_prefix(outer_before, list.moves@),
                sound_from(board, list.moves@, init.len() as int),
                tactical_from(list.moves@, init.len() as int),
                forall|t: int| #[trigger] bit_set(att_bb.0, t) ==> enemy_at(board, t) && pawn_capture_target(side, from as int, t),
                forall|t: int| #[trigger] bit_set(att0, t) == (enemy_at(board, t) && pawn_capture_target(side, from as int, t)),
                forall|t: int| #[trigger] bit_set(att_bb.0, t) ==> bit_set(att0, t),
                forall|t: int| #[trigger] bit_set(att0, t) && !bit_set(att_bb.0, t) ==> capture_listed(list.moves@, board, from as int, t),
                distinct_in(list.moves@, outer_before.len() as int, list.moves@.len() as int),
                forall|i: int|
                    outer_before.len() <= i < list.moves@.len() ==> spec_from_sq(#[trigger] list.moves@[i].0) == from
                        && spec_is_capture(list.moves@[i].0) && spec_flag(list.moves@[i].0) != Move::FLAG_EP && !bit_set(
                        att_bb.0,
                        spec_to_sq(list.moves@[i].0) as int,
                    ) && (spec_flag(list.moves@[i].0) == Move::FLAG_CAPTURE || spec_flag(list.moves@[i].0)
                        >= 0xC000u16),
            decreases att_bb.0,
        {
            let ghost before = list.moves@;
            let ghost abb0 = att_bb.0;
            let to = att_bb.pop_lsb();
            proof {
                assert(enemy_at(board, to as int) && pawn_capture_target(side, from as int, to as int));
            }
            if (side == Color::White && to >= 56) || (side == Color::Black && to <= 7) {
                push_promotions(board, list, from, to, true);
            } else {
                proof {
                    lemma_move_roundtrip(from, to, Move::FLAG_CAPTURE);
                    lemma_pawn_capture_sound(board, from as int, to as int, Move::FLAG_CAPTURE);
                }
                let m = Move::new(from, to, Move::FLAG_CAPTURE);
                list.push(m);
                proof {
                    lemma_listed_push(before, m);
                }
            }
            proof {
                lemma_distinct_prefix(before, list.moves@, outer_before.len() as int, before.len() as int);
                let q = |x: u16| spec_to_sq(x) == to;
                assert forall|i: int| outer_before.len() <= i < before.len() implies !q(#[trigger] list.moves@[i].0) by {
                    assert(list.moves@[i] == before[i]);
                    assert(!bit_set(abb0, spec_to_sq(before[i].0) as int));
                }
                assert forall|i: int| before.len() <= i < list.moves@.len() implies q(#[trigger] list.moves@[i].0)
                    && spec_from_sq(list.moves@[i].0) == from && spec_is_capture(list.moves@[i].0) && spec_flag(
                    list.moves@[i].0,
                ) != Move::FLAG_EP && (spec_flag(list.moves@[i].0) == Move::FLAG_CAPTURE || spec_flag(
                    list.moves@[i].0,
                ) >= 0xC000u16) by {
                }
                lemma_distinct_join(
                    list.moves@,
                    outer_before.len() as int,
                    before.len() as int,
                    list.moves@.len() as int,
                    q,
                );
                assert forall|i: int| outer_before.len() <= i < list.moves@.len() implies spec_from_sq(
                    #[trigger] list.moves@[i].0,
                ) == from && spec_is_capture(list.moves@[i].0) && spec_flag(list.moves@[i].0) != Move::FLAG_EP
                    && !bit_set(att_bb.0, spec_to_sq(list.moves@[i].0) as int) && (spec_flag(list.moves@[i].0)
                    == Move::FLAG_CAPTURE || spec_flag(list.moves@[i].0) >= 0xC000u16) by {
                    if i < before.len() {
                        assert(list.moves@[i] == before[i]);
                    } else {
                        assert(q(list.moves@[i].0));
                    }
                }
                lemma_listed_grows(before, list.moves@);
                assert(capture_listed(list.moves@, board, from as int, to as int));
                assert forall|t: int| #[trigger] bit_set(att0, t) && !bit_set(att_bb.0, t) implies capture_listed(
                    list.moves@,
                    board,
                    from as int,
                    t,
                ) by {
                    if t != to as int {
                        assert(!bit_set(abb0, t));
                        assert(capture_listed(before, board, from as int, t));
                    }
                }
            }
        }
        proof {
            assert forall|t: int|
                enemy_at(board, t) && pawn_capture_target(side, from as int, t) implies #[trigger] capture_listed(
                list.moves@,
                board,
                from as int,
                t,
            ) by {
                lemma_bit_zero(t);
                assert(bit_set(att0, t));
            }
        }
        let ghost mid = list.moves@;
        if let Some(ep) = board.en_passant {
            if has_square(pa, ep.0) {
                proof {
                    lemma_move_roundtrip(from, ep.0, Move::FLAG_EP);
                    if setup_ok(board) {
                        lemma_pawn_ep_sound(board, from as int, ep.0 as int);
                    }
                }
                let m = Move::new(from, ep.0, Move::FLAG_EP);
                proof {
                    assert forall|i: int| outer_before.len() <= i < mid.len() implies #[trigger] mid[i].0 != m.0 by {
                    }
                    lemma_distinct_push(mid, outer_before.len() as int, m);
                }
                list.push(m);
                proof {
                    lemma_listed_push(mid, m);
                }
            }
        }
        proof {
            assert forall|i: int| outer_before.len() <= i < list.moves@.len() implies spec_from_sq(
                #[trigger] list.moves@[i].0,
            ) == from && spec_is_capture(list.moves@[i].0) && (spec_flag(list.moves@[i].0) == Move::FLAG_CAPTURE
                || spec_flag(list.moves@[i].0) == Move::FLAG_EP || spec_flag(list.moves@[i].0) >= 0xC000u16) by {
                if i < mid.len() {
                    assert(list.moves@[i] == mid[i]);
                }
            }
            lemma_distinct_prefix(outer_before, list.moves@, init.len() as int, outer_before.len() as int);
            let q = |x: u16| spec_from_sq(x) == from;
            assert forall|i: int| init.len() <= i < outer_before.len() implies !q(#[trigger] list.moves@[i].0) by {
                assert(list.moves@[i] == outer_before[i]);
                assert(!bit_set(pbb0, spec_from_sq(outer_before[i].0) as int));
            }
            lemma_distinct_join(
                list.moves@,
                init.len() as int,
                outer_before.len() as int,
                list.moves@.len() as int,
                q,
            );
            assert forall|i: int| init.len() <= i < list.moves@.len() implies bit_set(
                pawns,
                spec_from_sq(#[trigger] list.moves@[i].0) as int,
            ) && !bit_set(pawns_bb.0, spec_from_sq(list.moves@[i].0) as int) && spec_is_capture(list.moves@[i].0) && (
            spec_flag(list.moves@[i].0) == Move::FLAG_CAPTURE || spec_flag(list.moves@[i].0) == Move::FLAG_EP
                || spec_flag(list.moves@[i].0) >= 0xC000u16) by {
                if i < outer_before.len() {
                    assert(list.moves@[i] == outer_before[i]);
                } else {
                    assert(q(list.moves@[i].0));
                }
            }
            lemma_listed_grows(mid, list.moves@);
            lemma_listed_grows(outer_before, list.moves@);
            assert forall|t: int|
                enemy_at(board, t) && pawn_capture_target(side, from as int, t) implies #[trigger] capture_listed(
                list.moves@,
                board,
                from as int,
                t,
            ) by {
                assert(capture_listed(mid, board, from as int, t));
            }
            if let Some(e) = board.en_passant {
                if pawn_capture_target(side, from as int, e.0 as int) {
                    assert(bit_set(pa, e.0 as int));
                }
            }
            assert(pawn_captures_listed(list.moves@, board, from as int));
            assert forall|s: int| #[trigger] bit_set(pawns, s) && !bit_set(pawns_bb.0, s) implies pawn_captures_listed(
                list.moves@,
                board,
                s,
            ) by {
                if s != from as int {
                    assert(!bit_set(pbb0, s));
                    assert(pawn_captures_listed(outer_before, board, s));
                    assert forall|t: int|
                        enemy_at(board, t) && pawn_capture_target(side, s, t) implies #[trigger] capture_listed(
                        list.moves@,
                        board,
                        s,
                        t,
                    ) by {
                        assert(capture_listed(outer_before, board, s, t));
                    }
                }
            }
        }
    }
    proof {
        assert forall|s: int| #[trigger] bit_set(pawns, s) implies pawn_captures_listed(list.moves@, board, s) by {
            lemma_bit_zero(s);
        }
    }
}


proof fn lemma_chain(b: &Board, a: Seq<Move>, p: Seq<Move>, n: Seq<Move>, tactical: bool)
    requires
        keeps_prefix(a, p),
        sound_from(b, p, a.len() as int),
        keeps_prefix(p, n),
        sound_from(b, n, p.len() as int),
        tactical ==> tactical_from(p, a.len() as int) && tactical_from(n, p.len() as int),
    ensures
        keeps_prefix(a, n),
        sound_from(b, n, a.len() as int),
        tactical ==> tactical_from(n, a.len() as int),
{
    assert forall|i: int| a.len() <= i < n.len() && setup_ok(b) implies b.spec_pseudo_legal(#[trigger] n[i].0) by {
        if i < p.len() {
            assert(n[i] == p[i]);
        }
    }
    if tactical {
        assert forall|i: int| a.len() <= i < n.len() implies (spec_is_capture(#[trigger] n[i].0) || spec_is_promotion(n[i].0)) by {
            if i < p.len() {
                assert(n[i] == p[i]);
            }
        }
    }
}

/// The part of the generator a move comes from: single pawn steps (0),
/// double steps (1), pawn captures (2), moves of knights (3), bishops (4),
/// rooks (5), queens (6) and the king (7), and castling (8); anything else
/// is 9.
pub open spec fn gen_class(b: &Board, m: u16) -> int {
    let f = spec_flag(m);
    let from = spec_from_sq(m) as int;
    let side = b.side_to_move;
    if f == Move::FLAG_K_CASTLE || f == Move::FLAG_Q_CASTLE {
        8
    } else if piece_at(b, from, side, PieceType::Pawn) {
        if f == Move::FLAG_DBL_PUSH {
            1
        } else if spec_is_capture(m) {
            2
        } else {
            0
        }
    } else if piece_at(b, from, side, PieceType::Knight) {
        3
    } else if piece_at(b, from, side, PieceType::Bishop) {
        4
    } else if piece_at(b, from, side, PieceType::Rook) {
        5
    } else if piece_at(b, from, side, PieceType::Queen) {
        6
    } else if piece_at(b, from, side, PieceType::King) {
        7
    } else {
        9
    }
}

/// The flags of castling and of double steps carry no capture bit.
proof fn lemma_flag_bits(m: u16)
    by (bit_vector)
    ensures
        (m & 0xF000u16) == 0x2000u16 ==> (m & 0x4000u16) == 0,
        (m & 0xF000u16) == 0x3000u16 ==> (m & 0x4000u16) == 0,
        (m & 0xF000u16) == 0x1000u16 ==> (m & 0x4000u16) == 0,
{
}

/// Moves of the piece of type `pt` (not a pawn) with a quiet or capture
/// flag belong to that piece's part of the generator.
proof fn lemma_piece_class(b: &Board, m: u16, pt: PieceType)
    requires
        pt != PieceType::Pawn,
        piece_at(b, spec_from_sq(m) as int, b.side_to_move, pt),
        spec_flag(m) == Move::FLAG_CAPTURE || spec_flag(m) == Move::FLAG_QUIET,
    ensures
        gen_class(b, m) == 3 + pt.spec_index() - 1,
{
    let side = b.side_to_move;
    lemma_piece_parts(side, pt);
    lemma_piece_parts(side, PieceType::Pawn);
    lemma_piece_parts(side, PieceType::Knight);
    lemma_piece_parts(side, PieceType::Bishop);
    lemma_piece_parts(side, PieceType::Rook);
    lemma_piece_parts(side, PieceType::Queen);
}

/// A run of one part of the generator joined to runs of earlier parts.
proof fn lemma_class_join(s: Seq<Move>, b: &Board, lo: int, mid: int, hi: int, k: int)
    requires
        0 <= lo <= mid <= hi <= s.len(),
        distinct_in(s, lo, mid),
        distinct_in(s, mid, hi),
        forall|i: int| lo <= i < mid ==> gen_class(b, #[trigger] s[i].0) < k,
        forall|i: int| mid <= i < hi ==> gen_class(b, #[trigger] s[i].0) == k,
    ensures
        distinct_in(s, lo, hi),
        forall|i: int| lo <= i < hi ==> gen_class(b, #[trigger] s[i].0) <= k,
{
    let q = |x: u16| gen_class(b, x) == k;
    assert forall|i: int| lo <= i < mid implies !q(#[trigger] s[i].0) by {
        assert(gen_class(b, s[i].0) < k);
    }
    assert forall|i: int| mid <= i < hi implies q(#[trigger] s[i].0) by {
        assert(gen_class(b, s[i].0) == k);
    }
    lemma_distinct_join(s, lo, mid, hi, q);
}

/// The moves of `s` between `lo` and `hi` occur once each and come from
/// the parts of the generator up to `k`.
pub open spec fn runs_ok(s: Seq<Move>, b: &Board, lo: int, hi: int, k: int) -> bool {
    &&& distinct_in(s, lo, hi)
    &&& forall|i: int| lo <= i < hi ==> gen_class(b, #[trigger] s[i].0) <= k
}

/// A run of part `k` added after runs of earlier parts.
proof fn lemma_extend_run(a: Seq<Move>, s: Seq<Move>, b: &Board, lo: int, k: int)
    requires
        keeps_prefix(a, s),
        0 <= lo <= a.len(),
        runs_ok(a, b, lo, a.len() as int, k - 1),
        distinct_in(s, a.len() as int, s.len() as int),
        forall|i: int| a.len() <= i < s.len() ==> gen_class(b, #[trigger] s[i].0) == k,
    ensures
        runs_ok(s, b, lo, s.len() as int, k),
{
    lemma_distinct_prefix(a, s, lo, a.len() as int);
    assert forall|i: int| lo <= i < a.len() implies gen_class(b, #[trigger] s[i].0) < k by {
        assert(s[i] == a[i]);
        assert(gen_class(b, a[i].0) <= k - 1);
    }
    lemma_class_join(s, b, lo, a.len() as int, s.len() as int, k);
}

/// The single and double pawn steps occur once each.
proof fn lemma_pawn_runs(init: Seq<Move>, p1: Seq<Move>, s: Seq<Move>, b: &Board)
    requires
        keeps_prefix(init, p1),
        keeps_prefix(p1, s),
        distinct_in(p1, init.len() as int, p1.len() as int),
        forall|i: int| init.len() <= i < p1.len() ==> pawn_step(b, #[trigger] p1[i].0),
        distinct_in(s, p1.len() as int, s.len() as int),
        forall|i: int|
            p1.len() <= i < s.len() ==> piece_at(b, spec_from_sq(#[trigger] s[i].0) as int, b.side_to_move, PieceType::Pawn)
                && spec_flag(s[i].0) == Move::FLAG_DBL_PUSH,
    ensures
        runs_ok(s, b, init.len() as int, s.len() as int, 1),
{
    assert forall|i: int| init.len() <= i < p1.len() implies gen_class(b, #[trigger] p1[i].0) <= 0 by {
        assert(pawn_step(b, p1[i].0));
    }
    lemma_extend_run(p1, s, b, init.len() as int, 1);
}

/// The single and double pawn steps are moves the generator gives.
proof fn lemma_pawn_exact(init: Seq<Move>, p1: Seq<Move>, s: Seq<Move>, b: &Board)
    requires
        b.pos_ok(),
        keeps_prefix(init, p1),
        keeps_prefix(p1, s),
        sound_from(b, p1, init.len() as int),
        sound_from(b, s, p1.len() as int),
        forall|i: int| init.len() <= i < p1.len() ==> pawn_step(b, #[trigger] p1[i].0),
        forall|i: int|
            p1.len() <= i < s.len() ==> piece_at(b, spec_from_sq(#[trigger] s[i].0) as int, b.side_to_move, PieceType::Pawn)
                && spec_flag(s[i].0) == Move::FLAG_DBL_PUSH && (spec_to_sq(s[i].0) as int == spec_from_sq(s[i].0) + 16
                || spec_to_sq(s[i].0) as int == spec_from_sq(s[i].0) - 16),
    ensures
        exact_in(s, b, init.len() as int, s.len() as int),
{
    assert forall|i: int| init.len() <= i < s.len() implies (setup_ok(b) ==> generated_move(b, #[trigger] s[i].0)) by {
        if setup_ok(b) {
            if i < p1.len() {
                assert(s[i] == p1[i]);
                lemma_exact_move(b, s[i].0, 0);
            } else {
                lemma_exact_move(b, s[i].0, 1);
            }
        }
    }
}

/// Every pseudo-legal move of the side to move, with the flag generation
/// gives it, is listed: single pawn steps (the four promotions on the last
/// rank), double steps, pawn captures and en passant, the moves of knights,
/// bishops, rooks and queens, and, when the side has a king, the moves of
/// the king on its lowest king square and castling.
pub open spec fn all_moves_listed(moves: Seq<Move>, b: &Board) -> bool {
    let side = b.side_to_move;
    let ks = king_square(b.pieces, b.colors, side);
    &&& forall|t: int| push_target(b, t) ==> #[trigger] push_listed(moves, b, t)
    &&& forall|t: int| double_target(b, t) ==> #[trigger] double_listed(moves, b, t)
    &&& forall|s: int| piece_at(b, s, side, PieceType::Pawn) ==> #[trigger] pawn_captures_listed(moves, b, s)
    &&& forall|s: int|
        piece_at(b, s, side, PieceType::Knight) ==> #[trigger] piece_moves_listed(moves, b, PieceType::Knight, s, false)
    &&& forall|s: int|
        piece_at(b, s, side, PieceType::Bishop) ==> #[trigger] piece_moves_listed(moves, b, PieceType::Bishop, s, false)
    &&& forall|s: int|
        piece_at(b, s, side, PieceType::Rook) ==> #[trigger] piece_moves_listed(moves, b, PieceType::Rook, s, false)
    &&& forall|s: int|
        piece_at(b, s, side, PieceType::Queen) ==> #[trigger] piece_moves_listed(moves, b, PieceType::Queen, s, false)
    &&& ks < 64 ==> piece_moves_listed(moves, b, PieceType::King, ks, false)
    &&& ks < 64 ==> castling_listed(moves, b)
}

/// What a later list keeps of the moves an earlier one lists.
proof fn lemma_all_parts_grow(a: Seq<Move>, c: Seq<Move>, b: &Board)
    requires
        keeps_prefix(a, c),
    ensures
        forall|t: int| #[trigger] push_listed(a, b, t) ==> push_listed(c, b, t),
        forall|t: int| #[trigger] double_listed(a, b, t) ==> double_listed(c, b, t),
        forall|s: int| #[trigger] pawn_captures_listed(a, b, s) ==> pawn_captures_listed(c, b, s),
        forall|pt: PieceType, s: int, co: bool|
            #[trigger] piece_moves_listed(a, b, pt, s, co) ==> piece_moves_listed(c, b, pt, s, co),
        castling_listed(a, b) ==> castling_listed(c, b),
{
    lemma_listed_grows(a, c);
    assert forall|s: int| #[trigger] pawn_captures_listed(a, b, s) implies pawn_captures_listed(c, b, s) by {
        assert forall|t: int| enemy_at(b, t) && pawn_capture_target(b.side_to_move, s, t) implies #[trigger] capture_listed(
            c,
            b,
            s,
            t,
        ) by {
            assert(capture_listed(a, b, s, t));
        }
    }
    assert forall|pt: PieceType, s: int, co: bool| #[trigger] piece_moves_listed(a, b, pt, s, co) implies piece_moves_listed(
        c,
        b,
        pt,
        s,
        co,
    ) by {
        lemma_piece_moves_grow(a, c, b, pt, s, co);
    }
}

proof fn lemma_prefix_trans(a: Seq<Move>, b: Seq<Move>, c: Seq<Move>)
    requires
        keeps_prefix(a, b),
        keeps_prefix(b, c),
    ensures
        keeps_prefix(a, c),
{
    assert forall|i: int| 0 <= i < a.len() implies c[i] == a[i] by {
        assert(c[i] == b[i]);
    }
}

/// Every pseudo-legal move of the side to move, appended to `list`: pawn
/// pushes, double pushes, pawn captures and en passant, then knight, bishop,
/// rook and queen moves, the king's moves and castling. Whether a move leaves
/// the king in check is not examined.
pub fn generate_pseudo_legal_moves(board: &Board, list: &mut MoveList)
    requires
        old(list).wf(),
        gen_ready(board),
    ensures
        final(list).wf(),
        keeps_prefix(old(list).moves@, final(list).moves@),
        sound_from(board, final(list).moves@, old(list).moves@.len() as int),
        all_moves_listed(final(list).moves@, board),
        distinct_in(final(list).moves@, old(list).moves@.len() as int, final(list).moves@.len() as int),
        setup_ok(board) ==> forall|i: int|
            old(list).moves@.len() <= i < final(list).moves@.len() ==> generated_move(
                board,
                #[trigger] final(list).moves@[i].0,
            ),
        forall|m: u16| generated_move(board, m) ==> #[trigger] listed(final(list).moves@, m),
{
    let side = board.side_to_move;
    let us = board.color_occupancy(side).0;
    let them = board.color_occupancy(side.flip()).0;
    let empty = !(us | them);
    let pawns = board.color_piece_bb(side, PieceType::Pawn).0;
    let ghost init = list.moves@;
    let ghost pushes_all: u64;
    let ghost doubles_all: u64;
    let ghost p1: Seq<Move>;
    if side == Color::White {
        let pushes = (pawns << 8u64) & empty;
        proof {
            assert forall|t: int| #[trigger] bit_set(pushes, t) == push_target(board, t) by {
                lemma_bit_and(pawns << 8u64, empty, t);
                lemma_bit_shl(pawns, 8, t);
                lemma_color_bits(board, t);
            }
        }
        gen_pawn_pushes(board, list, pushes);
        proof {
            p1 = list.moves@;
        }
        let double = ((pushes & RANK_3) << 8u64) & empty;
        proof {
            assert forall|t: int| #[trigger] bit_set(double, t) == double_target(board, t) by {
                lemma_bit_and((pushes & RANK_3) << 8u64, empty, t);
                lemma_bit_shl(pushes & RANK_3, 8, t);
                lemma_bit_and(pushes, RANK_3, t - 8);
                lemma_rank_bits(t - 8);
                lemma_color_bits(board, t);
                assert(bit_set(pushes, t - 8) == push_target(board, t - 8));
            }
        }
        gen_double_pushes(board, list, double);
        proof {
            lemma_pawn_runs(init, p1, list.moves@, board);
            lemma_pawn_exact(init, p1, list.moves@, board);
            lemma_chain(board, init, p1, list.moves@, false);
            pushes_all = pushes;
            doubles_all = double;
        }
    } else {
        let pushes = (pawns >> 8u64) & empty;
        proof {
            assert forall|t: int| #[trigger] bit_set(pushes, t) == push_target(board, t) by {
                lemma_bit_and(pawns >> 8u64, empty, t);
                lemma_bit_shr(pawns, 8, t);
                lemma_color_bits(board, t);
            }
        }
        gen_pawn_pushes(board, list, pushes);
        proof {
            p1 = list.moves@;
        }
        let double = ((pushes & RANK_6) >> 8u64) & empty;
        proof {
            assert forall|t: int| #[trigger] bit_set(double, t) == double_target(board, t) by {
                lemma_bit_and((pushes & RANK_6) >> 8u64, empty, t);
                lemma_bit_shr(pushes & RANK_6, 8, t);
                lemma_bit_and(pushes, RANK_6, t + 8);
                lemma_rank_bits(t + 8);
                lemma_color_bits(board, t);
                assert(bit_set(pushes, t + 8) == push_target(board, t + 8));
            }
        }
        gen_double_pushes(board, list, double);
        proof {
            lemma_pawn_runs(init, p1, list.moves@, board);
            lemma_pawn_exact(init, p1, list.moves@, board);
            lemma_chain(board, init, p1, list.moves@, false);
            pushes_all = pushes;
            doubles_all = double;
        }
    }
    let ghost p2 = list.moves@;
    proof {
        assert forall|t: int| #[trigger] bit_set(them, t) == enemy_at(board, t) by {
            lemma_color_bits(board, t);
        }
    }
    gen_pawn_captures(board, list, pawns, them);
    proof {
        lemma_chain(board, init, p2, list.moves@, false);
        assert forall|i: int| p2.len() <= i < list.moves@.len() implies gen_class(board, #[trigger] list.moves@[i].0)
            == 2 by {
            let m = list.moves@[i].0;
            lemma_flag_bits(m);
            assert(bit_set(pawns, spec_from_sq(m) as int));
        }
        lemma_extend_run(p2, list.moves@, board, init.len() as int, 2);
        assert forall|i: int| p2.len() <= i < list.moves@.len() implies (setup_ok(board) ==> generated_move(
            board,
            #[trigger] list.moves@[i].0,
        )) by {
            if setup_ok(board) {
                assert(bit_set(pawns, spec_from_sq(list.moves@[i].0) as int));
                lemma_exact_move(board, list.moves@[i].0, 2);
            }
        }
        lemma_exact_extend(p2, list.moves@, board, init.len() as int);
    }
    let ghost p3 = list.moves@;
    gen_piece_moves(board, list, PieceType::Knight, false);
    proof {
        lemma_chain(board, init, p3, list.moves@, false);
        assert forall|i: int| p3.len() <= i < list.moves@.len() implies gen_class(board, #[trigger] list.moves@[i].0)
            == 3 by {
            lemma_piece_class(board, list.moves@[i].0, PieceType::Knight);
        }
        lemma_extend_run(p3, list.moves@, board, init.len() as int, 3);
        assert forall|i: int| p3.len() <= i < list.moves@.len() implies (setup_ok(board) ==> generated_move(
            board,
            #[trigger] list.moves@[i].0,
        )) by {
            if setup_ok(board) {
                lemma_exact_move(board, list.moves@[i].0, 3);
            }
        }
        lemma_exact_extend(p3, list.moves@, board, init.len() as int);
    }
    let ghost p4 = list.moves@;
    gen_piece_moves(board, list, PieceType::Bishop, false);
    proof {
        lemma_chain(board, init, p4, list.moves@, false);
        assert forall|i: int| p4.len() <= i < list.moves@.len() implies gen_class(board, #[trigger] list.moves@[i].0)
            == 4 by {
            lemma_piece_class(board, list.moves@[i].0, PieceType::Bishop);
        }
        lemma_extend_run(p4, list.moves@, board, init.len() as int, 4);
        assert forall|i: int| p4.len() <= i < list.moves@.len() implies (setup_ok(board) ==> generated_move(
            board,
            #[trigger] list.moves@[i].0,
        )) by {
            if setup_ok(board) {
                lemma_exact_move(board, list.moves@[i].0, 4);
            }
        }
        lemma_exact_extend(p4, list.moves@, board, init.len() as int);
    }
    let ghost p5 = list.moves@;
    gen_piece_moves(board, list, PieceType::Rook, false);
    proof {
        lemma_chain(board, init, p5, list.moves@, false);
        assert forall|i: int| p5.len() <= i < list.moves@.len() implies gen_class(board, #[trigger] list.moves@[i].0)
            == 5 by {
            lemma_piece_class(board, list.moves@[i].0, PieceType::Rook);
        }
        lemma_extend_run(p5, list.moves@, board, init.len() as int, 5);
        assert forall|i: int| p5.len() <= i < list.moves@.len() implies (setup_ok(board) ==> generated_move(
            board,
            #[trigger] list.moves@[i].0,
        )) by {
            if setup_ok(board) {
                lemma_exact_move(board, list.moves@[i].0, 5);
            }
        }
        lemma_exact_extend(p5, list.moves@, board, init.len() as int);
    }
    let ghost p6 = list.moves@;
    gen_piece_moves(board, list, PieceType::Queen, false);
    proof {
        lemma_chain(board, init, p6, list.moves@, false);
        assert forall|i: int| p6.len() <= i < list.moves@.len() implies gen_class(board, #[trigger] list.moves@[i].0)
            == 6 by {
            lemma_piece_class(board, list.moves@[i].0, PieceType::Queen);
        }
        lemma_extend_run(p6, list.moves@, board, init.len() as int, 6);
        assert forall|i: int| p6.len() <= i < list.moves@.len() implies (setup_ok(board) ==> generated_move(
            board,
            #[trigger] list.moves@[i].0,
        )) by {
            if setup_ok(board) {
                lemma_exact_move(board, list.moves@[i].0, 6);
            }
        }
        lemma_exact_extend(p6, list.moves@, board, init.len() as int);
    }
    let ghost p7 = list.moves@;
    proof {
        lemma_prefix_trans(p1, p2, p3);
        lemma_prefix_trans(p1, p3, p4);
        lemma_prefix_trans(p1, p4, p5);
        lemma_prefix_trans(p1, p5, p6);
        lemma_prefix_trans(p1, p6, p7);
        lemma_prefix_trans(p2, p3, p4);
        lemma_prefix_trans(p2, p4, p5);
        lemma_prefix_trans(p2, p5, p6);
        lemma_prefix_trans(p2, p6, p7);
        lemma_prefix_trans(p3, p4, p5);
        lemma_prefix_trans(p3, p5, p6);
        lemma_prefix_trans(p3, p6, p7);
        lemma_prefix_trans(p4, p5, p6);
        lemma_prefix_trans(p4, p6, p7);
        lemma_prefix_trans(p5, p6, p7);
        lemma_all_parts_grow(p1, p7, board);
        lemma_all_parts_grow(p2, p7, board);
        lemma_all_parts_grow(p3, p7, board);
        lemma_all_parts_grow(p4, p7, board);
        lemma_all_parts_grow(p5, p7, board);
        lemma_all_parts_grow(p6, p7, board);
        assert forall|t: int| push_target(board, t) implies #[trigger] push_listed(p7, board, t) by {
            assert(bit_set(pushes_all, t));
            assert(push_listed(p1, board, t));
        }
        assert forall|t: int| double_target(board, t) implies #[trigger] double_listed(p7, board, t) by {
            assert(bit_set(doubles_all, t));
            assert(double_listed(p2, board, t));
        }
        assert forall|s: int| piece_at(board, s, side, PieceType::Pawn) implies #[trigger] pawn_captures_listed(
            p7,
            board,
            s,
        ) by {
            assert(bit_set(pawns, s));
            assert(pawn_captures_listed(p3, board, s));
        }
        assert forall|s: int| piece_at(board, s, side, PieceType::Knight) implies #[trigger] piece_moves_listed(
            p7,
            board,
            PieceType::Knight,
            s,
            false,
        ) by {
            assert(piece_moves_listed(p4, board, PieceType::Knight, s, false));
        }
        assert forall|s: int| piece_at(board, s, side, PieceType::Bishop) implies #[trigger] piece_moves_listed(
            p7,
            board,
            PieceType::Bishop,
            s,
            false,
        ) by {
            assert(piece_moves_listed(p5, board, PieceType::Bishop, s, false));
        }
        assert forall|s: int| piece_at(board, s, side, PieceType::Rook) implies #[trigger] piece_moves_listed(
            p7,
            board,
            PieceType::Rook,
            s,
            false,
        ) by {
            assert(piece_moves_listed(p6, board, PieceType::Rook, s, false));
        }
    }
    let kings = board.color_piece_bb(side, PieceType::King);
    if kings.is_empty() {
        proof {
            assert(king_square(board.pieces, board.colors, side) == 64) by {
                vstd::std_specs::bits::axiom_u64_trailing_zeros(kings.0);
            }
            assert(all_moves_listed(list.moves@, board));
            assert forall|m: u16| generated_move(board, m) implies #[trigger] listed(list.moves@, m) by {
                lemma_generated_listed(list.moves@, board, m);
            }
        }
        return;
    }
    let k_sq = kings.lsb();
    gen_piece_from(board, list, PieceType::King, k_sq, false);
    proof {
        lemma_chain(board, init, p7, list.moves@, false);
        assert(bit_set(kings.0, k_sq as int));
        assert forall|i: int| p7.len() <= i < list.moves@.len() implies gen_class(board, #[trigger] list.moves@[i].0)
            == 7 by {
            lemma_piece_class(board, list.moves@[i].0, PieceType::King);
        }
        lemma_extend_run(p7, list.moves@, board, init.len() as int, 7);
        assert forall|i: int| p7.len() <= i < list.moves@.len() implies (setup_ok(board) ==> generated_move(
            board,
            #[trigger] list.moves@[i].0,
        )) by {
            if setup_ok(board) {
                lemma_exact_move(board, list.moves@[i].0, 7);
            }
        }
        lemma_exact_extend(p7, list.moves@, board, init.len() as int);
    }
    let ghost p8 = list.moves@;
    gen_castling(board, list);
    proof {
        assert forall|i: int| p8.len() <= i < list.moves@.len() implies gen_class(board, #[trigger] list.moves@[i].0)
            == 8 by {
        }
        lemma_extend_run(p8, list.moves@, board, init.len() as int, 8);
        assert forall|i: int| p8.len() <= i < list.moves@.len() implies (setup_ok(board) ==> generated_move(
            board,
            #[trigger] list.moves@[i].0,
        )) by {
            if setup_ok(board) {
                lemma_exact_move(board, list.moves@[i].0, 8);
            }
        }
        lemma_exact_extend(p8, list.moves@, board, init.len() as int);
        lemma_chain(board, init, p8, list.moves@, false);
        lemma_all_parts_grow(p7, list.moves@, board);
        lemma_all_parts_grow(p8, list.moves@, board);
        assert forall|t: int| push_target(board, t) implies #[trigger] push_listed(list.moves@, board, t) by {
            assert(push_listed(p7, board, t));
        }
        assert forall|t: int| double_target(board, t) implies #[trigger] double_listed(list.moves@, board, t) by {
            assert(double_listed(p7, board, t));
        }
        assert forall|s: int| piece_at(board, s, side, PieceType::Pawn) implies #[trigger] pawn_captures_listed(
            list.moves@,
            board,
            s,
        ) by {
            assert(pawn_captures_listed(p7, board, s));
        }
        assert forall|s: int| piece_at(board, s, side, PieceType::Knight) implies #[trigger] piece_moves_listed(
            list.moves@,
            board,
            PieceType::Knight,
            s,
            false,
        ) by {
            assert(piece_moves_listed(p7, board, PieceType::Knight, s, false));
        }
        assert forall|s: int| piece_at(board, s, side, PieceType::Bishop) implies #[trigger] piece_moves_listed(
            list.moves@,
            board,
            PieceType::Bishop,
            s,
            false,
        ) by {
            assert(piece_moves_listed(p7, board, PieceType::Bishop, s, false));
        }
        assert forall|s: int| piece_at(board, s, side, PieceType::Rook) implies #[trigger] piece_moves_listed(
            list.moves@,
            board,
            PieceType::Rook,
            s,
            false,
        ) by {
            assert(piece_moves_listed(p7, board, PieceType::Rook, s, false));
        }
        assert forall|s: int| piece_at(board, s, side, PieceType::Queen) implies #[trigger] piece_moves_listed(
            list.moves@,
            board,
            PieceType::Queen,
            s,
            false,
        ) by {
            assert(piece_moves_listed(p7, board, PieceType::Queen, s, false));
        }
        assert(piece_moves_listed(p8, board, PieceType::King, k_sq as int, false));
        assert(all_moves_listed(list.moves@, board));
        assert forall|m: u16| generated_move(board, m) implies #[trigger] listed(list.moves@, m) by {
            lemma_generated_listed(list.moves@, board, m);
        }
    }
}

/// The moves the generator gives: the pseudo-legal ones, each with the one
/// flag generation gives it (a quiet single pawn step, a plain pawn capture
/// with the capture flag), king steps from the king square it looks at,
/// and castling from the king's home square.
pub open spec fn generated_move(b: &Board, m: u16) -> bool {
    let from = spec_from_sq(m) as int;
    let to = spec_to_sq(m) as int;
    let f = spec_flag(m);
    &&& b.spec_pseudo_legal(m)
    &&& b.piece_on_sq[from] matches Some(p) ==> match p.spec_piece_type() {
        PieceType::Pawn => {
            &&& !spec_is_capture(m) && !spec_is_promotion(m) && to != from + 16 && to != from - 16 ==> f
                == Move::FLAG_QUIET
            &&& spec_is_capture(m) && !spec_is_promotion(m) && f != Move::FLAG_EP ==> f == Move::FLAG_CAPTURE
        },
        PieceType::King => if is_castle_flag(m) {
            m == castle_move(b.side_to_move, f == Move::FLAG_K_CASTLE)
        } else {
            from == king_square(b.pieces, b.colors, b.side_to_move)
        },
        _ => true,
    }
}

/// A move is its squares and its flag put together.
proof fn lemma_move_parts(m: u16)
    ensures
        m == spec_move_bits(spec_from_sq(m), spec_to_sq(m), spec_flag(m)),
        flag_ok(spec_flag(m)),
        spec_from_sq(m) < 64,
        spec_to_sq(m) < 64,
        spec_is_capture(m) == ((spec_flag(m) / 16384) % 2 == 1),
        spec_is_promotion(m) == (spec_flag(m) >= 32768),
{
    assert(m == ((m & 0xF000u16) | ((((m >> 6u16) & 0x3Fu16) as u8 as u16) << 6u16) | ((m & 0x3Fu16) as u8 as u16)))
        by (bit_vector);
    assert((m & 0xF000u16) % 4096 == 0) by (bit_vector);
    assert((m & 0x3Fu16) < 64 && ((m >> 6u16) & 0x3Fu16) < 64) by (bit_vector);
    assert(((m & 0x4000u16) != 0) == (((m & 0xF000u16) / 16384) % 2 == 1)) by (bit_vector);
    assert(((m & 0x8000u16) != 0) == ((m & 0xF000u16) >= 32768)) by (bit_vector);
}

/// A flag with the promotion bit is one of the four promotion flags of its
/// kind.
proof fn lemma_promotion_flags(f: u16)
    requires
        flag_ok(f),
        f >= 32768,
    ensures
        (f / 16384) % 2 == 1 ==> f == Move::FLAG_PC_QUEEN || f == Move::FLAG_PC_ROOK || f == Move::FLAG_PC_BISHOP || f
            == Move::FLAG_PC_KNIGHT,
        (f / 16384) % 2 == 0 ==> f == Move::FLAG_PR_QUEEN || f == Move::FLAG_PR_ROOK || f == Move::FLAG_PR_BISHOP || f
            == Move::FLAG_PR_KNIGHT,
{
}

/// Some king of `c` stands on the board: the king square looked at is on it.
proof fn lemma_king_square_on_board(b: &Board, s: int, c: Color)
    requires
        b.pos_ok(),
        piece_at(b, s, c, PieceType::King),
    ensures
        king_square(b.pieces, b.colors, c) < 64,
{
    let x = b.pieces[5].0 & b.colors[c.spec_index()].0;
    lemma_piece_parts(c, PieceType::King);
    assert(bit_set(b.pieces[5].0, s));
    assert(bit_set(b.colors[c.spec_index()].0, s));
    lemma_bit_and(b.pieces[5].0, b.colors[c.spec_index()].0, s);
    vstd::std_specs::bits::axiom_u64_trailing_zeros(x);
    if x == 0 {
        crate::bitboard::lemma_zero_iff_no_bits(x);
    }
}

/// Every move the generator gives is listed where all its parts are.
proof fn lemma_generated_listed(moves: Seq<Move>, b: &Board, m: u16)
    requires
        b.pos_ok(),
        all_moves_listed(moves, b),
        generated_move(b, m),
    ensures
        listed(moves, m),
{
    let from = spec_from_sq(m) as int;
    let to = spec_to_sq(m) as int;
    let f = spec_flag(m);
    let side = b.side_to_move;
    lemma_move_parts(m);
    let p = b.piece_on_sq[from].unwrap();
    assert(p.wf());
    crate::types::lemma_piece_roundtrip(p);
    let pt = p.spec_piece_type();
    assert(piece_at(b, from, side, pt));
    match pt {
        PieceType::Pawn => {
            assert(pawn_captures_listed(moves, b, from));
            if f == Move::FLAG_EP {
                assert(listed(moves, m));
            } else if spec_is_capture(m) {
                assert(enemy_at(b, to));
                assert(capture_listed(moves, b, from, to));
                if spec_is_promotion(m) {
                    lemma_promotion_flags(f);
                    assert(promotion_rank(side, to));
                    assert(listed(moves, m));
                } else {
                    assert(f == Move::FLAG_CAPTURE);
                    assert(!promotion_rank(side, to));
                    assert(listed(moves, m));
                }
            } else if side == Color::White {
                if to == from + 8 {
                    assert(push_target(b, to));
                    assert(push_listed(moves, b, to));
                    if spec_is_promotion(m) {
                        lemma_promotion_flags(f);
                        assert(listed(moves, m));
                    } else {
                        assert(f == Move::FLAG_QUIET);
                        assert(listed(moves, m));
                    }
                } else {
                    assert(double_target(b, to));
                    assert(double_listed(moves, b, to));
                    assert(listed(moves, m));
                }
            } else {
                if to == from - 8 {
                    assert(push_target(b, to));
                    assert(push_listed(moves, b, to));
                    if spec_is_promotion(m) {
                        lemma_promotion_flags(f);
                        assert(listed(moves, m));
                    } else {
                        assert(f == Move::FLAG_QUIET);
                        assert(listed(moves, m));
                    }
                } else {
                    assert(double_target(b, to));
                    assert(double_listed(moves, b, to));
                    assert(listed(moves, m));
                }
            }
            assert(listed(moves, m));
        },
        PieceType::King => {
            lemma_king_square_on_board(b, from, side);
            if is_castle_flag(m) {
                assert(castling_listed(moves, b));
            } else {
                assert(piece_moves_listed(moves, b, PieceType::King, from, false));
                assert(piece_attacks(PieceType::King, Color::White, from, to, b.occ()));
                if b.piece_on_sq[to] is Some {
                    assert(enemy_at(b, to));
                    assert(f == Move::FLAG_CAPTURE);
                    assert(listed(moves, spec_move_bits(from as u8, to as u8, Move::FLAG_CAPTURE)));
                } else {
                    assert(empty_at(b, to));
                    assert(f == Move::FLAG_QUIET);
                    assert(listed(moves, spec_move_bits(from as u8, to as u8, Move::FLAG_QUIET)));
                }
            }
            assert(listed(moves, m));
        },
        _ => {
            assert(piece_moves_listed(moves, b, pt, from, false));
            assert(piece_attacks(pt, Color::White, from, to, b.occ()));
            if b.piece_on_sq[to] is Some {
                assert(enemy_at(b, to));
                assert(f == Move::FLAG_CAPTURE);
                assert(listed(moves, spec_move_bits(from as u8, to as u8, Move::FLAG_CAPTURE)));
            } else {
                assert(empty_at(b, to));
                assert(f == Move::FLAG_QUIET);
                assert(listed(moves, spec_move_bits(from as u8, to as u8, Move::FLAG_QUIET)));
            }
        },
    }
}

/// Where the position meets `setup_ok`, every move of `s` between `lo` and
/// `hi` is one the generator gives.
pub open spec fn exact_in(s: Seq<Move>, b: &Board, lo: int, hi: int) -> bool {
    forall|i: int| lo <= i < hi ==> (setup_ok(b) ==> generated_move(b, #[trigger] s[i].0))
}

proof fn lemma_exact_extend(a: Seq<Move>, s: Seq<Move>, b: &Board, lo: int)
    requires
        keeps_prefix(a, s),
        0 <= lo <= a.len(),
        exact_in(a, b, lo, a.len() as int),
        exact_in(s, b, a.len() as int, s.len() as int),
    ensures
        exact_in(s, b, lo, s.len() as int),
{
    assert forall|i: int| lo <= i < s.len() implies (setup_ok(b) ==> generated_move(b, #[trigger] s[i].0)) by {
        if i < a.len() {
            assert(s[i] == a[i]);
        }
    }
}

/// The moves of each part of the generator are ones the generator gives:
/// single steps with the quiet or a promotion flag, double steps of two
/// ranks, pawn captures with the capture, en passant or a promotion flag,
/// moves of knights, bishops, rooks and queens, king steps from the king
/// square, and castling from the home square.
proof fn lemma_exact_move(b: &Board, m: u16, class: int)
    requires
        b.pos_ok(),
        b.spec_pseudo_legal(m),
        class == 0 ==> pawn_step(b, m),
        class == 1 ==> piece_at(b, spec_from_sq(m) as int, b.side_to_move, PieceType::Pawn) && spec_flag(m)
            == Move::FLAG_DBL_PUSH && (spec_to_sq(m) as int == spec_from_sq(m) + 16 || spec_to_sq(m) as int
            == spec_from_sq(m) - 16),
        class == 2 ==> piece_at(b, spec_from_sq(m) as int, b.side_to_move, PieceType::Pawn) && (spec_flag(m)
            == Move::FLAG_CAPTURE || spec_flag(m) == Move::FLAG_EP || spec_flag(m) >= 0xC000u16),
        3 <= class <= 6 ==> piece_at(
            b,
            spec_from_sq(m) as int,
            b.side_to_move,
            piece_type_from_index(class - 2),
        ),
        class == 7 ==> piece_at(b, spec_from_sq(m) as int, b.side_to_move, PieceType::King) && spec_from_sq(m) as int
            == king_square(b.pieces, b.colors, b.side_to_move) && (spec_flag(m) == Move::FLAG_CAPTURE || spec_flag(m)
            == Move::FLAG_QUIET),
        class == 8 ==> m == castle_move(b.side_to_move, spec_flag(m) == Move::FLAG_K_CASTLE) && (spec_flag(m)
            == Move::FLAG_K_CASTLE || spec_flag(m) == Move::FLAG_Q_CASTLE),
        0 <= class <= 8,
    ensures
        generated_move(b, m),
{
    lemma_move_parts(m);
    let side = b.side_to_move;
    lemma_piece_parts(side, PieceType::Pawn);
    lemma_piece_parts(side, PieceType::Knight);
    lemma_piece_parts(side, PieceType::Bishop);
    lemma_piece_parts(side, PieceType::Rook);
    lemma_piece_parts(side, PieceType::Queen);
    lemma_piece_parts(side, PieceType::King);
    if class == 8 {
        let from = spec_from_sq(m) as int;
        let p = b.piece_on_sq[from].unwrap();
        assert(p.wf());
        if p.spec_piece_type() != PieceType::King {
            assert(spec_flag(m) == Move::FLAG_K_CASTLE || spec_flag(m) == Move::FLAG_Q_CASTLE);
            lemma_move_roundtrip(4, 6, Move::FLAG_K_CASTLE);
            lemma_move_roundtrip(4, 2, Move::FLAG_Q_CASTLE);
            lemma_move_roundtrip(60, 62, Move::FLAG_K_CASTLE);
            lemma_move_roundtrip(60, 58, Move::FLAG_Q_CASTLE);
            assert(false);
        }
    }
}

/// Every capture and promotion of the side to move, with the flag
/// generation gives it, is listed: pawn steps onto the last rank, pawn
/// captures and en passant, the captures of knights, bishops, rooks and
/// queens, and those of the king on the lowest king square.
pub open spec fn tactical_moves_listed(moves: Seq<Move>, b: &Board) -> bool {
    let side = b.side_to_move;
    let ks = king_square(b.pieces, b.colors, side);
    &&& forall|t: int| push_target(b, t) && promotion_rank(side, t) ==> #[trigger] push_listed(moves, b, t)
    &&& forall|s: int| piece_at(b, s, side, PieceType::Pawn) ==> #[trigger] pawn_captures_listed(moves, b, s)
    &&& forall|s: int|
        piece_at(b, s, side, PieceType::Knight) ==> #[trigger] piece_moves_listed(moves, b, PieceType::Knight, s, true)
    &&& forall|s: int|
        piece_at(b, s, side, PieceType::Bishop) ==> #[trigger] piece_moves_listed(moves, b, PieceType::Bishop, s, true)
    &&& forall|s: int|
        piece_at(b, s, side, PieceType::Rook) ==> #[trigger] piece_moves_listed(moves, b, PieceType::Rook, s, true)
    &&& forall|s: int|
        piece_at(b, s, side, PieceType::Queen) ==> #[trigger] piece_moves_listed(moves, b, PieceType::Queen, s, true)
    &&& ks < 64 ==> piece_moves_listed(moves, b, PieceType::King, ks, true)
}

/// The captures and promotions of the side to move, appended to `list`:
/// pawn pushes that promote, pawn captures and en passant, then captures by
/// knights, bishops, rooks, queens and the king.
pub fn generate_pseudo_legal_captures(board: &Board, list: &mut MoveList)
    requires
        old(list).wf(),
        gen_ready(board),
    ensures
        final(list).wf(),
        keeps_prefix(old(list).moves@, final(list).moves@),
        sound_from(board, final(list).moves@, old(list).moves@.len() as int),
        tactical_from(final(list).moves@, old(list).moves@.len() as int),
        tactical_moves_listed(final(list).moves@, board),
        distinct_in(final(list).moves@, old(list).moves@.len() as int, final(list).moves@.len() as int),
        setup_ok(board) ==> forall|i: int|
            old(list).moves@.len() <= i < final(list).moves@.len() ==> generated_move(
                board,
                #[trigger] final(list).moves@[i].0,
            ),
{
    let side = board.side_to_move;
    let us = board.color_occupancy(side).0;
    let them = board.color_occupancy(side.flip()).0;
    let pawns = board.color_piece_bb(side, PieceType::Pawn).0;
    let ghost init = list.moves@;
    let ghost promos_all: u64;
    if side == Color::White {
        let pushes = (pawns << 8u64) & !(us | them);
        let promos = pushes & RANK_8;
        proof {
            assert forall|t: int| #[trigger] bit_set(promos, t) == (push_target(board, t) && promotion_rank(board.side_to_move, t)) by {
                lemma_bit_and(pushes, RANK_8, t);
                lemma_rank_bits(t);
                lemma_bit_and(pawns << 8u64, !(us | them), t);
                lemma_bit_shl(pawns, 8, t);
                lemma_color_bits(board, t);
            }
        }
        gen_pawn_pushes(board, list, promos);
        proof {
            promos_all = promos;
        }
    } else {
        let pushes = (pawns >> 8u64) & !(us | them);
        let promos = pushes & RANK_1;
        proof {
            assert forall|t: int| #[trigger] bit_set(promos, t) == (push_target(board, t) && promotion_rank(board.side_to_move, t)) by {
                lemma_bit_and(pushes, RANK_1, t);
                lemma_rank_bits(t);
                lemma_bit_and(pawns >> 8u64, !(us | them), t);
                lemma_bit_shr(pawns, 8, t);
                lemma_color_bits(board, t);
            }
        }
        gen_pawn_pushes(board, list, promos);
        proof {
            promos_all = promos;
        }
    }
    let ghost p2 = list.moves@;
    proof {
        assert forall|i: int| init.len() <= i < p2.len() implies gen_class(board, #[trigger] p2[i].0) <= 0 by {
            assert(pawn_step(board, p2[i].0));
        }
        assert(runs_ok(p2, board, init.len() as int, p2.len() as int, 0));
        assert forall|i: int| init.len() <= i < p2.len() implies (setup_ok(board) ==> generated_move(
            board,
            #[trigger] p2[i].0,
        )) by {
            if setup_ok(board) {
                lemma_exact_move(board, p2[i].0, 0);
            }
        }
        assert forall|t: int| #[trigger] bit_set(them, t) == enemy_at(board, t) by {
            lemma_color_bits(board, t);
        }
    }
    gen_pawn_captures(board, list, pawns, them);
    proof {
        lemma_chain(board, init, p2, list.moves@, true);
        assert forall|i: int| p2.len() <= i < list.moves@.len() implies gen_class(board, #[trigger] list.moves@[i].0)
            == 2 by {
            let m = list.moves@[i].0;
            lemma_flag_bits(m);
            assert(bit_set(pawns, spec_from_sq(m) as int));
        }
        assert(runs_ok(p2, board, init.len() as int, p2.len() as int, 1));
        lemma_extend_run(p2, list.moves@, board, init.len() as int, 2);
        assert forall|i: int| p2.len() <= i < list.moves@.len() implies (setup_ok(board) ==> generated_move(
            board,
            #[trigger] list.moves@[i].0,
        )) by {
            if setup_ok(board) {
                assert(bit_set(pawns, spec_from_sq(list.moves@[i].0) as int));
                lemma_exact_move(board, list.moves@[i].0, 2);
            }
        }
        lemma_exact_extend(p2, list.moves@, board, init.len() as int);
    }
    let ghost p3 = list.moves@;
    gen_piece_moves(board, list, PieceType::Knight, true);
    proof {
        lemma_chain(board, init, p3, list.moves@, true);
        assert forall|i: int| p3.len() <= i < list.moves@.len() implies gen_class(board, #[trigger] list.moves@[i].0)
            == 3 by {
            lemma_piece_class(board, list.moves@[i].0, PieceType::Knight);
        }
        lemma_extend_run(p3, list.moves@, board, init.len() as int, 3);
        assert forall|i: int| p3.len() <= i < list.moves@.len() implies (setup_ok(board) ==> generated_move(
            board,
            #[trigger] list.moves@[i].0,
        )) by {
            if setup_ok(board) {
                lemma_exact_move(board, list.moves@[i].0, 3);
            }
        }
        lemma_exact_extend(p3, list.moves@, board, init.len() as int);
    }
    let ghost p4 = list.moves@;
    gen_piece_moves(board, list, PieceType::Bishop, true);
    proof {
        lemma_chain(board, init, p4, list.moves@, true);
        assert forall|i: int| p4.len() <= i < list.moves@.len() implies gen_class(board, #[trigger] list.moves@[i].0)
            == 4 by {
            lemma_piece_class(board, list.moves@[i].0, PieceType::Bishop);
        }
        lemma_extend_run(p4, list.moves@, board, init.len() as int, 4);
        assert forall|i: int| p4.len() <= i < list.moves@.len() implies (setup_ok(board) ==> generated_move(
            board,
            #[trigger] list.moves@[i].0,
        )) by {
            if setup_ok(board) {
                lemma_exact_move(board, list.moves@[i].0, 4);
            }
        }
        lemma_exact_extend(p4, list.moves@, board, init.len() as int);
    }
    let ghost p5 = list.moves@;
    gen_piece_moves(board, list, PieceType::Rook, true);
    proof {
        lemma_chain(board, init, p5, list.moves@, true);
        assert forall|i: int| p5.len() <= i < list.moves@.len() implies gen_class(board, #[trigger] list.moves@[i].0)
            == 5 by {
            lemma_piece_class(board, list.moves@[i].0, PieceType::Rook);
        }
        lemma_extend_run(p5, list.moves@, board, init.len() as int, 5);
        assert forall|i: int| p5.len() <= i < list.moves@.len() implies (setup_ok(board) ==> generated_move(
            board,
            #[trigger] list.moves@[i].0,
        )) by {
            if setup_ok(board) {
                lemma_exact_move(board, list.moves@[i].0, 5);
            }
        }
        lemma_exact_extend(p5, list.moves@, board, init.len() as int);
    }
    let ghost p6 = list.moves@;
    gen_piece_moves(board, list, PieceType::Queen, true);
    proof {
        lemma_chain(board, init, p6, list.moves@, true);
        assert forall|i: int| p6.len() <= i < list.moves@.len() implies gen_class(board, #[trigger] list.moves@[i].0)
            == 6 by {
            lemma_piece_class(board, list.moves@[i].0, PieceType::Queen);
        }
        lemma_extend_run(p6, list.moves@, board, init.len() as int, 6);
        assert forall|i: int| p6.len() <= i < list.moves@.len() implies (setup_ok(board) ==> generated_move(
            board,
            #[trigger] list.moves@[i].0,
        )) by {
            if setup_ok(board) {
                lemma_exact_move(board, list.moves@[i].0, 6);
            }
        }
        lemma_exact_extend(p6, list.moves@, board, init.len() as int);
    }
    let ghost p7 = list.moves@;
    proof {
        lemma_prefix_trans(p2, p3, p4);
        lemma_prefix_trans(p2, p4, p5);
        lemma_prefix_trans(p2, p5, p6);
        lemma_prefix_trans(p2, p6, p7);
        lemma_prefix_trans(p3, p4, p5);
        lemma_prefix_trans(p3, p5, p6);
        lemma_prefix_trans(p3, p6, p7);
        lemma_prefix_trans(p4, p5, p6);
        lemma_prefix_trans(p4, p6, p7);
        lemma_prefix_trans(p5, p6, p7);
        lemma_all_parts_grow(p2, p7, board);
        lemma_all_parts_grow(p3, p7, board);
        lemma_all_parts_grow(p4, p7, board);
        lemma_all_parts_grow(p5, p7, board);
        lemma_all_parts_grow(p6, p7, board);
        assert forall|t: int| push_target(board, t) && promotion_rank(side, t) implies #[trigger] push_listed(
            p7,
            board,
            t,
        ) by {
            assert(bit_set(promos_all, t));
            assert(push_listed(p2, board, t));
        }
        assert forall|s: int| piece_at(board, s, side, PieceType::Pawn) implies #[trigger] pawn_captures_listed(
            p7,
            board,
            s,
        ) by {
            assert(bit_set(pawns, s));
            assert(pawn_captures_listed(p3, board, s));
        }
        assert forall|s: int| piece_at(board, s, side, PieceType::Knight) implies #[trigger] piece_moves_listed(
            p7,
            board,
            PieceType::Knight,
            s,
            true,
        ) by {
            assert(piece_moves_listed(p4, board, PieceType::Knight, s, true));
        }
        assert forall|s: int| piece_at(board, s, side, PieceType::Bishop) implies #[trigger] piece_moves_listed(
            p7,
            board,
            PieceType::Bishop,
            s,
            true,
        ) by {
            assert(piece_moves_listed(p5, board, PieceType::Bishop, s, true));
        }
        assert forall|s: int| piece_at(board, s, side, PieceType::Rook) implies #[trigger] piece_moves_listed(
            p7,
            board,
            PieceType::Rook,
            s,
            true,
        ) by {
            assert(piece_moves_listed(p6, board, PieceType::Rook, s, true));
        }
    }
    let mut kings = board.color_piece_bb(side, PieceType::King);
    if kings.is_not_empty() {
        let ghost kings0 = kings.0;
        let k_sq = kings.pop_lsb();
        gen_piece_from(board, list, PieceType::King, k_sq, true);
        proof {
            assert(bit_set(kings0, k_sq as int));
            assert forall|i: int| p7.len() <= i < list.moves@.len() implies gen_class(
                board,
                #[trigger] list.moves@[i].0,
            ) == 7 by {
                lemma_piece_class(board, list.moves@[i].0, PieceType::King);
            }
            lemma_extend_run(p7, list.moves@, board, init.len() as int, 7);
            assert forall|i: int| p7.len() <= i < list.moves@.len() implies (setup_ok(board) ==> generated_move(
                board,
                #[trigger] list.moves@[i].0,
            )) by {
                if setup_ok(board) {
                    lemma_exact_move(board, list.moves@[i].0, 7);
                }
            }
            lemma_exact_extend(p7, list.moves@, board, init.len() as int);
            lemma_chain(board, init, p7, list.moves@, true);
            lemma_all_parts_grow(p7, list.moves@, board);
            assert forall|t: int| push_target(board, t) && promotion_rank(side, t) implies #[trigger] push_listed(
                list.moves@,
                board,
                t,
            ) by {
                assert(push_listed(p7, board, t));
            }
            assert forall|s: int| piece_at(board, s, side, PieceType::Pawn) implies #[trigger] pawn_captures_listed(
                list.moves@,
                board,
                s,
            ) by {
                assert(pawn_captures_listed(p7, board, s));
            }
            assert forall|s: int| piece_at(board, s, side, PieceType::Knight) implies #[trigger] piece_moves_listed(
                list.moves@,
                board,
                PieceType::Knight,
                s,
                true,
            ) by {
                assert(piece_moves_listed(p7, board, PieceType::Knight, s, true));
            }
            assert forall|s: int| piece_at(board, s, side, PieceType::Bishop) implies #[trigger] piece_moves_listed(
                list.moves@,
                board,
                PieceType::Bishop,
                s,
                true,
            ) by {
                assert(piece_moves_listed(p7, board, PieceType::Bishop, s, true));
            }
            assert forall|s: int| piece_at(board, s, side, PieceType::Rook) implies #[trigger] piece_moves_listed(
                list.moves@,
                board,
                PieceType::Rook,
                s,
                true,
            ) by {
                assert(piece_moves_listed(p7, board, PieceType::Rook, s, true));
            }
            assert forall|s: int| piece_at(board, s, side, PieceType::Queen) implies #[trigger] piece_moves_listed(
                list.moves@,
                board,
                PieceType::Queen,
                s,
                true,
            ) by {
                assert(piece_moves_listed(p7, board, PieceType::Queen, s, true));
            }
        }
    } else {
        proof {
            assert(king_square(board.pieces, board.colors, side) == 64) by {
                vstd::std_specs::bits::axiom_u64_trailing_zeros(kings.0);
            }
        }
    }
}

} // verus!
