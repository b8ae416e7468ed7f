use vstd::prelude::*;
use crate::board::{attacked_by, king_square, reversible, lemma_can_unmake_after_make, lemma_make_unmake_roundtrip, Board, UndoState};
use crate::movegen::{distinct_in, generate_pseudo_legal_moves, gen_ready, generated_move, listed, setup_ok, MoveList};
use crate::bitboard::{bit_set, lemma_bits_ext};
use crate::types::{Move, PieceType, Square};

verus! {

/// Two boards that only differ in how their history and accumulator are held.
pub open spec fn equivalent(a: Board, b: Board) -> bool {
    &&& a.piece_on_sq == b.piece_on_sq
    &&& a.pieces == b.pieces
    &&& a.colors == b.colors
    &&& a.side_to_move == b.side_to_move
    &&& a.en_passant == b.en_passant
    &&& a.castling == b.castling
    &&& a.halfmove_clock == b.halfmove_clock
    &&& a.fullmove_number == b.fullmove_number
    &&& a.zobrist_key == b.zobrist_key
    &&& a.accumulator.same(&b.accumulator)
    &&& a.position_history@ == b.position_history@
    &&& a.nnue == b.nnue
    &&& a.keys == b.keys
}

/// After a move, the side that moved still has a king and it is not attacked.
pub open spec fn mover_safe(b: Board) -> bool {
    let mover = b.side_to_move.spec_flip();
    &&& b.pieces[5].0 & b.colors[mover.spec_index()].0 != 0
    &&& !attacked_by(b.piece_on_sq, b.occ(), king_square(b.pieces, b.colors, mover), b.side_to_move)
}

/// Making `m` on `b` leaves the mover's king safe, whichever board it gives.
pub open spec fn legal_move(b: Board, m: u16) -> bool {
    forall|b1: Board, u: UndoState| #[trigger] Board::made(b, b1, m, u) && b1.wf() ==> mover_safe(b1)
}

/// The boards perft can walk to `depth`: every pseudo-legal move can be
/// made and taken back, and so on from every position reached where the
/// side that moved is not in check.
pub open spec fn perft_ready(b: Board, depth: nat) -> bool
    decreases depth,
{
    depth == 0 || {
        &&& b.wf()
        &&& gen_ready(&b)
        &&& setup_ok(&b)
        &&& forall|m: u16| #[trigger]
            b.spec_pseudo_legal(m) ==> {
                &&& b.can_make(m)
                &&& reversible(b.piece_on_sq@, m)
                &&& forall|b1: Board, u: UndoState|
                    #[trigger] Board::made(b, b1, m, u) && b1.wf() && mover_safe(b1) ==> perft_ready(b1, (depth - 1) as nat)
            }
    }
}

/// The board with its accumulator and history set aside: what perft reads.
pub open spec fn stripped(b: Board) -> Board {
    Board { accumulator: arbitrary(), position_history: arbitrary(), ..b }
}

/// `x` is a board that making `m` on `b` gives, and the mover's king is safe
/// on it.
pub open spec fn legal_child(b: Board, m: u16, x: Board) -> bool {
    Board::moved(b, x, m) && x.wf() && mover_safe(x)
}

/// The perft count below the move `m` of `b`: that of the board the move
/// gives when it is generated and leaves the mover's king safe, else zero.
pub open spec fn move_nodes(b: Board, depth: nat, m: u16) -> int
    decreases depth, 0nat,
{
    if depth > 0 && generated_move(&b, m) && exists|x: Board| #[trigger] legal_child(b, m, x) {
        perft_count(stripped(choose|x: Board| #[trigger] legal_child(b, m, x)), (depth - 1) as nat)
    } else {
        0
    }
}

/// The perft counts below the moves whose codes are under `k`.
pub open spec fn nodes_below(b: Board, depth: nat, k: nat) -> int
    decreases depth, k,
{
    if k == 0 || depth == 0 {
        0
    } else {
        nodes_below(b, depth, (k - 1) as nat) + move_nodes(b, depth, (k - 1) as u16)
    }
}

/// The number of move sequences of `depth` moves from `b` in which no side
/// leaves its own king attacked.
pub open spec fn perft_count(b: Board, depth: nat) -> int
    decreases depth, 0x10001nat,
{
    if depth == 0 {
        1
    } else {
        nodes_below(b, depth, 0x10000)
    }
}

/// `x` capped at the largest `u64`.
pub open spec fn saturate(x: int) -> int {
    if x > u64::MAX {
        u64::MAX as int
    } else {
        x
    }
}

/// The sum of `f` over the move codes under `k`.
pub open spec fn code_sum(f: spec_fn(u16) -> int, k: nat) -> int
    decreases k,
{
    if k == 0 {
        0
    } else {
        code_sum(f, (k - 1) as nat) + f((k - 1) as u16)
    }
}

/// The sum of `f` over the codes of the moves of `s`.
pub open spec fn list_sum(f: spec_fn(u16) -> int, s: Seq<Move>) -> int
    decreases s.len(),
{
    if s.len() == 0 {
        0
    } else {
        list_sum(f, s.drop_last()) + f(s.last().0)
    }
}

/// Changing `f` at one code changes its sum by the difference there.
proof fn lemma_code_sum_point(f: spec_fn(u16) -> int, g: spec_fn(u16) -> int, p: u16, k: nat)
    requires
        k <= 0x10000,
        forall|m: u16| m != p ==> #[trigger] f(m) == g(m),
    ensures
        code_sum(f, k) == code_sum(g, k) + (if p < k { f(p) - g(p) } else { 0 }),
    decreases k,
{
    if k > 0 {
        lemma_code_sum_point(f, g, p, (k - 1) as nat);
    }
}

/// A function that is zero on every code sums to zero.
proof fn lemma_code_sum_zero(f: spec_fn(u16) -> int, k: nat)
    requires
        forall|m: u16| #[trigger] f(m) == 0,
    ensures
        code_sum(f, k) == 0,
    decreases k,
{
    if k > 0 {
        lemma_code_sum_zero(f, (k - 1) as nat);
    }
}

/// A perft count is never negative.
proof fn lemma_count_nonneg(b: Board, depth: nat)
    ensures
        perft_count(b, depth) >= 0,
    decreases depth, 0x10001nat,
{
    if depth > 0 {
        lemma_below_nonneg(b, depth, 0x10000);
    }
}

/// The counts below the moves under `k` sum to no less than zero.
proof fn lemma_below_nonneg(b: Board, depth: nat, k: nat)
    requires
        depth > 0,
    ensures
        nodes_below(b, depth, k) >= 0,
    decreases depth, k,
{
    if k > 0 {
        lemma_below_nonneg(b, depth, (k - 1) as nat);
        lemma_move_nodes_nonneg(b, depth, (k - 1) as u16);
    }
}

/// The count below one move is never negative.
proof fn lemma_move_nodes_nonneg(b: Board, depth: nat, m: u16)
    ensures
        move_nodes(b, depth, m) >= 0,
    decreases depth, 0nat,
{
    if depth > 0 && generated_move(&b, m) && exists|x: Board| #[trigger] legal_child(b, m, x) {
        lemma_count_nonneg(stripped(choose|x: Board| #[trigger] legal_child(b, m, x)), (depth - 1) as nat);
    }
}

/// Counts summed over a list are never negative.
proof fn lemma_list_sum_nonneg(f: spec_fn(u16) -> int, s: Seq<Move>)
    requires
        forall|m: u16| #[trigger] f(m) >= 0,
    ensures
        list_sum(f, s) >= 0,
    decreases s.len(),
{
    if s.len() > 0 {
        lemma_list_sum_nonneg(f, s.drop_last());
    }
}

/// Two functions that agree on the moves of `s` have the same sum over `s`.
proof fn lemma_list_sum_agree(f: spec_fn(u16) -> int, g: spec_fn(u16) -> int, s: Seq<Move>)
    requires
        forall|j: int| 0 <= j < s.len() ==> f(#[trigger] s[j].0) == g(s[j].0),
    ensures
        list_sum(f, s) == list_sum(g, s),
    decreases s.len(),
{
    if s.len() > 0 {
        let t = s.drop_last();
        assert forall|j: int| 0 <= j < t.len() implies f(#[trigger] t[j].0) == g(t[j].0) by {
            assert(t[j] == s[j]);
        }
        lemma_list_sum_agree(f, g, t);
    }
}

/// Over a list of distinct moves that holds every code where `f` is not
/// zero, the sum over the list is the sum over all codes.
proof fn lemma_list_sum_all_codes(f: spec_fn(u16) -> int, s: Seq<Move>)
    requires
        distinct_in(s, 0, s.len() as int),
        forall|m: u16| #[trigger] f(m) != 0 ==> listed(s, m),
    ensures
        code_sum(f, 0x10000) == list_sum(f, s),
    decreases s.len(),
{
    if s.len() == 0 {
        assert forall|m: u16| #[trigger] f(m) == 0 by {
            if f(m) != 0 {
                assert(listed(s, m));
            }
        }
        lemma_code_sum_zero(f, 0x10000);
    } else {
        let t = s.drop_last();
        let last = s.last().0;
        let g = |m: u16| if m == last { 0 } else { f(m) };
        assert forall|m: u16| #[trigger] g(m) != 0 implies listed(t, m) by {
            assert(listed(s, m));
            let j = choose|j: int| 0 <= j < s.len() && #[trigger] s[j].0 == m;
            assert(j != s.len() - 1);
            assert(t[j] == s[j]);
        }
        assert forall|i: int, j: int| 0 <= i < j < t.len() implies #[trigger] t[i].0 != #[trigger] t[j].0 by {
            assert(t[i] == s[i] && t[j] == s[j]);
        }
        lemma_list_sum_all_codes(g, t);
        lemma_code_sum_point(f, g, last, 0x10000);
        assert forall|j: int| 0 <= j < t.len() implies f(#[trigger] t[j].0) == g(t[j].0) by {
            assert(t[j] == s[j]);
            assert(s[j].0 != s[s.len() - 1].0);
        }
        lemma_list_sum_agree(f, g, t);
    }
}

/// The counts below the moves, summed by code, are the sum of `move_nodes`.
proof fn lemma_nodes_below(b: Board, depth: nat, k: nat)
    requires
        depth > 0,
    ensures
        nodes_below(b, depth, k) == code_sum(|m: u16| move_nodes(b, depth, m), k),
    decreases k,
{
    if k > 0 {
        lemma_nodes_below(b, depth, (k - 1) as nat);
    }
}

/// Two boards that making `m` on `b` gives have the same position: they
/// agree on the safety of the mover's king, and on all perft reads.
proof fn lemma_same_child(b: Board, x: Board, y: Board, m: u16)
    requires
        Board::moved(b, x, m),
        Board::moved(b, y, m),
        x.wf(),
        y.wf(),
    ensures
        mover_safe(x) == mover_safe(y),
        stripped(x) == stripped(y),
{
    assert(x.piece_on_sq@ =~= y.piece_on_sq@);
    assert(x.piece_on_sq == y.piece_on_sq);
    assert forall|t: int| 0 <= t < 6 implies x.pieces[t] == y.pieces[t] by {
        assert forall|s: int| 0 <= s < 64 implies bit_set(x.pieces[t].0, s) == bit_set(y.pieces[t].0, s) by {
        }
        lemma_bits_ext(x.pieces[t].0, y.pieces[t].0);
    }
    assert forall|c: int| 0 <= c < 2 implies x.colors[c] == y.colors[c] by {
        assert forall|s: int| 0 <= s < 64 implies bit_set(x.colors[c].0, s) == bit_set(y.colors[c].0, s) by {
        }
        lemma_bits_ext(x.colors[c].0, y.colors[c].0);
    }
    assert(x.pieces =~= y.pieces);
    assert(x.colors =~= y.colors);
    assert(x.castling == y.castling);
    assert(x.zobrist_key == y.zobrist_key);
}

/// The perft count reads neither the accumulator nor the history.
proof fn lemma_count_stripped(b: Board, depth: nat)
    ensures
        perft_count(b, depth) == perft_count(stripped(b), depth),
{
    if depth > 0 {
        let c = stripped(b);
        assert forall|m: u16| move_nodes(b, depth, m) == move_nodes(c, depth, m) by {
            assert(generated_move(&b, m) == generated_move(&c, m));
            assert forall|x: Board| legal_child(b, m, x) == legal_child(c, m, x) by {
            }
            if exists|x: Board| #[trigger] legal_child(b, m, x) {
                let x1 = choose|x: Board| #[trigger] legal_child(b, m, x);
                let x2 = choose|x: Board| #[trigger] legal_child(c, m, x);
                assert(legal_child(b, m, x2));
                lemma_same_child(b, x1, x2, m);
            }
        }
        lemma_nodes_below(b, depth, 0x10000);
        lemma_nodes_below(c, depth, 0x10000);
        assert((|m: u16| move_nodes(b, depth, m)) =~= (|m: u16| move_nodes(c, depth, m)));
    }
}

proof fn lemma_equivalent_facts(a: Board, b: Board, m: u16)
    requires
        equivalent(a, b),
    ensures
        a.wf() == b.wf(),
        gen_ready(&a) == gen_ready(&b),
        setup_ok(&a) == setup_ok(&b),
        a.spec_pseudo_legal(m) == b.spec_pseudo_legal(m),
        a.can_make(m) == b.can_make(m),
        forall|b1: Board, u: UndoState| #[trigger] Board::made(a, b1, m, u) == Board::made(b, b1, m, u),
{
}

/// Number of move sequences of `depth` moves from this position in which
/// no side leaves its own king attacked, capped at the largest `u64`. The
/// board comes back as it was.
pub fn perft(board: &mut Board, depth: u8) -> (nodes: u64)
    requires
        perft_ready(*old(board), depth as nat),
    ensures
        nodes == saturate(perft_count(*old(board), depth as nat)),
        depth > 0 ==> equivalent(*final(board), *old(board)) && final(board).wf(),
        depth == 0 ==> *final(board) == *old(board),
    decreases depth,
{
    if depth == 0 {
        return 1;
    }
    let ghost b0 = *board;
    let ghost d = depth as nat;
    let ghost f = |m: u16| move_nodes(b0, d, m);
    let mut list = MoveList::new();
    generate_pseudo_legal_moves(board, &mut list);
    let ghost moves = list.moves@;
    let mut nodes: u64 = 0;
    let mut i: usize = 0;
    while i < list.count
        invariant
            list.wf(),
            0 < depth,
            d == depth,
            f == (|m: u16| move_nodes(b0, d, m)),
            perft_ready(b0, depth as nat),
            equivalent(*board, b0),
            board.wf(),
            list.moves@ == moves,
            i <= moves.len(),
            forall|k: int| 0 <= k < moves.len() ==> b0.spec_pseudo_legal(#[trigger] moves[k].0),
            forall|j: int| 0 <= j < moves.len() ==> generated_move(&b0, #[trigger] moves[j].0),
            nodes == saturate(list_sum(f, moves.subrange(0, i as int))),
        decreases list.moves@.len() - i,
    {
        let m = list.moves[i];
        proof {
            lemma_equivalent_facts(b0, *board, m.0);
            assert(b0.spec_pseudo_legal(m.0));
        }
        let undo = board.make_move(m);
        let ghost b1 = *board;
        proof {
            assert(Board::made(b0, b1, m.0, undo));
            lemma_can_unmake_after_make(b0, b1, m.0, undo);
            let s1 = moves.subrange(0, i + 1);
            assert(s1.drop_last() =~= moves.subrange(0, i as int));
            assert(s1.last() == m);
            assert(generated_move(&b0, m.0));
        }
        let ghost nodes0 = nodes;
        let side = board.side_to_move.flip();
        let king_bb = board.piece_bb(PieceType::King).0 & board.color_occupancy(side).0;
        let mut safe = false;
        if king_bb != 0 {
            let king_sq = Square::new(crate::bitboard::Bitboard::new(king_bb).lsb());
            if !board.is_square_attacked(king_sq, board.side_to_move) {
                safe = true;
            }
        }
        proof {
            assert(safe == mover_safe(b1));
        }
        if safe {
            proof {
                assert(perft_ready(b1, (depth - 1) as nat));
            }
            let n = perft(board, depth - 1);
            proof {
                assert(legal_child(b0, m.0, b1));
                let c = choose|x: Board| #[trigger] legal_child(b0, m.0, x);
                lemma_same_child(b0, c, b1, m.0);
                lemma_count_stripped(b1, (depth - 1) as nat);
                assert(f(m.0) == perft_count(b1, (depth - 1) as nat));
                assert forall|m: u16| #[trigger] f(m) >= 0 by {
                    lemma_move_nodes_nonneg(b0, d, m);
                }
                lemma_list_sum_nonneg(f, moves.subrange(0, i as int));
            }
            nodes = nodes.saturating_add(n);
        } else {
            proof {
                assert forall|x: Board| !legal_child(b0, m.0, x) by {
                    if legal_child(b0, m.0, x) {
                        lemma_same_child(b0, x, b1, m.0);
                    }
                }
                assert(f(m.0) == 0);
            }
        }
        board.unmake_move(m, &undo);
        proof {
            assert(Board::unmade(b1, *board, m.0, undo));
            lemma_make_unmake_roundtrip(b0, b1, *board, m.0, undo);
        }
        i = i + 1;
    }
    proof {
        assert(moves.subrange(0, moves.len() as int) =~= moves);
        assert forall|m: u16| #[trigger] f(m) != 0 implies listed(moves, m) by {
        }
        lemma_list_sum_all_codes(f, moves);
        lemma_nodes_below(b0, d, 0x10000);
    }
    nodes
}

/// The perft count below each legal first move (a move after which the
/// mover's king is not attacked), each move once, in the order the moves
/// are generated; the counts add up to the perft count of the position.
/// The board comes back as it was.
pub fn divide(board: &mut Board, depth: u8) -> (counts: Vec<(Move, u64)>)
    requires
        perft_ready(*old(board), depth as nat),
    ensures
        depth == 0 ==> counts@.len() == 0 && *final(board) == *old(board),
        depth > 0 ==> equivalent(*final(board), *old(board)) && final(board).wf(),
        depth > 0 ==> forall|k: int| 0 <= k < counts@.len() ==> (setup_ok(old(board))
            ==> old(board).spec_pseudo_legal(#[trigger] counts@[k].0.0)),
        depth > 0 ==> forall|k: int|
            0 <= k < counts@.len() ==> legal_move(*old(board), #[trigger] counts@[k].0.0) && (setup_ok(old(board))
                ==> generated_move(old(board), counts@[k].0.0)),
        depth > 0 ==> forall|m: u16|
            generated_move(old(board), m) && legal_move(*old(board), m) ==> exists|k: int|
                0 <= k < counts@.len() && #[trigger] counts@[k].0.0 == m,
        forall|k1: int, k2: int| 0 <= k1 < k2 < counts@.len() ==> #[trigger] counts@[k1].0.0 != #[trigger] counts@[k2].0.0,
        forall|k: int| 0 <= k < counts@.len() ==> #[trigger] counts@[k].1 == saturate(
            move_nodes(*old(board), depth as nat, counts@[k].0.0),
        ),
        depth > 0 ==> list_sum(
            (|m: u16| move_nodes(*old(board), depth as nat, m)),
            counts@.map_values(|c: (Move, u64)| c.0),
        ) == perft_count(*old(board), depth as nat),
{
    let mut counts: Vec<(Move, u64)> = Vec::new();
    if depth == 0 {
        return counts;
    }
    let ghost b0 = *board;
    let mut list = MoveList::new();
    generate_pseudo_legal_moves(board, &mut list);
    let ghost moves = list.moves@;
    let ghost mut idx: Seq<int> = Seq::empty();
    let mut i: usize = 0;
    while i < list.count
        invariant
            list.wf(),
            0 < depth,
            perft_ready(b0, depth as nat),
            equivalent(*board, b0),
            board.wf(),
            forall|k: int| 0 <= k < list.moves@.len() ==> (setup_ok(&b0) ==> b0.spec_pseudo_legal(#[trigger] list.moves@[k].0)),
            forall|k: int| 0 <= k < counts@.len() ==> (setup_ok(&b0) ==> b0.spec_pseudo_legal(#[trigger] counts@[k].0.0)),
            list.moves@ == moves,
            i <= moves.len(),
            distinct_in(moves, 0, moves.len() as int),
            setup_ok(&b0) ==> forall|j: int| 0 <= j < moves.len() ==> generated_move(&b0, #[trigger] moves[j].0),
            forall|m: u16| generated_move(&b0, m) ==> #[trigger] listed(moves, m),
            idx.len() == counts@.len(),
            forall|k: int| 0 <= k < idx.len() ==> 0 <= #[trigger] idx[k] < i && counts@[k].0 == moves[idx[k]],
            forall|k1: int, k2: int| 0 <= k1 < k2 < idx.len() ==> #[trigger] idx[k1] < #[trigger] idx[k2],
            forall|k: int| 0 <= k < counts@.len() ==> legal_move(b0, #[trigger] counts@[k].0.0),
            forall|k: int| 0 <= k < counts@.len() ==> #[trigger] counts@[k].1 == saturate(
                move_nodes(b0, depth as nat, counts@[k].0.0),
            ),
            forall|j: int|
                0 <= j < i && legal_move(b0, #[trigger] moves[j].0) ==> exists|k: int|
                    0 <= k < idx.len() && idx[k] == j,
        decreases list.moves@.len() - i,
    {
        let m = list.moves[i];
        proof {
            lemma_equivalent_facts(b0, *board, m.0);
            assert(b0.spec_pseudo_legal(m.0));
        }
        let undo = board.make_move(m);
        let ghost b1 = *board;
        proof {
            assert(Board::made(b0, b1, m.0, undo));
            lemma_can_unmake_after_make(b0, b1, m.0, undo);
        }
        let ghost counts0 = counts@;
        let ghost idx0 = idx;
        let side = board.side_to_move.flip();
        let king_bb = board.piece_bb(PieceType::King).0 & board.color_occupancy(side).0;
        let mut safe = false;
        if king_bb != 0 {
            let king_sq = Square::new(crate::bitboard::Bitboard::new(king_bb).lsb());
            if !board.is_square_attacked(king_sq, board.side_to_move) {
                safe = true;
            }
        }
        proof {
            assert(safe == mover_safe(b1));
            assert forall|x: Board, u: UndoState| #[trigger] Board::made(b0, x, m.0, u) && x.wf() implies mover_safe(x)
                == mover_safe(b1) by {
                lemma_same_child(b0, x, b1, m.0);
            }
        }
        if safe {
            proof {
                assert(perft_ready(b1, (depth - 1) as nat));
                assert(legal_move(b0, m.0));
            }
            let n = perft(board, depth - 1);
            proof {
                assert(setup_ok(&b0));
                assert(generated_move(&b0, m.0));
                assert(legal_child(b0, m.0, b1));
                let c = choose|x: Board| #[trigger] legal_child(b0, m.0, x);
                lemma_same_child(b0, c, b1, m.0);
                lemma_count_stripped(b1, (depth - 1) as nat);
            }
            counts.push((m, n));
            proof {
                idx = idx.push(i as int);
            }
        } else {
            proof {
                assert(!legal_move(b0, m.0)) by {
                    assert(Board::made(b0, b1, m.0, undo) && b1.wf());
                }
            }
        }
        proof {
            assert forall|k: int| 0 <= k < idx.len() implies 0 <= #[trigger] idx[k] < i + 1 && counts@[k].0
                == moves[idx[k]] by {
                if k < idx0.len() {
                    assert(idx[k] == idx0[k]);
                    assert(counts@[k] == counts0[k]);
                }
            }
            assert forall|k: int| 0 <= k < counts@.len() implies legal_move(b0, #[trigger] counts@[k].0.0) && (setup_ok(
                &b0,
            ) ==> b0.spec_pseudo_legal(counts@[k].0.0)) && counts@[k].1 == saturate(
                move_nodes(b0, depth as nat, counts@[k].0.0),
            ) by {
                if k < counts0.len() {
                    assert(counts@[k] == counts0[k]);
                }
            }
            assert forall|j: int| 0 <= j < i + 1 && legal_move(b0, #[trigger] moves[j].0) implies exists|k: int|
                0 <= k < idx.len() && idx[k] == j by {
                if j < i {
                    let k = choose|k: int| 0 <= k < idx0.len() && idx0[k] == j;
                    assert(idx[k] == j);
                } else {
                    assert(idx[idx.len() - 1] == j);
                }
            }
        }
        board.unmake_move(m, &undo);
        proof {
            assert(Board::unmade(b1, *board, m.0, undo));
            lemma_make_unmake_roundtrip(b0, b1, *board, m.0, undo);
        }
        i = i + 1;
    }
    proof {
        assert forall|k1: int, k2: int| 0 <= k1 < k2 < counts@.len() implies #[trigger] counts@[k1].0.0
            != #[trigger] counts@[k2].0.0 by {
            assert(idx[k1] < idx[k2]);
            assert(moves[idx[k1]].0 != moves[idx[k2]].0);
        }
        assert forall|k: int| 0 <= k < counts@.len() implies legal_move(*old(board), #[trigger] counts@[k].0.0) && (
        setup_ok(old(board)) ==> generated_move(old(board), counts@[k].0.0)) by {
            assert(counts@[k].0 == moves[idx[k]]);
        }
        assert forall|m: u16| generated_move(old(board), m) && legal_move(*old(board), m) implies exists|k: int|
            0 <= k < counts@.len() && #[trigger] counts@[k].0.0 == m by {
            assert(listed(moves, m));
            let j = choose|j: int| 0 <= j < moves.len() && #[trigger] moves[j].0 == m;
            assert(legal_move(b0, moves[j].0));
            let k = choose|k: int| 0 <= k < idx.len() && idx[k] == j;
            assert(counts@[k].0 == moves[j]);
        }
        let f = |m: u16| move_nodes(b0, depth as nat, m);
        let s = counts@.map_values(|c: (Move, u64)| c.0);
        assert forall|i: int, j: int| 0 <= i < j < s.len() implies #[trigger] s[i].0 != #[trigger] s[j].0 by {
            assert(counts@[i].0.0 != counts@[j].0.0);
        }
        assert forall|m: u16| #[trigger] f(m) != 0 implies listed(s, m) by {
            let x = choose|x: Board| #[trigger] legal_child(b0, m, x);
            assert(legal_child(b0, m, x));
            assert forall|y: Board, u: UndoState| #[trigger] Board::made(b0, y, m, u) && y.wf() implies mover_safe(y) by {
                lemma_same_child(b0, x, y, m);
            }
            assert(legal_move(b0, m));
            let k = choose|k: int| 0 <= k < counts@.len() && #[trigger] counts@[k].0.0 == m;
            assert(s[k].0 == m);
        }
        lemma_list_sum_all_codes(f, s);
        lemma_nodes_below(b0, depth as nat, 0x10000);
    }
    counts
}

} // verus!
