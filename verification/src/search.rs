use vstd::prelude::*;
use crate::history::{abs, trunc_div, MAX_PLY};
use crate::transposition::NodeType;
use crate::types::{spec_from_sq, spec_is_promotion, spec_to_sq, Color, Move, PieceType, Square};
use crate::board::{attacked_by, king_square, lemma_can_unmake_after_make, lemma_make_unmake_roundtrip, reversible, Board};
use crate::bitboard::popcount;
use crate::eval::{endgame_evaluate, endgame_value, PAWN_VALUE, PIECE_VALUES};
use crate::history::Heuristics;
use crate::movepick::{same_position, MovePicker};
use crate::nnue::inference::{layers_fit, spec_evaluate};
use crate::perft::equivalent;

verus! {

/// What the search keeps for each ply of the current line.
#[derive(Copy, Clone)]
pub struct SearchStack {
    pub static_eval: i32,
    pub tt_pv: bool,
    pub in_check: bool,
    pub cutoff_cnt: i32,
    pub reduction: i32,
    pub stat_score: i32,
    pub move_count: usize,
    pub current_move: Option<Move>,
    pub excluded_move: Option<Move>,
}

impl SearchStack {
    /// The static evaluation of a ply that has none.
    pub const NONE_EVAL: i32 = -2147483648i32;

    /// A ply with nothing recorded yet.
    pub fn new() -> (s: SearchStack)
        ensures
            s.static_eval == SearchStack::NONE_EVAL,
            !s.tt_pv,
            !s.in_check,
            s.cutoff_cnt == 0,
            s.reduction == 0,
            s.stat_score == 0,
            s.move_count == 0,
            s.current_move is None,
            s.excluded_move is None,
    {
        SearchStack {
            static_eval: Self::NONE_EVAL,
            tt_pv: false,
            in_check: false,
            cutoff_cnt: 0,
            reduction: 0,
            stat_score: 0,
            move_count: 0,
            current_move: None,
            excluded_move: None,
        }
    }
}


/// A score above every evaluation.
pub const INF: i32 = 50000;

/// The score of mating at once; mate at ply `n` scores `MATE_SCORE - n`.
pub const MATE_SCORE: i32 = 48000;

/// The score of a tablebase win.
pub const TB_SCORE: i32 = 46000;

pub open spec fn b2i(b: bool) -> int {
    if b {
        1
    } else {
        0
    }
}

pub open spec fn clamp(x: int, lo: int, hi: int) -> int {
    if x < lo {
        lo
    } else if x > hi {
        hi
    } else {
        x
    }
}

pub open spec fn max(a: int, b: int) -> int {
    if a >= b {
        a
    } else {
        b
    }
}

pub open spec fn min(a: int, b: int) -> int {
    if a <= b {
        a
    } else {
        b
    }
}

/// The score of a drawn position: one below or one above zero, by a bit
/// of the node count, so that the search does not settle on draws.
pub fn draw_score(nodes: u64) -> (s: i32)
    ensures
        s == (if nodes & 2 == 0 {
            -1int
        } else {
            1int
        }),
{
    let bit = nodes & 2;
    assert(bit == 0 || bit == 2) by (bit_vector)
        requires
            bit == nodes & 2,
    ;
    -1 + bit as i32
}

/// The window narrowed by mate distance: no line from `ply` scores better
/// than mating at the next ply, or worse than being mated here.
pub fn mate_distance_window(alpha: i32, beta: i32, ply: usize) -> (w: (i32, i32))
    requires
        ply < MAX_PLY,
    ensures
        w.0 == max(alpha as int, -MATE_SCORE + ply),
        w.1 == min(beta as int, MATE_SCORE - ply - 1),
{
    let lo = -MATE_SCORE + ply as i32;
    let hi = MATE_SCORE - ply as i32 - 1;
    (if alpha >= lo {
        alpha
    } else {
        lo
    }, if beta <= hi {
        beta
    } else {
        hi
    })
}

/// The score that a stored entry settles a node with, when its bound
/// decides the window.
pub fn tt_cutoff(node_type: NodeType, tt_score: i32, alpha: i32, beta: i32) -> (r: Option<i32>)
    ensures
        r == (match node_type {
            NodeType::Exact => Some(tt_score),
            NodeType::Alpha => if tt_score <= alpha {
                Some(alpha)
            } else {
                None
            },
            NodeType::Beta => if tt_score >= beta {
                Some(beta)
            } else {
                None
            },
            NodeType::NoEntry => None,
        }),
{
    match node_type {
        NodeType::Exact => Some(tt_score),
        NodeType::Alpha => if tt_score <= alpha {
            Some(alpha)
        } else {
            None
        },
        NodeType::Beta => if tt_score >= beta {
            Some(beta)
        } else {
            None
        },
        NodeType::NoEntry => None,
    }
}

/// The static evaluation moved by the correction history and kept off the
/// mate scores.
pub fn corrected_eval(raw: i32, correction: i32) -> (v: i32)
    ensures
        v == clamp(raw + trunc_div(correction as int, 131072), -MATE_SCORE + 1, MATE_SCORE - 1),
{
    let c = correction / 131072;
    let s = raw as i64 + c as i64;
    if s < (-MATE_SCORE + 1) as i64 {
        -MATE_SCORE + 1
    } else if s > (MATE_SCORE - 1) as i64 {
        MATE_SCORE - 1
    } else {
        s as i32
    }
}

/// The evaluation a node prunes with: the stored score where its bound
/// says more than the static evaluation does.
pub fn eval_with_tt(node_type: NodeType, tt_score: i32, corrected: i32) -> (v: i32)
    ensures
        v == (if (node_type == NodeType::Beta && tt_score > corrected) || (node_type == NodeType::Alpha && tt_score
            < corrected) {
            tt_score
        } else {
            corrected
        }),
{
    if (node_type == NodeType::Beta && tt_score > corrected) || (node_type == NodeType::Alpha && tt_score < corrected) {
        tt_score
    } else {
        corrected
    }
}

/// The depth after looking back at the parent: one more where the parent
/// reduced this node by three or more and the opponent's position did not
/// worsen, one less where the parent reduced by two or more and both
/// static evaluations (`eval_sum`, when both are known) add up above 173.
pub fn hindsight_depth(depth: u8, prior_reduction: i32, opp_worsening: bool, eval_sum: Option<i32>) -> (d: u8)
    ensures
        d == ({
            let d1 = if prior_reduction >= 3 && !opp_worsening {
                min(depth + 1, 255)
            } else {
                depth as int
            };
            if prior_reduction >= 2 && d1 >= 2 && (eval_sum matches Some(s) && s > 173) {
                d1 - 1
            } else {
                d1
            }
        }),
{
    let mut d = depth;
    if prior_reduction >= 3 && !opp_worsening {
        d = d.saturating_add(1);
    }
    if prior_reduction >= 2 && d >= 2 {
        if let Some(s) = eval_sum {
            if s > 173 {
                d = d - 1;
            }
        }
    }
    d
}

/// Razoring: the evaluation is so far below `alpha` that only a quiescence
/// search is worth making.
pub fn razoring_applies(eval: i32, alpha: i32, depth: u8) -> (r: bool)
    ensures
        r == (eval < alpha - 485 - 281 * depth * depth),
{
    assert(0 <= depth * depth <= 65025) by (nonlinear_arith)
        requires
            depth <= 255,
    ;
    let d = depth as i64;
    assert(0 <= 281 * d * d <= 281 * 65025) by (nonlinear_arith)
        requires
            0 <= d <= 255,
    ;
    (eval as i64) < (alpha as i64) - 485 - 281 * d * d
}

/// The margin of reverse futility pruning.
pub open spec fn futility_margin(depth: int, tt_hit: bool, improving: bool, opp_worsening: bool, correction: int) -> int {
    let mult = 76 - 23 * b2i(!tt_hit);
    mult * depth - (2474 * b2i(improving) + 331 * b2i(opp_worsening)) * mult / 1024 + abs(correction) / 174665
}

/// Reverse futility pruning: where the evaluation beats `beta` by the
/// margin, away from the mate scores and outside the principal variation,
/// the node returns a blend of `beta` and the evaluation.
pub fn reverse_futility(
    eval: i32,
    beta: i32,
    depth: u8,
    tt_hit: bool,
    improving: bool,
    opp_worsening: bool,
    correction: i32,
    tt_pv: bool,
) -> (r: Option<i32>)
    ensures
        r == (if !tt_pv && depth < 14 && eval - futility_margin(depth as int, tt_hit, improving, opp_worsening, correction as int)
            >= beta && eval >= beta && eval < MATE_SCORE - 100 && beta > -MATE_SCORE + 100 {
            Some(trunc_div(2 * beta + eval, 3) as i32)
        } else {
            None::<i32>
        }),
{
    let mult: i64 = if tt_hit {
        76
    } else {
        53
    };
    let imp: i64 = if improving {
        2474
    } else {
        0
    };
    let opp: i64 = if opp_worsening {
        331
    } else {
        0
    };
    let c = correction as i64;
    let ca = if c >= 0 {
        c
    } else {
        -c
    };
    let margin = mult * depth as i64 - (imp + opp) * mult / 1024 + ca / 174665;
    proof {
        assert(margin == futility_margin(depth as int, tt_hit, improving, opp_worsening, correction as int));
    }
    if !tt_pv && depth < 14 && eval as i64 - margin >= beta as i64 && eval >= beta && eval < MATE_SCORE - 100 && beta
        > -MATE_SCORE + 100 {
        Some((2 * beta + eval) / 3)
    } else {
        None
    }
}

/// Null move pruning applies: at an expected cut node with pieces besides
/// pawns, an evaluation high enough above `beta`, and no verification
/// search under way below `nmp_min_ply`.
pub fn null_move_applies(
    cut_node: bool,
    eval: i32,
    beta: i32,
    depth: u8,
    has_non_pawn: bool,
    ply: usize,
    nmp_min_ply: usize,
) -> (r: bool)
    ensures
        r == (cut_node && eval >= beta - 18 * depth + 350 && has_non_pawn && ply >= nmp_min_ply && beta > -MATE_SCORE
            + 100),
{
    cut_node && eval as i64 >= beta as i64 - 18 * depth as i64 + 350 && has_non_pawn && ply >= nmp_min_ply && beta
        > -MATE_SCORE + 100
}

/// How much shallower the null move is searched.
pub fn null_move_reduction(depth: u8) -> (r: u8)
    ensures
        r == 7 + depth / 3,
{
    7 + depth / 3
}

/// How many moves are tried before the quiet moves are left out.
pub fn lmp_threshold(depth: u8, improving: bool) -> (n: usize)
    ensures
        n == (3 + depth * depth) / (2 - b2i(improving)),
{
    assert(0 <= depth * depth <= 65025) by (nonlinear_arith)
        requires
            depth <= 255,
    ;
    let d = depth as usize;
    let div: usize = if improving {
        1
    } else {
        2
    };
    (3 + d * d) / div
}

/// The depth that the pruning of a late move judges by: one less than the
/// depth, less the late move reduction in units of 1024, at least zero.
pub fn lmr_depth(depth: u8, reduction: i32) -> (d: i32)
    ensures
        d == max(max(depth - 1, 0) - trunc_div(reduction as int, 1024), 0),
{
    let base: i32 = if depth >= 1 {
        depth as i32 - 1
    } else {
        0
    };
    let v = base - reduction / 1024;
    if v >= 0 {
        v
    } else {
        0
    }
}

/// A capture or promotion is futile: even with its victim and a margin the
/// evaluation stays at or below `alpha`, at a shallow pruning depth.
pub fn capture_futile(eval: i32, lmr_depth: i32, victim_value: i32, capture_history: i32, alpha: i32) -> (r: bool)
    ensures
        r == (lmr_depth < 7 && eval + 232 + 217 * lmr_depth + victim_value + trunc_div(
            131 * capture_history,
            1024,
        ) <= alpha),
{
    if lmr_depth >= 7 {
        return false;
    }
    let fv = eval as i64 + 232 + 217 * lmr_depth as i64 + victim_value as i64 + (131 * capture_history as i64) / 1024;
    fv <= alpha as i64
}

/// How much a capture may lose in the exchange before it is left out.
pub fn capture_see_margin(depth: u8, capture_history: i32) -> (m: i32)
    ensures
        m == max(166 * depth + trunc_div(capture_history as int, 29), 0),
{
    let v = 166 * depth as i32 + capture_history / 29;
    if v >= 0 {
        v
    } else {
        0
    }
}

/// The pruning depth of a quiet move, moved by its history and
/// continuation history.
pub fn quiet_lmr_depth(lmr_depth: i32, history: i32, continuation: i32) -> (d: i64)
    ensures
        d == lmr_depth + trunc_div(history + trunc_div(69 * continuation, 32) + continuation, 3208),
{
    let c = continuation as i64;
    lmr_depth as i64 + (history as i64 + 69 * c / 32 + c) / 3208
}

/// The futility value of a quiet move: the evaluation raised by a margin
/// that grows with the pruning depth, when nothing better was found yet,
/// and when the evaluation is above `alpha`.
pub fn quiet_futility_value(eval: i32, no_best_yet: bool, lmr_adj: i64, alpha: i32) -> (v: i64)
    requires
        -1_000_000_000 <= lmr_adj <= 1_000_000_000,
    ensures
        v == eval + 42 + 161 * b2i(no_best_yet) + 127 * lmr_adj + 85 * b2i(eval > alpha),
{
    let nb: i64 = if no_best_yet {
        161
    } else {
        0
    };
    let ea: i64 = if eval > alpha {
        85
    } else {
        0
    };
    eval as i64 + 42 + nb + 127 * lmr_adj + ea
}

/// The bound that a singular extension search tests the hash move
/// against: the stored score less a margin that grows with depth.
pub fn singular_beta(tt_score: i32, tt_pv: bool, pv_node: bool, depth: u8) -> (b: i64)
    ensures
        b == tt_score - trunc_div((53 + 75 * b2i(tt_pv && !pv_node)) * depth, 60),
{
    let f: i64 = if tt_pv && !pv_node {
        128
    } else {
        53
    };
    tt_score as i64 - f * depth as i64 / 60
}

/// How much a singular hash move is extended, when the search without it
/// failed low: one ply, and one more for each margin it fell below by.
pub fn singular_extension(se_score: i32, sing_beta: i64, pv_node: bool, tt_pv: bool, tt_move_captures: bool, correction: i32) -> (e: i32)
    requires
        -1_000_000_000 <= sing_beta <= 1_000_000_000,
    ensures
        e == ({
            let adj = abs(correction as int) / 230673;
            let double_margin = -4 + 199 * b2i(pv_node) - 201 * b2i(!tt_move_captures) - adj;
            let triple_margin = 73 + 302 * b2i(pv_node) - 248 + 90 * b2i(tt_pv) - adj;
            1 + b2i(se_score < sing_beta - double_margin) + b2i(se_score < sing_beta - triple_margin)
        }),
{
    let c = correction as i64;
    let adj = (if c >= 0 {
        c
    } else {
        -c
    }) / 230673;
    let pv: i64 = if pv_node {
        1
    } else {
        0
    };
    let double_margin = -4 + 199 * pv - (if tt_move_captures {
        0
    } else {
        201
    }) - adj;
    let triple_margin = 73 + 302 * pv - 248 + (if tt_pv {
        90
    } else {
        0
    }) - adj;
    let mut e: i32 = 1;
    if (se_score as i64) < sing_beta - double_margin {
        e = e + 1;
    }
    if (se_score as i64) < sing_beta - triple_margin {
        e = e + 1;
    }
    e
}

/// What decides the late move reduction of a move.
pub struct LmrFactors {
    /// The reductions for the move number and for the depth, added.
    pub base: i32,
    pub tt_pv: bool,
    pub pv_node: bool,
    pub cut_node: bool,
    /// The stored score is above `alpha`.
    pub tt_score_above_alpha: bool,
    /// The stored depth is at least the current depth.
    pub tt_deep: bool,
    pub legal_moves: usize,
    pub correction: i32,
    pub has_tt_move: bool,
    pub tt_move_captures: bool,
    /// The cutoffs counted at the next ply.
    pub child_cutoffs: i32,
    pub is_tt_move: bool,
    pub stat_score: i32,
}

/// The part of the reduction that the principal variation decides.
pub open spec fn pv_part(f: LmrFactors) -> int {
    if f.tt_pv {
        946 - (2719 + b2i(f.pv_node) * 983 + b2i(f.tt_score_above_alpha) * 922 + b2i(f.tt_deep) * (934 + b2i(
            f.cut_node,
        ) * 1011))
    } else {
        0
    }
}

/// The part of the reduction that the expected node type and the hash
/// move decide.
pub open spec fn node_part(f: LmrFactors) -> int {
    let cut: int = if f.cut_node {
        3372 + 997 * b2i(!f.has_tt_move)
    } else {
        0
    };
    let capt: int = if f.tt_move_captures {
        1119
    } else {
        0
    };
    let cutoffs: int = if f.child_cutoffs > 1 {
        256 + 1024 * b2i(f.child_cutoffs > 2) + 1024 * b2i(!f.pv_node && !f.cut_node)
    } else {
        0
    };
    let ttm: int = if f.is_tt_move {
        2151
    } else {
        0
    };
    cut + capt + cutoffs - ttm
}

/// The late move reduction, in units of 1024 of a ply.
pub open spec fn spec_reduction(f: LmrFactors) -> int {
    f.base + pv_part(f) + 714 - min(f.legal_moves as int, 63) * 73 - abs(f.correction as int) / 30370 + node_part(f)
        - trunc_div(f.stat_score as int * 850, 8192)
}

fn pv_reduction(f: &LmrFactors) -> (r: i64)
    ensures
        r == pv_part(*f),
{
    if f.tt_pv {
        let pv: i64 = if f.pv_node {
            983
        } else {
            0
        };
        let above: i64 = if f.tt_score_above_alpha {
            922
        } else {
            0
        };
        let deep: i64 = if f.tt_deep {
            934 + (if f.cut_node {
                1011
            } else {
                0
            })
        } else {
            0
        };
        946 - (2719 + pv + above + deep)
    } else {
        0
    }
}

fn node_reduction(f: &LmrFactors) -> (r: i64)
    ensures
        r == node_part(*f),
{
    let cut: i64 = if f.cut_node {
        3372 + (if f.has_tt_move {
            0
        } else {
            997
        })
    } else {
        0
    };
    let capt: i64 = if f.tt_move_captures {
        1119
    } else {
        0
    };
    let cutoffs: i64 = if f.child_cutoffs > 1 {
        256 + (if f.child_cutoffs > 2 {
            1024
        } else {
            0
        }) + (if !f.pv_node && !f.cut_node {
            1024
        } else {
            0
        })
    } else {
        0
    };
    let ttm: i64 = if f.is_tt_move {
        2151
    } else {
        0
    };
    cut + capt + cutoffs - ttm
}

fn correction_reduction(correction: i32) -> (r: i64)
    ensures
        r == abs(correction as int) / 30370,
{
    let c = correction as i64;
    let ca = if c >= 0 {
        c
    } else {
        -c
    };
    ca / 30370
}

fn stat_reduction(stat_score: i32) -> (r: i64)
    ensures
        r == trunc_div(stat_score as int * 850, 8192),
{
    (stat_score as i64 * 850) / 8192
}

/// The late move reduction of a move, in units of 1024 of a ply.
pub fn reduction(f: &LmrFactors) -> (r: i64)
    ensures
        r == spec_reduction(*f),
{
    let pv = pv_reduction(f);
    let node = node_reduction(f);
    let corr = correction_reduction(f.correction);
    let stat = stat_reduction(f.stat_score);
    let lm: i64 = if f.legal_moves < 63 {
        f.legal_moves as i64
    } else {
        63
    };
    f.base as i64 + pv + 714 - lm * 73 - corr + node - stat
}

/// The depth a late move is first searched to: the new depth less the
/// reduction, kept between one and two plies beyond it, and one more at a
/// principal variation node.
/// The depth a late move is first searched to: the new depth less the
/// reduction, kept between one and two plies beyond it, and one more at a
/// principal variation node.
pub fn late_move_depth(new_depth: u8, f: &LmrFactors) -> (d: u8)
    requires
        new_depth <= 250,
    ensures
        d == clamp(new_depth - trunc_div(spec_reduction(*f), 1024), 1, new_depth + 2) + b2i(f.pv_node),
{
    let r = reduction(f);
    let v = new_depth as i64 - r / 1024;
    let hi = new_depth as i64 + 2;
    let cl = if v < 1 {
        1
    } else if v > hi {
        hi
    } else {
        v
    };
    let d = cl as u8;
    if f.pv_node {
        d + 1
    } else {
        d
    }
}

/// The depth of the re-search after a reduced search beat `alpha`: one
/// ply deeper where the score beat the best by more than fifty, one
/// shallower where it beat it by less than nine.
pub fn research_depth(new_depth: u8, reduced: u8, score: i32, best_score: i32) -> (d: u8)
    requires
        new_depth < 255,
    ensures
        d == max(new_depth + b2i(reduced < new_depth && score > best_score + 50) - b2i(score < best_score + 9), 0),
{
    let deeper = reduced < new_depth && (score as i64) > best_score as i64 + 50;
    let shallower = (score as i64) < best_score as i64 + 9;
    let v = new_depth as i32 + (if deeper {
        1
    } else {
        0
    }) - (if shallower {
        1
    } else {
        0
    });
    if v >= 0 {
        v as u8
    } else {
        0
    }
}

/// The score a node that failed high returns and stores: away from mate
/// scores, the best score drawn toward `beta` by one part in `depth + 1`.
pub fn cutoff_score(best_score: i32, depth: u8, beta: i32) -> (s: i32)
    ensures
        s == (if best_score < MATE_SCORE - MAX_PLY {
            trunc_div(best_score * depth + beta, depth + 1)
        } else {
            best_score as int
        }),
{
    if best_score < MATE_SCORE - MAX_PLY as i32 {
        let b = best_score as i64;
        let dd = depth as i64;
        assert(i32::MIN * 255 <= b * dd <= i32::MAX * 255) by (nonlinear_arith)
            requires
                i32::MIN <= b <= i32::MAX,
                0 <= dd <= 255,
        ;
        let num = b * dd + beta as i64;
        let den = depth as i64 + 1;
        let q = num / den;
        proof {
            lemma_weighted_mean(best_score as int, depth as int, beta as int);
        }
        q as i32
    } else {
        best_score
    }
}

/// A weighted mean lies between its two values.
proof fn lemma_weighted_mean(a: int, d: int, b: int)
    requires
        0 <= d <= 255,
        i32::MIN <= a <= i32::MAX,
        i32::MIN <= b <= i32::MAX,
    ensures
        i32::MIN <= trunc_div(a * d + b, d + 1) <= i32::MAX,
{
    assert(i32::MIN * (d + 1) <= a * d + b <= i32::MAX * (d + 1)) by (nonlinear_arith)
        requires
            0 <= d,
            i32::MIN <= a <= i32::MAX,
            i32::MIN <= b <= i32::MAX,
    ;
    let n = a * d + b;
    if n >= 0 {
        assert(n / (d + 1) <= i32::MAX) by (nonlinear_arith)
            requires
                0 <= n <= i32::MAX * (d + 1),
                d + 1 >= 1,
        ;
    } else {
        assert((-n) / (d + 1) <= -(i32::MIN as int)) by (nonlinear_arith)
            requires
                0 < -n <= -(i32::MIN as int) * (d + 1),
                d + 1 >= 1,
        ;
    }
}

/// The bound a node's best score is: a lower bound at a fail high, exact
/// where it raised `alpha`, an upper bound otherwise.
pub fn bound_type(best_score: i32, beta: i32, orig_alpha: i32) -> (t: NodeType)
    ensures
        t == (if best_score >= beta {
            NodeType::Beta
        } else if best_score > orig_alpha {
            NodeType::Exact
        } else {
            NodeType::Alpha
        }),
{
    if best_score >= beta {
        NodeType::Beta
    } else if best_score > orig_alpha {
        NodeType::Exact
    } else {
        NodeType::Alpha
    }
}

/// Delta pruning in the quiescence search: even winning the victim and a
/// margin leaves the standing score below `alpha`.
pub fn delta_pruned(stand_pat: i32, victim_value: i32, alpha: i32) -> (r: bool)
    ensures
        r == (stand_pat + victim_value + 200 < alpha),
{
    (stand_pat as i64) + (victim_value as i64) + 200 < alpha as i64
}

/// The first half-width of an aspiration window around `average`: wider
/// the further the average is from zero.
pub fn aspiration_delta(average: i32) -> (d: i32)
    requires
        -46340 <= average <= 46340,
    ensures
        d == max(5 + abs(average as int) * abs(average as int) / 9000, 5),
{
    let a = if average >= 0 {
        average
    } else {
        -average
    };
    assert(0 <= a * a <= 46340 * 46340) by (nonlinear_arith)
        requires
            0 <= a <= 46340,
    ;
    let d = 5 + a * a / 9000;
    if d >= 5 {
        d
    } else {
        5
    }
}

/// The running average of the iteration scores after iteration `depth`.
pub fn next_average(average: i32, score: i32, depth: u8) -> (a: i32)
    requires
        depth >= 1,
    ensures
        a == (if depth == 1 {
            score as int
        } else {
            average + trunc_div(score - average, depth as int)
        }),
{
    if depth == 1 {
        score
    } else {
        let diff = score as i64 - average as i64;
        let step = diff / depth as i64;
        proof {
            assert(depth >= 2);
            let di = diff as int;
            let de = depth as int;
            if di >= 0 {
                assert(0 <= di / de <= di) by (nonlinear_arith)
                    requires
                        di >= 0,
                        de >= 2,
                ;
            } else {
                assert(0 <= (-di) / de <= -di) by (nonlinear_arith)
                    requires
                        -di > 0,
                        de >= 2,
                ;
            }
        }
        (average as i64 + step) as i32
    }
}

/// The number of moves to mate that a mate score stands for.
pub fn mate_in(score: i32) -> (n: i64)
    ensures
        n == trunc_div(MATE_SCORE - abs(score as int) + 1, 2),
{
    let s = score as i64;
    let a = if s >= 0 {
        s
    } else {
        -s
    };
    (MATE_SCORE as i64 - a + 1) / 2
}


/// A tablebase verdict for the side to move.
#[derive(Copy, Clone, Debug, PartialEq, Eq, Structural)]
pub enum Wdl {
    Win,
    Loss,
    Draw,
    /// A loss that the fifty-move rule turns into a draw.
    BlessedLoss,
    /// A win that the fifty-move rule turns into a draw.
    CursedWin,
}

/// The score of a tablebase verdict found at `ply`: wins and losses count
/// from the tablebase score, nearer ones weighing more; a draw, and a win
/// or loss that the fifty-move rule spoils, scores `draw`.
pub fn tb_score(wdl: Wdl, ply: usize, draw: i32) -> (s: i32)
    requires
        ply < MAX_PLY,
    ensures
        s == (match wdl {
            Wdl::Win => TB_SCORE - ply,
            Wdl::Loss => -TB_SCORE + ply,
            _ => draw as int,
        }),
{
    match wdl {
        Wdl::Win => TB_SCORE - ply as i32,
        Wdl::Loss => -TB_SCORE + ply as i32,
        _ => draw,
    }
}

/// The score of a tablebase verdict for the root position.
pub fn root_tb_score(wdl: Wdl) -> (s: i32)
    ensures
        s == (match wdl {
            Wdl::Win => TB_SCORE as int,
            Wdl::Loss => -TB_SCORE,
            _ => 0,
        }),
{
    match wdl {
        Wdl::Win => TB_SCORE,
        Wdl::Loss => -TB_SCORE,
        _ => 0,
    }
}

/// Whether the move `m` is the tablebase's root move from `from` to `to`;
/// where that move promotes, `m` must promote too.
pub fn tb_move_matches(m: Move, from: u8, to: u8, promotes: bool) -> (r: bool)
    ensures
        r == (spec_from_sq(m.0) == from && spec_to_sq(m.0) == to && (!promotes || spec_is_promotion(m.0))),
{
    m.from_sq() == from && m.to_sq() == to && (!promotes || m.is_promotion())
}

/// What the search asks of the world around it.  The library states
/// nothing of the answers: other threads, the clock and the files on disk
/// decide them.
pub trait SearchEnv {
    /// Called once at every node the search enters (the caller counts the
    /// node and may read the clock there); `true` stops the search.
    fn stop_requested(&mut self) -> bool;
}

/// The network's sums for the side to move stay within `i32`.
pub open spec fn eval_fits(b: &Board) -> bool {
    let side = b.side_to_move;
    layers_fit(
        &b.nnue.params,
        (if side == Color::White { b.accumulator.white.values@ } else { b.accumulator.black.values@ }),
        (if side == Color::White { b.accumulator.black.values@ } else { b.accumulator.white.values@ }),
    )
}

/// The network's evaluation of the position for the side to move.
pub open spec fn network_eval(b: &Board) -> int {
    let n = popcount(b.occ()) as u32;
    if b.side_to_move == Color::White {
        spec_evaluate(&b.accumulator.white, &b.accumulator.black, &b.nnue.params, n)
    } else {
        spec_evaluate(&b.accumulator.black, &b.accumulator.white, &b.nnue.params, n)
    }
}

/// The static evaluation can be computed: the network's sums stay within
/// `i32`, and so does the bonus of a pawn ending.
pub open spec fn static_eval_ok(b: &Board) -> bool {
    &&& eval_fits(b)
    &&& (b.spec_non_pawn_material(Color::White) == 0 && b.spec_non_pawn_material(Color::Black) == 0)
        ==> network_eval(b) <= i32::MAX - 200
}

/// The static evaluation of the side to move: the network's score,
/// adjusted for pawn endings; `None` where that arithmetic would leave
/// `i32`.
pub fn static_eval(board: &Board) -> (r: Option<i32>)
    requires
        board.wf(),
    ensures
        r is Some <==> static_eval_ok(board),
        r matches Some(v) ==> v == endgame_value(board, network_eval(board)),
{
    let side = board.side_to_move;
    if !board.nnue.fits(side, &board.accumulator) {
        return None;
    }
    let pieces = board.occupancies().count();
    let raw = board.nnue.evaluate(side, &board.accumulator, pieces);
    let pawn_ending = board.non_pawn_material(Color::White) == 0 && board.non_pawn_material(Color::Black) == 0;
    if pawn_ending && raw > i32::MAX - 200 {
        return None;
    }
    Some(endgame_evaluate(board, raw))
}

/// Whether the side that just moved left its king attacked (a side with no
/// king is not in check).
pub fn mover_in_check(board: &Board) -> (r: bool)
    requires
        board.pos_ok(),
    ensures
        r == ({
            let mover = board.side_to_move.spec_flip();
            &&& board.pieces[5].0 & board.colors[mover.spec_index()].0 != 0
            &&& attacked_by(board.piece_on_sq, board.occ(), king_square(board.pieces, board.colors, mover), board.side_to_move)
        }),
{
    let move_side = board.side_to_move.flip();
    let mk = board.piece_bb(PieceType::King).0 & board.color_occupancy(move_side).0;
    if mk != 0 {
        let k = crate::bitboard::Bitboard::new(mk).lsb();
        board.is_square_attacked(Square::new(k), board.side_to_move)
    } else {
        false
    }
}

/// The value of a quiet position: stand pat on the static evaluation, then
/// try the captures and promotions that pass the exchange test and are
/// not pruned by the delta margin, fail-hard inside the window.  The flag
/// says that the environment asked to stop on entering this node, which
/// answers 0.  `None` where the evaluation's arithmetic would leave `i32`.
/// The board comes back as it was.
#[verifier::rlimit(60)]
#[verifier::spinoff_prover]
pub fn quiescence<E: SearchEnv>(
    env: &mut E,
    heuristics: &Heuristics,
    board: &mut Board,
    ply: usize,
    alpha: i32,
    beta: i32,
) -> (v: Option<(i32, bool)>)
    requires
        old(board).wf(),
        heuristics.wf(),
        -INF <= alpha < beta <= INF,
    ensures
        equivalent(*final(board), *old(board)),
        final(board).wf(),
        ply >= MAX_PLY - 1 ==> v == (if static_eval_ok(old(board)) {
            Some((endgame_value(old(board), network_eval(old(board))) as i32, false))
        } else {
            None::<(i32, bool)>
        }),
        ply < MAX_PLY - 1 && !static_eval_ok(old(board)) ==> v is None || v == Some((0i32, true)),
        ply < MAX_PLY - 1 ==> (v matches Some((x, stopped)) ==> if stopped {
            x == 0
        } else {
            &&& static_eval_ok(old(board))
            &&& alpha <= x <= beta
            &&& (x >= beta || x >= endgame_value(old(board), network_eval(old(board))))
        }),
    decreases MAX_PLY - ply, 1nat,
{
    if ply >= MAX_PLY - 1 {
        return match static_eval(board) {
            Some(e) => Some((e, false)),
            None => None,
        };
    }
    if env.stop_requested() {
        return Some((0, true));
    }
    let stand_pat = match static_eval(board) {
        Some(e) => e,
        None => {
            return None;
        },
    };
    if stand_pat >= beta {
        return Some((beta, false));
    }
    let mut a = alpha;
    if stand_pat > a {
        a = stand_pat;
    }
    let ghost alpha0 = a;
    let ghost b0 = *board;
    let mut picker = MovePicker::new(None, 0, None, true, false);
    loop
        invariant
            board.wf(),
            b0.wf(),
            equivalent(*board, b0),
            heuristics.wf(),
            picker.ready_or_done(heuristics, board),
            picker.quiescence(),
            picker.tt_move() is None,
            picker.counter_move() is None,
            alpha0 <= a < beta,
            stand_pat <= a,
            stand_pat == endgame_value(old(board), network_eval(old(board))),
            alpha <= alpha0,
            b0 == *old(board),
            static_eval_ok(old(board)),
            -INF <= a,
            beta <= INF,
            ply < MAX_PLY - 1,
        decreases picker.progress_rank(), picker.progress_count(),
    {
        let m = match picker.next(heuristics, board) {
            Some(m) => m,
            None => {
                break;
            },
        };
        let is_capture = (m.0 & 0x4000) != 0;
        let is_promo = (m.0 >> 12 & 0x3) != 0;
        if !is_capture && !is_promo {
            continue;
        }
        if is_capture && !is_promo {
            let to_sq = m.to_sq();
            if let Some(victim) = board.piece_on_sq[to_sq as usize] {
                if delta_pruned(stand_pat, PIECE_VALUES[victim.piece_type().index()], a) {
                    continue;
                }
            } else if (m.0 & 0x8000) != 0 && delta_pruned(stand_pat, PAWN_VALUE, a) {
                continue;
            }
        }
        if is_capture && !board.see_ge(m, 0) {
            continue;
        }
        if (m.flag() == Move::FLAG_K_CASTLE || m.flag() == Move::FLAG_Q_CASTLE) && m.from_sq() == 0 && m.to_sq() == 0 {
            continue;
        }
        if !board.is_castling_legal(m) {
            continue;
        }
        if !board.can_make_move(m) || !board.can_reverse(m) {
            continue;
        }
        match quiescence_move(env, heuristics, board, m, ply, a, beta) {
            None => {
                return None;
            },
            Some(None) => {},
            Some(Some(score)) => {
                if score >= beta {
                    return Some((beta, false));
                }
                if score > a {
                    a = score;
                }
            },
        }
    }
    Some((a, false))
}

/// Plays `m` for the quiescence search, searches the reply and takes the
/// move back: `Some(None)` when the mover's king is left attacked, the
/// negated score of the reply otherwise, `None` where the evaluation's
/// arithmetic would leave `i32`.
fn quiescence_move<E: SearchEnv>(
    env: &mut E,
    heuristics: &Heuristics,
    board: &mut Board,
    m: Move,
    ply: usize,
    alpha: i32,
    beta: i32,
) -> (r: Option<Option<i32>>)
    requires
        old(board).wf(),
        old(board).can_make(m.0),
        reversible(old(board).piece_on_sq@, m.0),
        heuristics.wf(),
        -INF <= alpha < beta <= INF,
        ply < MAX_PLY - 1,
    ensures
        equivalent(*final(board), *old(board)),
        final(board).wf(),
    decreases MAX_PLY - ply, 0nat,
{
    let ghost bb = *board;
    let undo = board.make_move(m);
    let ghost b1 = *board;
    proof {
        lemma_can_unmake_after_make(bb, b1, m.0, undo);
    }
    if mover_in_check(board) {
        board.unmake_move(m, &undo);
        proof {
            lemma_make_unmake_roundtrip(bb, b1, *board, m.0, undo);
        }
        return Some(None);
    }
    let r = quiescence(env, heuristics, board, ply + 1, -beta, -alpha);
    proof {
        assert(equivalent(*board, b1));
        assert(board.can_unmake(m.0, &undo));
    }
    board.unmake_move(m, &undo);
    proof {
        lemma_make_unmake_roundtrip(bb, b1, *board, m.0, undo);
    }
    match r {
        Some((x, _)) => {
            if x == i32::MIN {
                None
            } else {
                Some(Some(-x))
            }
        },
        None => None,
    }
}

/// The aspiration window of one iteration: the running average it is
/// centred on, its half-width and its bounds.
#[derive(Copy, Clone)]
pub struct Aspiration {
    pub average: i32,
    pub delta: i32,
    pub alpha: i32,
    pub beta: i32,
}

impl Aspiration {
    /// The values an aspiration window keeps.
    pub open spec fn wf(&self) -> bool {
        &&& -46340 <= self.average <= 46340
        &&& 0 <= self.delta <= 300_000
        &&& -INF <= self.alpha <= INF
        &&& -INF <= self.beta <= INF
    }
}

/// What to do after a search inside an aspiration window.
pub enum AspirationStep {
    /// The score fell inside the window: it is the iteration's score.
    Accept(i32),
    /// The score fell outside (`low`: at or below alpha); search again in
    /// `next`, or, when `next` is `None`, once more with the full window.
    Fail { low: bool, next: Option<Aspiration> },
}

/// The window an iteration from depth 5 on starts with.
pub open spec fn spec_aspiration_start(average: i32) -> Aspiration {
    let d = max(5 + abs(average as int) * abs(average as int) / 9000, 5);
    Aspiration {
        average,
        delta: d as i32,
        alpha: max(average - d, -INF as int) as i32,
        beta: min(average + d, INF as int) as i32,
    }
}

/// The aspiration decision after a search returned `s`: inside the window
/// it is accepted; at or below alpha the window's top moves to its middle
/// and its bottom back to `average - delta`; at or above beta its top moves
/// to `average + delta`; either way the half-width grows by a third, and
/// past 2000 the next search uses the full window.
pub open spec fn spec_aspiration_next(w: Aspiration, s: i32) -> AspirationStep {
    if s <= w.alpha {
        let d = w.delta + w.delta / 3;
        let n = Aspiration {
            average: w.average,
            delta: d as i32,
            alpha: max(w.average - w.delta, -INF as int) as i32,
            beta: trunc_div(w.alpha + w.beta, 2) as i32,
        };
        AspirationStep::Fail { low: true, next: if d > 2000 { None } else { Some(n) } }
    } else if s >= w.beta {
        let d = w.delta + w.delta / 3;
        let n = Aspiration {
            average: w.average,
            delta: d as i32,
            alpha: w.alpha,
            beta: min(w.average + w.delta, INF as int) as i32,
        };
        AspirationStep::Fail { low: false, next: if d > 2000 { None } else { Some(n) } }
    } else {
        AspirationStep::Accept(s)
    }
}

/// The window an iteration from depth 5 on starts with, around the
/// running average of the scores.
pub fn aspiration_start(average: i32) -> (w: Aspiration)
    requires
        -46340 <= average <= 46340,
    ensures
        w == spec_aspiration_start(average),
        w.wf(),
{
    let delta = aspiration_delta(average);
    proof {
        let a = abs(average as int);
        assert(a * a <= 46340 * 46340) by (nonlinear_arith)
            requires
                0 <= a <= 46340,
        ;
    }
    let lo = average - delta;
    let hi = average + delta;
    let alpha = if lo < -INF { -INF } else { lo };
    let beta = if hi > INF { INF } else { hi };
    Aspiration { average, delta, alpha, beta }
}

/// The next step of the aspiration loop after a search returned `s`.
pub fn aspiration_next(w: &Aspiration, s: i32) -> (r: AspirationStep)
    requires
        w.wf(),
    ensures
        r == spec_aspiration_next(*w, s),
        r matches AspirationStep::Fail { next: Some(n), .. } ==> n.wf(),
{
    if s <= w.alpha || s >= w.beta {
        let d = w.delta + w.delta / 3;
        let next = if s <= w.alpha {
            let sum = w.alpha + w.beta;
            let half = if sum >= 0 { sum / 2 } else { -((-sum) / 2) };
            let lo = w.average - w.delta;
            Aspiration { average: w.average, delta: d, alpha: if lo < -INF { -INF } else { lo }, beta: half }
        } else {
            let hi = w.average + w.delta;
            Aspiration { average: w.average, delta: d, alpha: w.alpha, beta: if hi > INF { INF } else { hi } }
        };
        AspirationStep::Fail { low: s <= w.alpha, next: if d > 2000 { None } else { Some(next) } }
    } else {
        AspirationStep::Accept(s)
    }
}

} // verus!
