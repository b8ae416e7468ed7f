use vstd::prelude::*;
use crate::types::{Color, Move, PieceType, Square};

verus! {

/// Plies for which killer moves and static evaluations are kept.
pub const MAX_PLY: usize = 128;

/// Bound on history scores; the gravity update keeps every entry within it.
pub const HISTORY_MAX: i32 = 16384;

/// Rust's integer division, which rounds toward zero (`b > 0`).
pub open spec fn trunc_div(a: int, b: int) -> int {
    if a >= 0 {
        a / b
    } else {
        -((-a) / b)
    }
}

pub open spec fn abs(x: int) -> int {
    if x >= 0 {
        x
    } else {
        -x
    }
}

/// The history gravity update: the entry moves by `bonus`, damped by how
/// large it already is.
pub open spec fn gravity(e: int, bonus: int) -> int {
    e + bonus - trunc_div(e * abs(bonus), HISTORY_MAX as int)
}

/// The correction update: the entry moves `weight / 256` of the way toward `diff`.
pub open spec fn correction(e: int, diff: int, weight: int) -> int {
    e + trunc_div((diff - e) * weight, 256)
}

/// Every score of `t` lies within `HISTORY_MAX` of zero.
pub open spec fn bounded(t: Seq<i32>) -> bool {
    forall|i: int| 0 <= i < t.len() ==> -HISTORY_MAX <= #[trigger] t[i] <= HISTORY_MAX
}

/// Index of [color][piece type][square] in a flat table.
pub open spec fn color_piece_sq(c: int, pt: int, sq: int) -> int {
    (c * 6 + pt) * 64 + sq
}

/// Index of [attacker][square][victim] in a flat table.
pub open spec fn capture_index(att: int, sq: int, victim: int) -> int {
    (att * 64 + sq) * 6 + victim
}

/// Index of [previous piece][previous square][piece][square] in a flat table.
pub open spec fn cont_index(ppt: int, psq: int, pt: int, sq: int) -> int {
    ((ppt * 64 + psq) * 6 + pt) * 64 + sq
}

/// Index of [color][from][to] in a flat table.
pub open spec fn from_to_index(c: int, from: int, to: int) -> int {
    (c * 64 + from) * 64 + to
}

/// Index of [ply][low twelve bits of a move] in a flat table.
pub open spec fn low_ply_index(ply: int, m: u16) -> int {
    ply * 4096 + (m % 4096)
}

/// Index of [color][hash % 16384] in a flat table.
pub open spec fn corr_index(c: int, hash: int) -> int {
    c * 16384 + hash % 16384
}

/// Move-ordering statistics gathered during search. The tables are kept
/// flat; the spec functions above give the position of each entry.
pub struct Heuristics {
    pub history: Vec<i32>,
    pub killers: Vec<Move>,
    pub countermoves: Vec<Move>,
    pub capture_history: Vec<i32>,
    pub cont_history: Vec<i32>,
    pub pawn_history: Vec<i32>,
    pub minor_piece_history: Vec<i32>,
    pub low_ply_history: Vec<i32>,
    pub static_evals: Vec<i32>,
    pub non_pawn_corr: Vec<i32>,
    pub cont_corr: Vec<i32>,
}

fn zeros(n: usize) -> (v: Vec<i32>)
    ensures
        v@.len() == n,
        forall|i: int| 0 <= i < n ==> v@[i] == 0,
{
    let mut v: Vec<i32> = Vec::with_capacity(n);
    let mut i: usize = 0;
    while i < n
        invariant
            i <= n,
            v@.len() == i,
            forall|k: int| 0 <= k < i ==> v@[k] == 0,
        decreases n - i,
    {
        v.push(0);
        i = i + 1;
    }
    v
}

fn no_moves(n: usize) -> (v: Vec<Move>)
    ensures
        v@.len() == n,
        forall|i: int| 0 <= i < n ==> v@[i].0 == 0,
{
    let mut v: Vec<Move> = Vec::with_capacity(n);
    let mut i: usize = 0;
    while i < n
        invariant
            i <= n,
            v@.len() == i,
            forall|k: int| 0 <= k < i ==> v@[k].0 == 0,
        decreases n - i,
    {
        v.push(Move::none());
        i = i + 1;
    }
    v
}

proof fn lemma_gravity_bounded(e: int, bonus: int)
    requires
        -HISTORY_MAX <= e <= HISTORY_MAX,
        -HISTORY_MAX <= bonus <= HISTORY_MAX,
    ensures
        -HISTORY_MAX <= gravity(e, bonus) <= HISTORY_MAX,
        -0x1000_0000 <= e * abs(bonus) <= 0x1000_0000,
{
    let m = 16384int;
    let b = abs(bonus);
    let x = if e >= 0 { e } else { -e };
    assert(0 <= x * b <= m * m) by (nonlinear_arith)
        requires
            0 <= x <= m,
            0 <= b <= m,
    ;
    assert(x * b >= m * (x + b) - m * m) by (nonlinear_arith)
        requires
            0 <= x <= m,
            0 <= b <= m,
    ;
    assert(x * b <= m * b && x * b <= m * x) by (nonlinear_arith)
        requires
            0 <= x <= m,
            0 <= b <= m,
    ;
    assert(e * b == if e >= 0 { x * b } else { -(x * b) }) by (nonlinear_arith)
        requires
            x == (if e >= 0 { e } else { -e }),
    ;
    let q = (x * b) / m;
    assert(q <= b && q <= x && q >= x + b - m);
}

/// `t` after the gravity update of entry `i` by `bonus`.
pub open spec fn bumped(t: Seq<i32>, i: int, bonus: int) -> Seq<i32> {
    t.update(i, gravity(t[i] as int, bonus) as i32)
}

/// `t` after the correction update of entry `i` toward `diff` with `weight`.
pub open spec fn corrected(t: Seq<i32>, i: int, diff: int, weight: int) -> Seq<i32> {
    t.update(i, correction(t[i] as int, diff, weight) as i32)
}

/// The square of the depth, the size of a history bonus.
fn depth_bonus(depth: u8) -> (b: i32)
    requires
        depth <= 128,
    ensures
        b == depth * depth,
        0 <= b <= HISTORY_MAX,
{
    assert(0 <= depth * depth <= 16384) by (nonlinear_arith)
        requires
            depth <= 128,
    ;
    (depth as i32) * (depth as i32)
}

/// Which flat tables two statistics agree on: all but the one numbered `k`
/// (0 history, 1 killers, 2 countermoves, 3 capture history, 4 continuation
/// history, 5 pawn history, 6 minor-piece history, 7 low-ply history,
/// 8 static evaluations, 9 non-pawn correction, 10 continuation correction).
pub open spec fn same_but(a: &Heuristics, b: &Heuristics, k: int) -> bool {
    &&& k != 0 ==> a.history@ == b.history@
    &&& k != 1 ==> a.killers@ == b.killers@
    &&& k != 2 ==> a.countermoves@ == b.countermoves@
    &&& k != 3 ==> a.capture_history@ == b.capture_history@
    &&& k != 4 ==> a.cont_history@ == b.cont_history@
    &&& k != 5 ==> a.pawn_history@ == b.pawn_history@
    &&& k != 6 ==> a.minor_piece_history@ == b.minor_piece_history@
    &&& k != 7 ==> a.low_ply_history@ == b.low_ply_history@
    &&& k != 8 ==> a.static_evals@ == b.static_evals@
    &&& k != 9 ==> a.non_pawn_corr@ == b.non_pawn_corr@
    &&& k != 10 ==> a.cont_corr@ == b.cont_corr@
}

impl Heuristics {
    /// Table sizes, and history scores within `HISTORY_MAX`.
    pub open spec fn wf(&self) -> bool {
        &&& self.history@.len() == 768
        &&& self.killers@.len() == 2 * MAX_PLY
        &&& self.countermoves@.len() == 384
        &&& self.capture_history@.len() == 2304
        &&& self.cont_history@.len() == 147456
        &&& self.pawn_history@.len() == 8192
        &&& self.minor_piece_history@.len() == 8192
        &&& self.low_ply_history@.len() == 65536
        &&& self.static_evals@.len() == MAX_PLY
        &&& self.non_pawn_corr@.len() == 32768
        &&& self.cont_corr@.len() == 147456
        &&& bounded(self.history@)
        &&& bounded(self.capture_history@)
        &&& bounded(self.cont_history@)
        &&& bounded(self.pawn_history@)
        &&& bounded(self.minor_piece_history@)
        &&& bounded(self.low_ply_history@)
    }

    /// Every score zero and every killer and countermove the null move.
    pub open spec fn is_clear(&self) -> bool {
        &&& self.wf()
        &&& forall|i: int| 0 <= i < 768 ==> self.history@[i] == 0
        &&& forall|i: int| 0 <= i < 2 * MAX_PLY ==> self.killers@[i].0 == 0
        &&& forall|i: int| 0 <= i < 384 ==> self.countermoves@[i].0 == 0
        &&& forall|i: int| 0 <= i < 2304 ==> self.capture_history@[i] == 0
        &&& forall|i: int| 0 <= i < 147456 ==> self.cont_history@[i] == 0
        &&& forall|i: int| 0 <= i < 8192 ==> self.pawn_history@[i] == 0
        &&& forall|i: int| 0 <= i < 8192 ==> self.minor_piece_history@[i] == 0
        &&& forall|i: int| 0 <= i < 65536 ==> self.low_ply_history@[i] == 0
        &&& forall|i: int| 0 <= i < MAX_PLY ==> self.static_evals@[i] == 0
        &&& forall|i: int| 0 <= i < 32768 ==> self.non_pawn_corr@[i] == 0
        &&& forall|i: int| 0 <= i < 147456 ==> self.cont_corr@[i] == 0
    }

    pub fn new() -> (h: Heuristics)
        ensures
            h.is_clear(),
    {
        Heuristics {
            history: zeros(768),
            killers: no_moves(2 * MAX_PLY),
            countermoves: no_moves(384),
            capture_history: zeros(2304),
            cont_history: zeros(147456),
            pawn_history: zeros(8192),
            minor_piece_history: zeros(8192),
            low_ply_history: zeros(65536),
            static_evals: zeros(MAX_PLY),
            non_pawn_corr: zeros(32768),
            cont_corr: zeros(147456),
        }
    }

    /// Resets every table.
    pub fn clear(&mut self)
        ensures
            final(self).is_clear(),
    {
        *self = Heuristics::new();
    }

    /// Moves `*entry` by `bonus` with gravity.
    fn gravity_update(entry: &mut i32, bonus: i32)
        requires
            -HISTORY_MAX <= *old(entry) <= HISTORY_MAX,
            -HISTORY_MAX <= bonus <= HISTORY_MAX,
        ensures
            *final(entry) == gravity(*old(entry) as int, bonus as int),
            -HISTORY_MAX <= *final(entry) <= HISTORY_MAX,
    {
        proof {
            lemma_gravity_bounded(*entry as int, bonus as int);
        }
        let b = if bonus >= 0 { bonus } else { -bonus };
        *entry = *entry + bonus - *entry * b / HISTORY_MAX;
    }

    fn bump(table: &mut Vec<i32>, idx: usize, bonus: i32)
        requires
            idx < old(table)@.len(),
            bounded(old(table)@),
            -HISTORY_MAX <= bonus <= HISTORY_MAX,
        ensures
            final(table)@ == old(table)@.update(idx as int, gravity(old(table)@[idx as int] as int, bonus as int) as i32),
            bounded(final(table)@),
    {
        let mut e = table[idx];
        Self::gravity_update(&mut e, bonus);
        table.set(idx, e);
    }

    /// Rewards a quiet move of a `pt` of `color` to `to` that caused a cutoff at `depth`.
    pub fn update_history(&mut self, color: Color, pt: PieceType, to: Square, depth: u8)
        requires
            old(self).wf(),
            to.0 < 64,
            depth <= 128,
        ensures
            final(self).wf(),
            same_but(&*final(self), &*old(self), 0),
            final(self).history@ == bumped(
                old(self).history@,
                color_piece_sq(color.spec_index(), pt.spec_index(), to.0 as int),
                depth * depth,
            ),
    {
        let bonus = depth_bonus(depth);
        let idx = (color.index() * 6 + pt.index()) * 64 + to.0 as usize;
        Self::bump(&mut self.history, idx, bonus);
    }

    /// Penalizes a quiet move that did not cause a cutoff.
    pub fn penalize_history(&mut self, color: Color, pt: PieceType, to: Square, depth: u8)
        requires
            old(self).wf(),
            to.0 < 64,
            depth <= 128,
        ensures
            final(self).wf(),
            same_but(&*final(self), &*old(self), 0),
            final(self).history@ == bumped(
                old(self).history@,
                color_piece_sq(color.spec_index(), pt.spec_index(), to.0 as int),
                -(depth * depth),
            ),
    {
        let bonus = -depth_bonus(depth);
        let idx = (color.index() * 6 + pt.index()) * 64 + to.0 as usize;
        Self::bump(&mut self.history, idx, bonus);
    }

    pub fn get_history(&self, color: Color, pt: PieceType, to: Square) -> (v: i32)
        requires
            self.wf(),
            to.0 < 64,
        ensures
            v == self.history@[color_piece_sq(color.spec_index(), pt.spec_index(), to.0 as int)],
    {
        self.history[(color.index() * 6 + pt.index()) * 64 + to.0 as usize]
    }

    /// Rewards a capture of a `victim` by an `attacker` on `to`.
    pub fn update_capture_history(&mut self, attacker: PieceType, to: Square, victim: PieceType, depth: u8)
        requires
            old(self).wf(),
            to.0 < 64,
            depth <= 128,
        ensures
            final(self).wf(),
            same_but(&*final(self), &*old(self), 3),
            final(self).capture_history@ == bumped(
                old(self).capture_history@,
                capture_index(attacker.spec_index(), to.0 as int, victim.spec_index()),
                depth * depth,
            ),
    {
        let bonus = depth_bonus(depth);
        let idx = (attacker.index() * 64 + to.0 as usize) * 6 + victim.index();
        Self::bump(&mut self.capture_history, idx, bonus);
    }

    pub fn get_capture_history(&self, attacker: PieceType, to: Square, victim: PieceType) -> (v: i32)
        requires
            self.wf(),
            to.0 < 64,
        ensures
            v == self.capture_history@[capture_index(attacker.spec_index(), to.0 as int, victim.spec_index())],
    {
        self.capture_history[(attacker.index() * 64 + to.0 as usize) * 6 + victim.index()]
    }

    /// Rewards the move of a `cur_pt` to `cur_to` answering a `prev_pt` to `prev_to`.
    pub fn update_continuation(
        &mut self,
        prev_pt: PieceType,
        prev_to: Square,
        cur_pt: PieceType,
        cur_to: Square,
        depth: u8,
    )
        requires
            old(self).wf(),
            prev_to.0 < 64,
            cur_to.0 < 64,
            depth <= 128,
        ensures
            final(self).wf(),
            same_but(&*final(self), &*old(self), 4),
            final(self).cont_history@ == bumped(
                old(self).cont_history@,
                cont_index(prev_pt.spec_index(), prev_to.0 as int, cur_pt.spec_index(), cur_to.0 as int),
                depth * depth,
            ),
    {
        let bonus = depth_bonus(depth);
        let idx = ((prev_pt.index() * 64 + prev_to.0 as usize) * 6 + cur_pt.index()) * 64 + cur_to.0 as usize;
        Self::bump(&mut self.cont_history, idx, bonus);
    }

    pub fn get_continuation(&self, prev_pt: PieceType, prev_to: Square, cur_pt: PieceType, cur_to: Square) -> (v: i32)
        requires
            self.wf(),
            prev_to.0 < 64,
            cur_to.0 < 64,
        ensures
            v == self.cont_history@[cont_index(prev_pt.spec_index(), prev_to.0 as int, cur_pt.spec_index(), cur_to.0 as int)],
    {
        self.cont_history[((prev_pt.index() * 64 + prev_to.0 as usize) * 6 + cur_pt.index()) * 64 + cur_to.0 as usize]
    }

    /// Makes `m` the first killer at `ply`, the old first killer becoming the
    /// second, unless `m` is already first. Plies past `MAX_PLY` are ignored.
    pub fn update_killer(&mut self, m: Move, ply: usize)
        requires
            old(self).wf(),
        ensures
            final(self).wf(),
            same_but(&*final(self), &*old(self), 1),
            ply >= MAX_PLY || old(self).killers@[2 * ply as int].0 == m.0 ==> final(self).killers@ == old(self).killers@,
            ply < MAX_PLY && old(self).killers@[2 * ply as int].0 != m.0 ==> final(self).killers@ == old(self).killers@.update(
                2 * ply + 1,
                old(self).killers@[2 * ply as int],
            ).update(2 * ply as int, m),
            ply < MAX_PLY ==> final(self).killers@[2 * ply as int].0 == m.0,
    {
        if ply >= MAX_PLY {
            return;
        }
        let first = self.killers[2 * ply];
        if first.0 != m.0 {
            self.killers.set(2 * ply + 1, first);
            self.killers.set(2 * ply, m);
        }
    }

    /// Whether `m` is one of the two killers at `ply`.
    pub fn is_killer(&self, m: Move, ply: usize) -> (r: bool)
        requires
            self.wf(),
        ensures
            r == (ply < MAX_PLY && (self.killers@[2 * ply as int].0 == m.0 || self.killers@[2 * ply + 1].0 == m.0)),
    {
        if ply >= MAX_PLY {
            return false;
        }
        self.killers[2 * ply].0 == m.0 || self.killers[2 * ply + 1].0 == m.0
    }

    /// 1 when `m` is the first killer at `ply`, 2 when it is the second, 0 otherwise.
    pub fn killer_slot(&self, m: Move, ply: usize) -> (r: usize)
        requires
            self.wf(),
        ensures
            r == (if ply >= MAX_PLY {
                0
            } else if self.killers@[2 * ply as int].0 == m.0 {
                1
            } else if self.killers@[2 * ply + 1].0 == m.0 {
                2
            } else {
                0int
            }),
    {
        if ply >= MAX_PLY {
            return 0;
        }
        if self.killers[2 * ply].0 == m.0 {
            return 1;
        }
        if self.killers[2 * ply + 1].0 == m.0 {
            return 2;
        }
        0
    }

    /// Records `m` as the answer to a `prev_pt` arriving on `prev_to`.
    pub fn update_countermove(&mut self, prev_pt: PieceType, prev_to: Square, m: Move)
        requires
            old(self).wf(),
            prev_to.0 < 64,
        ensures
            final(self).wf(),
            same_but(&*final(self), &*old(self), 2),
            final(self).countermoves@ == old(self).countermoves@.update(prev_pt.spec_index() * 64 + prev_to.0, m),
    {
        self.countermoves.set(prev_pt.index() * 64 + prev_to.0 as usize, m);
    }

    pub fn get_countermove(&self, prev_pt: PieceType, prev_to: Square) -> (m: Move)
        requires
            self.wf(),
            prev_to.0 < 64,
        ensures
            m == self.countermoves@[prev_pt.spec_index() * 64 + prev_to.0],
    {
        self.countermoves[prev_pt.index() * 64 + prev_to.0 as usize]
    }

    pub fn update_pawn_history(&mut self, color: Color, from: Square, to: Square, depth: u8)
        requires
            old(self).wf(),
            from.0 < 64,
            to.0 < 64,
            depth <= 128,
        ensures
            final(self).wf(),
            same_but(&*final(self), &*old(self), 5),
            final(self).pawn_history@ == bumped(
                old(self).pawn_history@,
                from_to_index(color.spec_index(), from.0 as int, to.0 as int),
                depth * depth,
            ),
    {
        let bonus = depth_bonus(depth);
        let idx = (color.index() * 64 + from.0 as usize) * 64 + to.0 as usize;
        Self::bump(&mut self.pawn_history, idx, bonus);
    }

    pub fn get_pawn_history(&self, color: Color, from: Square, to: Square) -> (v: i32)
        requires
            self.wf(),
            from.0 < 64,
            to.0 < 64,
        ensures
            v == self.pawn_history@[from_to_index(color.spec_index(), from.0 as int, to.0 as int)],
    {
        self.pawn_history[(color.index() * 64 + from.0 as usize) * 64 + to.0 as usize]
    }

    pub fn penalize_pawn_history(&mut self, color: Color, from: Square, to: Square, depth: u8)
        requires
            old(self).wf(),
            from.0 < 64,
            to.0 < 64,
            depth <= 128,
        ensures
            final(self).wf(),
            same_but(&*final(self), &*old(self), 5),
            final(self).pawn_history@ == bumped(
                old(self).pawn_history@,
                from_to_index(color.spec_index(), from.0 as int, to.0 as int),
                -(depth * depth),
            ),
    {
        let penalty = -depth_bonus(depth);
        let idx = (color.index() * 64 + from.0 as usize) * 64 + to.0 as usize;
        Self::bump(&mut self.pawn_history, idx, penalty);
    }

    pub fn update_minor_piece_history(&mut self, color: Color, from: Square, to: Square, depth: u8)
        requires
            old(self).wf(),
            from.0 < 64,
            to.0 < 64,
            depth <= 128,
        ensures
            final(self).wf(),
            same_but(&*final(self), &*old(self), 6),
            final(self).minor_piece_history@ == bumped(
                old(self).minor_piece_history@,
                from_to_index(color.spec_index(), from.0 as int, to.0 as int),
                depth * depth,
            ),
    {
        let bonus = depth_bonus(depth);
        let idx = (color.index() * 64 + from.0 as usize) * 64 + to.0 as usize;
        Self::bump(&mut self.minor_piece_history, idx, bonus);
    }

    pub fn get_minor_piece_history(&self, color: Color, from: Square, to: Square) -> (v: i32)
        requires
            self.wf(),
            from.0 < 64,
            to.0 < 64,
        ensures
            v == self.minor_piece_history@[from_to_index(color.spec_index(), from.0 as int, to.0 as int)],
    {
        self.minor_piece_history[(color.index() * 64 + from.0 as usize) * 64 + to.0 as usize]
    }

    pub fn penalize_minor_piece_history(&mut self, color: Color, from: Square, to: Square, depth: u8)
        requires
            old(self).wf(),
            from.0 < 64,
            to.0 < 64,
            depth <= 128,
        ensures
            final(self).wf(),
            same_but(&*final(self), &*old(self), 6),
            final(self).minor_piece_history@ == bumped(
                old(self).minor_piece_history@,
                from_to_index(color.spec_index(), from.0 as int, to.0 as int),
                -(depth * depth),
            ),
    {
        let penalty = -depth_bonus(depth);
        let idx = (color.index() * 64 + from.0 as usize) * 64 + to.0 as usize;
        Self::bump(&mut self.minor_piece_history, idx, penalty);
    }

    /// Rewards `m` at one of the first sixteen plies; deeper plies are ignored.
    pub fn update_low_ply_history(&mut self, m: Move, ply: usize, depth: u8)
        requires
            old(self).wf(),
            depth <= 128,
        ensures
            final(self).wf(),
            same_but(&*final(self), &*old(self), 7),
            final(self).low_ply_history@ == (if ply < 16 {
                bumped(old(self).low_ply_history@, low_ply_index(ply as int, m.0), depth * depth)
            } else {
                old(self).low_ply_history@
            }),
    {
        if ply < 16 {
            let bonus = depth_bonus(depth);
            let idx = ply * 4096 + low_bits(m.0);
            Self::bump(&mut self.low_ply_history, idx, bonus);
        }
    }

    pub fn get_low_ply_history(&self, m: Move, ply: usize) -> (v: i32)
        requires
            self.wf(),
        ensures
            v == (if ply < 16 {
                self.low_ply_history@[low_ply_index(ply as int, m.0)]
            } else {
                0
            }),
    {
        if ply < 16 {
            self.low_ply_history[ply * 4096 + low_bits(m.0)]
        } else {
            0
        }
    }

    pub fn penalize_low_ply_history(&mut self, m: Move, ply: usize, depth: u8)
        requires
            old(self).wf(),
            depth <= 128,
        ensures
            final(self).wf(),
            same_but(&*final(self), &*old(self), 7),
            final(self).low_ply_history@ == (if ply < 16 {
                bumped(old(self).low_ply_history@, low_ply_index(ply as int, m.0), -(depth * depth))
            } else {
                old(self).low_ply_history@
            }),
    {
        if ply < 16 {
            let penalty = -depth_bonus(depth);
            let idx = ply * 4096 + low_bits(m.0);
            Self::bump(&mut self.low_ply_history, idx, penalty);
        }
    }

    /// Whether `eval` beats the static evaluation two plies earlier (always
    /// true in the first two plies).
    pub fn is_improving(&self, ply: usize, eval: i32) -> (r: bool)
        requires
            self.wf(),
            ply < MAX_PLY + 2,
        ensures
            r == (ply < 2 || eval > self.static_evals@[ply - 2]),
    {
        if ply >= 2 {
            eval > self.static_evals[ply - 2]
        } else {
            true
        }
    }

    /// Moves the non-pawn correction of `color` for the material hash toward `diff`.
    pub fn update_non_pawn_correction(&mut self, color: Color, non_pawn_material_hash: usize, diff: i32, weight: i32)
        requires
            old(self).wf(),
            i32::MIN <= diff - old(self).non_pawn_corr@[corr_index(color.spec_index(), non_pawn_material_hash as int)] <= i32::MAX,
            i32::MIN <= (diff - old(self).non_pawn_corr@[corr_index(color.spec_index(), non_pawn_material_hash as int)])
                * weight <= i32::MAX,
            i32::MIN <= correction(
                old(self).non_pawn_corr@[corr_index(color.spec_index(), non_pawn_material_hash as int)] as int,
                diff as int,
                weight as int,
            ) <= i32::MAX,
        ensures
            final(self).wf(),
            same_but(&*final(self), &*old(self), 9),
            final(self).non_pawn_corr@ == corrected(
                old(self).non_pawn_corr@,
                corr_index(color.spec_index(), non_pawn_material_hash as int),
                diff as int,
                weight as int,
            ),
    {
        let idx = color.index() * 16384 + non_pawn_material_hash % 16384;
        let e = self.non_pawn_corr[idx];
        let step = (diff - e) * weight / 256;
        self.non_pawn_corr.set(idx, e + step);
    }

    pub fn get_non_pawn_correction(&self, color: Color, non_pawn_material_hash: usize) -> (v: i32)
        requires
            self.wf(),
        ensures
            v == self.non_pawn_corr@[corr_index(color.spec_index(), non_pawn_material_hash as int)],
    {
        self.non_pawn_corr[color.index() * 16384 + non_pawn_material_hash % 16384]
    }

    /// Moves the continuation correction of a `cur_pt` to `cur_to` after a
    /// `prev_pt` to `prev_to` toward `diff`.
    pub fn update_cont_correction(
        &mut self,
        prev_pt: PieceType,
        prev_to: Square,
        cur_pt: PieceType,
        cur_to: Square,
        diff: i32,
        weight: i32,
    )
        requires
            old(self).wf(),
            prev_to.0 < 64,
            cur_to.0 < 64,
            i32::MIN <= diff - old(self).cont_corr@[cont_index(prev_pt.spec_index(), prev_to.0 as int, cur_pt.spec_index(), cur_to.0 as int)] <= i32::MAX,
            i32::MIN <= (diff - old(self).cont_corr@[cont_index(prev_pt.spec_index(), prev_to.0 as int, cur_pt.spec_index(), cur_to.0 as int)])
                * weight <= i32::MAX,
            i32::MIN <= correction(
                old(self).cont_corr@[cont_index(prev_pt.spec_index(), prev_to.0 as int, cur_pt.spec_index(), cur_to.0 as int)] as int,
                diff as int,
                weight as int,
            ) <= i32::MAX,
        ensures
            final(self).wf(),
            same_but(&*final(self), &*old(self), 10),
            final(self).cont_corr@ == corrected(
                old(self).cont_corr@,
                cont_index(prev_pt.spec_index(), prev_to.0 as int, cur_pt.spec_index(), cur_to.0 as int),
                diff as int,
                weight as int,
            ),
    {
        let idx = ((prev_pt.index() * 64 + prev_to.0 as usize) * 6 + cur_pt.index()) * 64 + cur_to.0 as usize;
        let e = self.cont_corr[idx];
        let step = (diff - e) * weight / 256;
        self.cont_corr.set(idx, e + step);
    }

    pub fn get_cont_correction(&self, prev_pt: PieceType, prev_to: Square, cur_pt: PieceType, cur_to: Square) -> (v: i32)
        requires
            self.wf(),
            prev_to.0 < 64,
            cur_to.0 < 64,
        ensures
            v == self.cont_corr@[cont_index(prev_pt.spec_index(), prev_to.0 as int, cur_pt.spec_index(), cur_to.0 as int)],
    {
        self.cont_corr[((prev_pt.index() * 64 + prev_to.0 as usize) * 6 + cur_pt.index()) * 64 + cur_to.0 as usize]
    }
}

impl Default for Heuristics {
    fn default() -> (h: Heuristics)
        ensures
            h.is_clear(),
    {
        Heuristics::new()
    }
}

/// The low twelve bits of a move: its two squares.
fn low_bits(m: u16) -> (r: usize)
    ensures
        r == m % 4096,
        r < 4096,
{
    (m % 4096) as usize
}

} // verus!
