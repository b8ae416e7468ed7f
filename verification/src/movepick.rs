use vstd::prelude::*;
use crate::attacks::{
    bishop_attack, bishop_attacks, knight_attacks, knight_jump, pawn_attacks, pawn_capture_target, queen_attack, queen_attacks,
    rook_attack, rook_attacks,
};
use crate::bitboard::Bitboard;
use crate::board::{has_square, king_square, Board};
use crate::eval::{piece_value, piece_value_of};
use crate::history::{capture_index, color_piece_sq, trunc_div, Heuristics, MAX_PLY};
use crate::movegen::{all_moves_listed, generate_pseudo_legal_moves, gen_ready, setup_ok, MoveList};
use crate::types::{lemma_move_squares, spec_flag, spec_from_sq, spec_is_capture, spec_is_promotion, spec_to_sq, Color, Move, PieceType, Square};

verus! {

/// The score of a capture `m`: ten times the victim's value (a pawn for en
/// passant or an empty target) less the attacker's, plus a thirty-second of
/// the capture history, above every quiet move; far below every move when
/// no piece stands on the origin square.
pub open spec fn capture_score_of(h: &Heuristics, b: &Board, m: u16) -> int {
    let from = spec_from_sq(m) as int;
    let to = spec_to_sq(m) as int;
    match b.piece_on_sq[from] {
        None => -20_000_000,
        Some(p) => {
            let a = p.spec_piece_type();
            let v = if spec_flag(m) == Move::FLAG_EP {
                PieceType::Pawn
            } else {
                match b.piece_on_sq[to] {
                    Some(q) => q.spec_piece_type(),
                    None => PieceType::Pawn,
                }
            };
            10_000_000 + piece_value(v) * 10 - piece_value(a) + trunc_div(
                h.capture_history@[capture_index(a.spec_index(), to, v.spec_index())] as int,
                32,
            )
        },
    }
}

/// The occupancy after a piece leaves `from` for `to`.
pub open spec fn occ_after_move(occ: u64, from: u8, to: u8) -> u64 {
    (occ & !(1u64 << from)) | (1u64 << to)
}

/// A `pt` of `side` moved to `to` attacks `king`, sliders seen through the
/// occupancy after the move from `from`.
pub open spec fn gives_check_spec(b: &Board, side: Color, pt: PieceType, from: u8, to: u8, king: u8) -> bool {
    let occ = occ_after_move(b.occ(), from, to);
    match pt {
        PieceType::Knight => knight_jump(to as int, king as int),
        PieceType::Bishop => bishop_attack(to as int, occ, king as int),
        PieceType::Rook => rook_attack(to as int, occ, king as int),
        PieceType::Queen => queen_attack(to as int, occ, king as int),
        PieceType::Pawn => pawn_capture_target(side, to as int, king as int),
        PieceType::King => false,
    }
}

/// The stages a move picker goes through: the hash move, good captures,
/// killers, the countermove, quiet moves, then the captures and quiet moves
/// put aside as bad; in check, the hash move and then every evasion.
#[derive(PartialEq, Eq, Copy, Clone, Debug, Structural)]
pub enum MovePickerStage {
    TTMove,
    CapturesInit,
    GoodCaptures,
    Killers,
    CounterMove,
    QuietsInit,
    Quiets,
    BadCaptures,
    BadQuiets,
    EvasionTT,
    EvasionInit,
    Evasions,
    AllDone,
}

/// How far a stage is from the end; each step of `next` lowers it or
/// consumes a move of the stage.
pub open spec fn stage_rank(s: MovePickerStage) -> int {
    match s {
        MovePickerStage::TTMove => 9,
        MovePickerStage::CapturesInit => 8,
        MovePickerStage::GoodCaptures => 7,
        MovePickerStage::Killers => 6,
        MovePickerStage::CounterMove => 5,
        MovePickerStage::QuietsInit => 4,
        MovePickerStage::Quiets => 3,
        MovePickerStage::BadCaptures => 2,
        MovePickerStage::BadQuiets => 1,
        MovePickerStage::EvasionTT => 3,
        MovePickerStage::EvasionInit => 2,
        MovePickerStage::Evasions => 1,
        MovePickerStage::AllDone => 0,
    }
}

/// The stages that read the generated list.
pub open spec fn after_generation(s: MovePickerStage) -> bool {
    match s {
        MovePickerStage::TTMove | MovePickerStage::CapturesInit | MovePickerStage::EvasionTT
        | MovePickerStage::EvasionInit => false,
        _ => true,
    }
}

/// Two boards hold the same position for move generation: pieces, side to
/// move, castling rights and en passant square.
pub open spec fn same_position(a: Board, b: Board) -> bool {
    &&& a.piece_on_sq == b.piece_on_sq
    &&& a.pieces == b.pieces
    &&& a.colors == b.colors
    &&& a.side_to_move == b.side_to_move
    &&& a.castling == b.castling
    &&& a.en_passant == b.en_passant
}

/// `m` is pseudo-legal on `b` where `b` meets `setup_ok`.
pub open spec fn sound_on(b: Board, m: Move) -> bool {
    setup_ok(&b) ==> b.spec_pseudo_legal(m.0)
}

/// Hands out the moves of one position one at a time, most promising first.
pub struct MovePicker {
    tt_move: Option<Move>,
    counter_move: Option<Move>,
    ply: usize,
    stage: MovePickerStage,
    quiescence: bool,
    list: MoveList,
    scores: Vec<i32>,
    cur: usize,
    bad_captures: Vec<Move>,
    bad_quiets: Vec<Move>,
    pos: Ghost<Board>,
    handed: Ghost<Set<u16>>,
    generated: Ghost<Seq<Move>>,
    consistent: Ghost<bool>,
    tt_pos: Ghost<Board>,
    snap: Ghost<(u16, u16)>,
    scored_with: Ghost<Heuristics>,
    last_good: Ghost<int>,
}

/// The score a capture stage gives `m`: its capture score when it is a
/// capture or a promotion, far below every capture otherwise.
pub open spec fn good_stage_score(h: &Heuristics, b: &Board, m: Move) -> int {
    if is_tactical(m) {
        capture_score_of(h, b, m.0)
    } else {
        -20_000_000
    }
}

/// The history value the side to move has for `m`: that of the piece on its
/// origin square moving to its target.
pub open spec fn quiet_history(h: &Heuristics, b: &Board, m: u16) -> int {
    let from = spec_from_sq(m) as int;
    let pt = match b.piece_on_sq[from] {
        Some(p) => p.spec_piece_type(),
        None => PieceType::Pawn,
    };
    h.history@[color_piece_sq(b.side_to_move.spec_index(), pt.spec_index(), spec_to_sq(m) as int)] as int
}

/// The piece on the origin square of `m` attacks the enemy king's square
/// once it stands on the target, sliders seen through the occupancy after
/// the move; false when the enemy has no king.
pub open spec fn quiet_gives_check(b: &Board, m: u16) -> bool {
    let side = b.side_to_move;
    let k = king_square(b.pieces, b.colors, side.spec_flip());
    &&& k < 64
    &&& b.piece_on_sq[spec_from_sq(m) as int] matches Some(p) && gives_check_spec(
        b,
        side,
        p.spec_piece_type(),
        spec_from_sq(m),
        spec_to_sq(m),
        k as u8,
    )
}

/// The score the quiet stage gives `m`: for a quiet move with a piece on its
/// origin square, its history value, raised by 16384 when it gives check;
/// far below every move otherwise.
pub open spec fn quiet_score_of(h: &Heuristics, b: &Board, m: u16) -> int {
    if !spec_is_capture(m) && !spec_is_promotion(m) && b.piece_on_sq[spec_from_sq(m) as int] is Some {
        quiet_history(h, b, m) + if quiet_gives_check(b, m) {
            16384int
        } else {
            0int
        }
    } else {
        -20_000_000
    }
}

/// A quiet move that gives check scores its history value plus 16384, one
/// that does not scores its history value; so a checking quiet move is never
/// put aside as a bad quiet (its score stays above -14000), and it comes
/// before every non-checking quiet move whose history value is below its own
/// plus 16384.
pub proof fn lemma_checking_quiets_first(h: &Heuristics, b: &Board, m1: u16, m2: u16)
    requires
        h.wf(),
        !spec_is_capture(m1) && !spec_is_promotion(m1) && b.piece_on_sq[spec_from_sq(m1) as int] is Some,
        !spec_is_capture(m2) && !spec_is_promotion(m2) && b.piece_on_sq[spec_from_sq(m2) as int] is Some,
    ensures
        quiet_gives_check(b, m1) ==> quiet_score_of(h, b, m1) == quiet_history(h, b, m1) + 16384,
        !quiet_gives_check(b, m2) ==> quiet_score_of(h, b, m2) == quiet_history(h, b, m2),
        quiet_gives_check(b, m1) ==> quiet_score_of(h, b, m1) > -14000,
        quiet_gives_check(b, m1) && !quiet_gives_check(b, m2) && quiet_history(h, b, m2) < quiet_history(h, b, m1)
            + 16384 ==> quiet_score_of(h, b, m2) < quiet_score_of(h, b, m1),
{
    let from = spec_from_sq(m1) as int;
    let pt = match b.piece_on_sq[from] {
        Some(p) => p.spec_piece_type(),
        None => PieceType::Pawn,
    };
    lemma_move_squares(m1);
    let k = color_piece_sq(b.side_to_move.spec_index(), pt.spec_index(), spec_to_sq(m1) as int);
    assert(0 <= k < 768);
    assert(-16384 <= h.history@[k]);
}

/// The stages a quiescence picker never reaches: killers, countermove,
/// quiet moves and the moves put aside.
pub open spec fn quiet_stage(s: MovePickerStage) -> bool {
    match s {
        MovePickerStage::Killers | MovePickerStage::CounterMove | MovePickerStage::QuietsInit
        | MovePickerStage::Quiets | MovePickerStage::BadCaptures | MovePickerStage::BadQuiets => true,
        _ => false,
    }
}

/// The stages of a picker made for a side in check.
pub open spec fn evasion_stage(s: MovePickerStage) -> bool {
    match s {
        MovePickerStage::EvasionTT | MovePickerStage::EvasionInit | MovePickerStage::Evasions => true,
        _ => false,
    }
}

/// A capture or a promotion.
pub open spec fn is_tactical(m: Move) -> bool {
    spec_is_capture(m.0) || spec_is_promotion(m.0)
}

/// The two killers that `heuristics` holds for `ply`.
pub open spec fn killers_now(heuristics: &Heuristics, ply: usize) -> (u16, u16) {
    (heuristics.killers@[2 * ply as int].0, heuristics.killers@[2 * ply + 1].0)
}

impl MovePicker {
    pub closed spec fn stage(&self) -> MovePickerStage {
        self.stage
    }

    pub closed spec fn ply(&self) -> usize {
        self.ply
    }

    pub closed spec fn quiescence(&self) -> bool {
        self.quiescence
    }

    pub closed spec fn tt_move(&self) -> Option<Move> {
        self.tt_move
    }

    pub closed spec fn counter_move(&self) -> Option<Move> {
        self.counter_move
    }

    /// The position the moves were generated for.
    pub closed spec fn position(&self) -> Board {
        self.pos@
    }

    /// How far the picker is from done: its stage's rank ...
    pub closed spec fn progress_rank(&self) -> int {
        stage_rank(self.stage)
    }

    /// ... and, within the stage, how many moves of its list are left.
    pub closed spec fn progress_count(&self) -> int {
        match self.stage {
            MovePickerStage::GoodCaptures | MovePickerStage::Quiets | MovePickerStage::Evasions => self.list.moves@.len()
                - self.cur,
            MovePickerStage::Killers => 2 - self.cur,
            MovePickerStage::BadCaptures => self.bad_captures@.len() - self.cur,
            MovePickerStage::BadQuiets => self.bad_quiets@.len() - self.cur,
            _ => 0,
        }
    }

    /// The statistics the captures were scored with.
    pub closed spec fn scoring_heuristics(&self) -> Heuristics {
        self.scored_with@
    }

    /// The score of the last good capture handed out (the largest score
    /// before the first).
    pub closed spec fn last_good_score(&self) -> int {
        self.last_good@
    }

    /// While the good captures are handed out, every capture not yet looked
    /// at keeps its score and scores no higher than the last one handed out.
    pub closed spec fn good_order(&self) -> bool {
        self.stage == MovePickerStage::GoodCaptures ==> {
            &&& self.scores@.len() == self.list.moves@.len()
            &&& forall|i: int|
                self.cur <= i < self.list.moves@.len() ==> #[trigger] self.scores@[i] == good_stage_score(
                    &self.scored_with@,
                    &self.pos@,
                    self.list.moves@[i],
                ) && self.scores@[i] <= self.last_good@
        }
    }

    /// The moves handed out so far.
    pub closed spec fn handed_out(&self) -> Set<u16> {
        self.handed@
    }

    /// The moves generated for `position()`, in the order of generation.
    pub closed spec fn generated(&self) -> Seq<Move> {
        self.generated@
    }

    /// The board the picker was given when it tried the hash move.
    pub closed spec fn asked_position(&self) -> Board {
        self.tt_pos@
    }

    /// Whether the picker has read the killers of its ply.
    pub closed spec fn killers_seen(&self) -> bool {
        (self.stage == MovePickerStage::Killers && self.cur >= 1) || self.stage == MovePickerStage::CounterMove
            || self.stage == MovePickerStage::QuietsInit || self.stage == MovePickerStage::Quiets
    }

    /// The killers the picker read.
    pub closed spec fn seen_killers(&self) -> (u16, u16) {
        self.snap@
    }

    /// A picker outside quiescence whose quiet moves were not skipped, that
    /// generated its moves for the position it tried the hash move on, and
    /// that found the same killers at its ply whenever it read them.
    pub closed spec fn complete_run(&self) -> bool {
        self.consistent@ && !self.quiescence
    }

    spec fn tt_is(&self, k: u16) -> bool {
        self.tt_move matches Some(t) && t.0 == k
    }

    /// The hash move was handed out if it was pseudo-legal.
    spec fn tt_done(&self) -> bool {
        self.tt_move matches Some(t) ==> (setup_ok(&self.tt_pos@) && self.tt_pos@.spec_pseudo_legal(t.0)
            ==> self.handed@.contains(t.0))
    }

    /// The killer `k` was handed out if the killer stage could hand it out.
    spec fn killer_done(&self, k: u16) -> bool {
        k != 0 && !self.tt_is(k) && self.pos@.spec_pseudo_legal(k) && !spec_is_capture(k) ==> self.handed@.contains(k)
    }

    spec fn is_snap_killer(&self, k: u16) -> bool {
        k == self.snap@.0 || k == self.snap@.1
    }

    /// The countermove was handed out if the countermove stage could hand it out.
    spec fn counter_done(&self) -> bool {
        self.counter_move matches Some(c) ==> (!self.tt_is(c.0) && !self.is_snap_killer(c.0)
            && self.pos@.spec_pseudo_legal(c.0) && !spec_is_capture(c.0) ==> self.handed@.contains(c.0))
    }

    /// A capture or promotion is handed out, put aside, or the hash move.
    spec fn covered_tac(&self, m: Move) -> bool {
        self.handed@.contains(m.0) || self.bad_captures@.contains(m) || self.tt_is(m.0)
    }

    /// A quiet move is handed out, put aside, or one of the moves tried before the quiet moves.
    spec fn covered_quiet(&self, m: Move) -> bool {
        ||| self.handed@.contains(m.0)
        ||| self.bad_quiets@.contains(m)
        ||| self.tt_is(m.0)
        ||| self.is_snap_killer(m.0)
        ||| (self.counter_move matches Some(c) && c.0 == m.0)
    }

    spec fn all_tac_covered(&self) -> bool {
        forall|i: int|
            0 <= i < self.generated@.len() && is_tactical(self.generated@[i]) ==> self.covered_tac(
                #[trigger] self.generated@[i],
            )
    }

    spec fn all_quiet_covered(&self) -> bool {
        forall|i: int|
            0 <= i < self.generated@.len() && !is_tactical(self.generated@[i]) ==> self.covered_quiet(
                #[trigger] self.generated@[i],
            )
    }

    spec fn before_quiets(&self) -> bool {
        &&& self.all_tac_covered()
        &&& self.ply < MAX_PLY
        &&& self.killer_done(self.snap@.0)
        &&& self.killer_done(self.snap@.1)
    }

    /// What a complete run has handed out, or put aside to hand out later,
    /// at each stage.
    #[verifier::opaque]
    spec fn progress(&self) -> bool {
        self.consistent@ ==> {
            &&& !self.quiescence
            &&& after_generation(self.stage) ==> {
                &&& forall|m: Move| #[trigger] self.list.moves@.contains(m) <==> self.generated@.contains(m)
                &&& same_position(self.tt_pos@, self.pos@)
            }
            &&& !(self.stage == MovePickerStage::TTMove || self.stage == MovePickerStage::EvasionTT) ==> self.tt_done()
            &&& match self.stage {
                MovePickerStage::GoodCaptures => forall|i: int|
                    0 <= i < self.cur && is_tactical(self.list.moves@[i]) ==> self.covered_tac(
                        #[trigger] self.list.moves@[i],
                    ),
                MovePickerStage::Killers => {
                    &&& self.all_tac_covered()
                    &&& self.ply < MAX_PLY
                    &&& self.cur >= 1 ==> self.killer_done(self.snap@.0)
                    &&& self.cur >= 2 ==> self.killer_done(self.snap@.1)
                },
                MovePickerStage::CounterMove => self.before_quiets(),
                MovePickerStage::QuietsInit => self.before_quiets() && self.counter_done(),
                MovePickerStage::Quiets => {
                    &&& self.before_quiets()
                    &&& self.counter_done()
                    &&& forall|i: int|
                        0 <= i < self.cur && !is_tactical(self.list.moves@[i]) ==> self.covered_quiet(
                            #[trigger] self.list.moves@[i],
                        )
                },
                MovePickerStage::BadCaptures => {
                    &&& self.before_quiets()
                    &&& self.counter_done()
                    &&& self.all_quiet_covered()
                    &&& forall|i: int| 0 <= i < self.cur ==> self.handed@.contains(#[trigger] self.bad_captures@[i].0)
                },
                MovePickerStage::BadQuiets => {
                    &&& self.before_quiets()
                    &&& self.counter_done()
                    &&& self.all_quiet_covered()
                    &&& forall|i: int|
                        0 <= i < self.bad_captures@.len() ==> self.handed@.contains(#[trigger] self.bad_captures@[i].0)
                    &&& forall|i: int| 0 <= i < self.cur ==> self.handed@.contains(#[trigger] self.bad_quiets@[i].0)
                },
                MovePickerStage::Evasions => forall|i: int|
                    0 <= i < self.cur ==> self.handed@.contains(#[trigger] self.list.moves@[i].0) || self.tt_is(
                        self.list.moves@[i].0,
                    ),
                MovePickerStage::AllDone => setup_ok(&self.pos@) ==> forall|i: int|
                    0 <= i < self.generated@.len() ==> self.handed@.contains(#[trigger] self.generated@[i].0),
                _ => true,
            }
        }
    }

    /// Internal consistency: list, scores and cursors agree, and every move
    /// held was generated for `position()` and is pseudo-legal there.
    pub closed spec fn wf(&self) -> bool {
        &&& self.progress()
        &&& after_generation(self.stage) ==> all_moves_listed(self.generated@, &self.pos@)
        &&& self.list.wf()
        &&& !after_generation(self.stage) ==> self.bad_captures@.len() == 0 && self.bad_quiets@.len() == 0
        &&& after_generation(self.stage) ==> {
            &&& self.scores@.len() == self.list.moves@.len()
            &&& forall|i: int| 0 <= i < self.list.moves@.len() ==> sound_on(self.pos@, #[trigger] self.list.moves@[i])
            &&& forall|i: int| 0 <= i < self.bad_captures@.len() ==> sound_on(self.pos@, #[trigger] self.bad_captures@[i])
            &&& forall|i: int| 0 <= i < self.bad_quiets@.len() ==> sound_on(self.pos@, #[trigger] self.bad_quiets@[i])
        }
        &&& (self.stage == MovePickerStage::GoodCaptures || self.stage == MovePickerStage::Quiets || self.stage
            == MovePickerStage::Evasions) ==> self.cur <= self.list.moves@.len()
        &&& self.stage == MovePickerStage::Killers ==> self.cur <= 2 && !self.quiescence
        &&& self.quiescence ==> !quiet_stage(self.stage)
        &&& self.stage == MovePickerStage::BadCaptures ==> self.cur <= self.bad_captures@.len()
        &&& self.stage == MovePickerStage::BadQuiets ==> self.cur <= self.bad_quiets@.len()
    }

    /// A picker for a position searched at `ply`; `quiescence` stops after
    /// the good captures, `in_check` hands out evasions instead.
    pub fn new(tt_move: Option<Move>, ply: usize, counter_move: Option<Move>, quiescence: bool, in_check: bool) -> (p:
        MovePicker)
        ensures
            p.wf(),
            p.stage() == (if in_check {
                MovePickerStage::EvasionTT
            } else {
                MovePickerStage::TTMove
            }),
            p.ply() == ply,
            p.quiescence() == quiescence,
            p.tt_move() == tt_move,
            p.counter_move() == counter_move,
            p.handed_out() == Set::<u16>::empty(),
            p.complete_run() == !quiescence,
            p.good_order(),
    {
        let stage = if in_check {
            MovePickerStage::EvasionTT
        } else {
            MovePickerStage::TTMove
        };
        let p = MovePicker {
            tt_move,
            counter_move,
            ply,
            stage,
            quiescence,
            list: MoveList::new(),
            scores: Vec::new(),
            cur: 0,
            bad_captures: Vec::new(),
            bad_quiets: Vec::new(),
            pos: Ghost(vstd::pervasive::arbitrary()),
            handed: Ghost(Set::empty()),
            generated: Ghost(Seq::empty()),
            consistent: Ghost(!quiescence),
            tt_pos: Ghost(vstd::pervasive::arbitrary()),
            snap: Ghost((0, 0)),
            scored_with: Ghost(vstd::pervasive::arbitrary()),
            last_good: Ghost(0),
        };
        proof {
            p.lemma_fresh();
        }
        p
    }

    /// Whether `m` is the hash move.
    fn is_tt_move(&self, m: Move) -> (r: bool)
        ensures
            r == (self.tt_move matches Some(t) && t.0 == m.0),
    {
        match self.tt_move {
            Some(t) => t.0 == m.0,
            None => false,
        }
    }

    fn is_killer_move(&self, heuristics: &Heuristics, m: Move) -> (r: bool)
        requires
            heuristics.wf(),
        ensures
            r == (self.ply < MAX_PLY && (heuristics.killers@[2 * self.ply as int].0 == m.0
                || heuristics.killers@[2 * self.ply + 1].0 == m.0)),
    {
        heuristics.is_killer(m, self.ply)
    }

    fn is_counter_move(&self, m: Move) -> (r: bool)
        ensures
            r == (self.counter_move matches Some(c) && c.0 == m.0),
    {
        match self.counter_move {
            Some(c) => c.0 == m.0,
            None => false,
        }
    }

    /// Moves the best-scored move not yet handed out to position `cur`,
    /// and hands it out.
    fn get_next_scored_move(&mut self) -> (r: Option<Move>)
        requires
            old(self).list.wf(),
            old(self).scores@.len() == old(self).list.moves@.len(),
            old(self).cur <= old(self).list.moves@.len(),
        ensures
            final(self).list.wf(),
            final(self).scores@.len() == final(self).list.moves@.len(),
            final(self).list.moves@.len() == old(self).list.moves@.len(),
            forall|m: Move| #[trigger] final(self).list.moves@.contains(m) ==> old(self).list.moves@.contains(m),
            forall|m: Move| #[trigger] old(self).list.moves@.contains(m) ==> final(self).list.moves@.contains(m),
            forall|i: int| 0 <= i < old(self).cur ==> #[trigger] final(self).list.moves@[i] == old(self).list.moves@[i],
            old(self).cur < old(self).list.moves@.len() ==> {
                &&& r == Some(final(self).list.moves@[old(self).cur as int])
                &&& final(self).cur == old(self).cur + 1
                &&& exists|b: int|
                    #![trigger old(self).scores@[b]]
                    old(self).cur <= b < old(self).list.moves@.len() && final(self).list.moves@ == old(
                        self,
                    ).list.moves@.update(old(self).cur as int, old(self).list.moves@[b]).update(
                        b,
                        old(self).list.moves@[old(self).cur as int],
                    ) && final(self).scores@ == old(self).scores@.update(
                        old(self).cur as int,
                        old(self).scores@[b],
                    ).update(b, old(self).scores@[old(self).cur as int]) && forall|j: int|
                        old(self).cur <= j < old(self).list.moves@.len() ==> #[trigger] old(self).scores@[j]
                            <= old(self).scores@[b]
            },
            old(self).cur >= old(self).list.moves@.len() ==> r is None && final(self).cur == old(self).cur
                && final(self).list == old(self).list,
            final(self).stage == old(self).stage,
            final(self).tt_move == old(self).tt_move,
            final(self).counter_move == old(self).counter_move,
            final(self).ply == old(self).ply,
            final(self).quiescence == old(self).quiescence,
            final(self).bad_captures@ == old(self).bad_captures@,
            final(self).bad_quiets@ == old(self).bad_quiets@,
            final(self).pos == old(self).pos,
            final(self).handed == old(self).handed,
            final(self).generated == old(self).generated,
            final(self).consistent == old(self).consistent,
            final(self).tt_pos == old(self).tt_pos,
            final(self).snap == old(self).snap,
            final(self).scored_with == old(self).scored_with,
            final(self).last_good == old(self).last_good,
    {
        if self.cur < self.list.count {
            let cur = self.cur;
            let mut best_idx = cur;
            let mut best_score = self.scores[cur];
            let mut i = cur + 1;
            while i < self.list.count
                invariant
                    self.list.wf(),
                    self.scores@.len() == self.list.moves@.len(),
                    cur < self.list.moves@.len(),
                    cur <= best_idx < self.list.moves@.len(),
                    cur < i <= self.list.moves@.len(),
                    best_score == self.scores@[best_idx as int],
                    forall|j: int| cur <= j < i ==> #[trigger] self.scores@[j] <= best_score,
                decreases self.list.moves@.len() - i,
            {
                if self.scores[i] > best_score {
                    best_score = self.scores[i];
                    best_idx = i;
                }
                i = i + 1;
            }
            let ghost moves0 = self.list.moves@;
            let ghost scores0 = self.scores@;
            let s_cur = self.scores[cur];
            self.scores.set(cur, best_score);
            self.scores.set(best_idx, s_cur);
            let m_cur = self.list.moves[cur];
            let m_best = self.list.moves[best_idx];
            self.list.moves.set(cur, m_best);
            self.list.moves.set(best_idx, m_cur);
            proof {
                assert(self.list.moves@ =~= moves0.update(cur as int, moves0[best_idx as int]).update(best_idx as int, moves0[cur as int]));
                assert forall|m: Move| #[trigger] self.list.moves@.contains(m) implies moves0.contains(m) by {
                    let k = choose|k: int| 0 <= k < self.list.moves@.len() && self.list.moves@[k] == m;
                    if k == cur {
                        assert(moves0[best_idx as int] == m);
                    } else if k == best_idx {
                        assert(moves0[cur as int] == m);
                    } else {
                        assert(moves0[k] == m);
                    }
                }
                assert forall|m: Move| #[trigger] moves0.contains(m) implies self.list.moves@.contains(m) by {
                    let k = choose|k: int| 0 <= k < moves0.len() && moves0[k] == m;
                    if k == cur {
                        assert(self.list.moves@[best_idx as int] == m);
                    } else if k == best_idx {
                        assert(self.list.moves@[cur as int] == m);
                    } else {
                        assert(self.list.moves@[k] == m);
                    }
                }
            }
            let m = self.list.moves[cur];
            self.cur = cur + 1;
            proof {
                assert(self.scores@ =~= scores0.update(cur as int, scores0[best_idx as int]).update(best_idx as int, scores0[cur as int]));
                assert(scores0[best_idx as int] == best_score);
            }
            Some(m)
        } else {
            None
        }
    }

    /// The capture score: victim value times ten less attacker value, plus
    /// a thirty-second of the capture history, above every quiet move.
    fn capture_score(heuristics: &Heuristics, board: &Board, m: Move) -> (v: i32)
        requires
            heuristics.wf(),
            board.pos_ok(),
        ensures
            v == capture_score_of(heuristics, board, m.0),
    {
        let to_sq = m.to_sq();
        let attacker_pt = match board.piece_on_sq[m.from_sq() as usize] {
            Some(p) => p.piece_type(),
            None => {
                return -20_000_000;
            },
        };
        let victim_pt = if m.is_en_passant() {
            PieceType::Pawn
        } else {
            match board.piece_on_sq[to_sq as usize] {
                Some(p) => p.piece_type(),
                None => PieceType::Pawn,
            }
        };
        let cap_hist = heuristics.get_capture_history(attacker_pt, Square::new(to_sq), victim_pt);
        proof {
            let i = crate::history::capture_index(attacker_pt.spec_index(), to_sq as int, victim_pt.spec_index());
            assert(0 <= i < 2304);
            assert(-16384 <= heuristics.capture_history@[i] <= 16384);
        }
        10_000_000 + piece_value_of(victim_pt) * 10 - piece_value_of(attacker_pt) + cap_hist / 32
    }

    fn score_captures(&mut self, heuristics: &Heuristics, board: &Board)
        requires
            heuristics.wf(),
            board.pos_ok(),
            old(self).list.wf(),
        ensures
            final(self).scores@.len() == old(self).list.moves@.len(),
            forall|k: int| 0 <= k < old(self).list.moves@.len() ==> #[trigger] final(self).scores@[k] == good_stage_score(
                heuristics,
                board,
                old(self).list.moves@[k],
            ),
            final(self).list == old(self).list,
            final(self).stage == old(self).stage,
            final(self).tt_move == old(self).tt_move,
            final(self).counter_move == old(self).counter_move,
            final(self).ply == old(self).ply,
            final(self).quiescence == old(self).quiescence,
            final(self).cur == old(self).cur,
            final(self).bad_captures@ == old(self).bad_captures@,
            final(self).bad_quiets@ == old(self).bad_quiets@,
            final(self).pos == old(self).pos,
            final(self).handed == old(self).handed,
            final(self).generated == old(self).generated,
            final(self).consistent == old(self).consistent,
            final(self).tt_pos == old(self).tt_pos,
            final(self).snap == old(self).snap,
            final(self).scored_with == old(self).scored_with,
            final(self).last_good == old(self).last_good,
    {
        let mut scores: Vec<i32> = Vec::new();
        let mut i: usize = 0;
        while i < self.list.count
            invariant
                heuristics.wf(),
                board.pos_ok(),
                self.list.wf(),
                i <= self.list.moves@.len(),
                scores@.len() == i,
                forall|k: int| 0 <= k < i ==> #[trigger] scores@[k] == good_stage_score(heuristics, board, self.list.moves@[k]),
            decreases self.list.moves@.len() - i,
        {
            let m = self.list.moves[i];
            if m.is_capture() || m.is_promotion() {
                scores.push(Self::capture_score(heuristics, board, m));
            } else {
                scores.push(-20_000_000);
            }
            i = i + 1;
        }
        self.scores = scores;
    }

    /// Whether a `pt` of `side` moving from `from` to `to` attacks the square `king`.
    fn gives_check(board: &Board, side: Color, pt: PieceType, from: u8, to: Square, king: Square) -> (r: bool)
        requires
            from < 64,
            to.0 < 64,
            king.0 < 64,
        ensures
            r == gives_check_spec(board, side, pt, from, to.0, king.0),
    {
        let occ_after = (board.occupancies().0 & !(1u64 << from)) | (1u64 << to.0);
        match pt {
            PieceType::Knight => has_square(knight_attacks(to).0, king.0),
            PieceType::Bishop => has_square(bishop_attacks(to, Bitboard::new(occ_after)).0, king.0),
            PieceType::Rook => has_square(rook_attacks(to, Bitboard::new(occ_after)).0, king.0),
            PieceType::Queen => has_square(queen_attacks(to, Bitboard::new(occ_after)).0, king.0),
            PieceType::Pawn => has_square(pawn_attacks(side, to).0, king.0),
            _ => false,
        }
    }

    fn score_quiets(&mut self, heuristics: &Heuristics, board: &Board)
        requires
            heuristics.wf(),
            board.pos_ok(),
            old(self).list.wf(),
        ensures
            final(self).scores@.len() == old(self).list.moves@.len(),
            final(self).list == old(self).list,
            final(self).stage == old(self).stage,
            final(self).tt_move == old(self).tt_move,
            final(self).counter_move == old(self).counter_move,
            final(self).ply == old(self).ply,
            final(self).quiescence == old(self).quiescence,
            final(self).cur == old(self).cur,
            final(self).bad_captures@ == old(self).bad_captures@,
            final(self).bad_quiets@ == old(self).bad_quiets@,
            final(self).pos == old(self).pos,
            final(self).handed == old(self).handed,
            final(self).generated == old(self).generated,
            final(self).consistent == old(self).consistent,
            final(self).tt_pos == old(self).tt_pos,
            final(self).snap == old(self).snap,
            final(self).scored_with == old(self).scored_with,
            final(self).last_good == old(self).last_good,
            forall|k: int|
                0 <= k < old(self).list.moves@.len() ==> #[trigger] final(self).scores@[k] == quiet_score_of(
                    heuristics,
                    board,
                    old(self).list.moves@[k].0,
                ),
    {
        let side = board.side_to_move;
        let opp_king_bb = board.piece_bb(PieceType::King).0 & board.color_occupancy(side.flip()).0;
        let king_at = Bitboard::new(opp_king_bb).lsb();
        let opp_king_sq = if king_at < 64 {
            Some(Square::new(king_at))
        } else {
            None
        };
        let mut scores: Vec<i32> = Vec::new();
        let mut i: usize = 0;
        while i < self.list.count
            invariant
                heuristics.wf(),
                board.pos_ok(),
                self.list.wf(),
                i <= self.list.moves@.len(),
                scores@.len() == i,
                side == board.side_to_move,
                opp_king_sq matches Some(k) ==> k.0 < 64 && k.0 == king_square(board.pieces, board.colors, side.spec_flip()),
                opp_king_sq is None ==> king_square(board.pieces, board.colors, side.spec_flip()) >= 64,
                forall|k: int| 0 <= k < i ==> #[trigger] scores@[k] == quiet_score_of(heuristics, board, self.list.moves@[k].0),
            decreases self.list.moves@.len() - i,
        {
            let m = self.list.moves[i];
            if !m.is_capture() && !m.is_promotion() {
                match board.piece_on_sq[m.from_sq() as usize] {
                    Some(p) => {
                        let attacker_pt = p.piece_type();
                        let to = Square::new(m.to_sq());
                        let mut h = heuristics.get_history(side, attacker_pt, to);
                        proof {
                            let k = color_piece_sq(side.spec_index(), attacker_pt.spec_index(), to.0 as int);
                            assert(0 <= k < 768);
                            assert(-16384 <= heuristics.history@[k] <= 16384);
                            assert(h == quiet_history(heuristics, board, m.0));
                        }
                        if let Some(king_sq) = opp_king_sq {
                            if Self::gives_check(board, side, attacker_pt, m.from_sq(), to, king_sq) {
                                h = h + 16384;
                            }
                        }
                        proof {
                            assert(h == quiet_score_of(heuristics, board, m.0));
                        }
                        scores.push(h);
                    },
                    None => {
                        scores.push(-20_000_000);
                    },
                }
            } else {
                scores.push(-20_000_000);
            }
            i = i + 1;
        }
        self.scores = scores;
    }

    fn score_evasions(&mut self, heuristics: &Heuristics, board: &Board)
        requires
            heuristics.wf(),
            board.pos_ok(),
            old(self).list.wf(),
        ensures
            final(self).scores@.len() == old(self).list.moves@.len(),
            final(self).list == old(self).list,
            final(self).stage == old(self).stage,
            final(self).tt_move == old(self).tt_move,
            final(self).counter_move == old(self).counter_move,
            final(self).ply == old(self).ply,
            final(self).quiescence == old(self).quiescence,
            final(self).cur == old(self).cur,
            final(self).bad_captures@ == old(self).bad_captures@,
            final(self).bad_quiets@ == old(self).bad_quiets@,
            final(self).pos == old(self).pos,
            final(self).handed == old(self).handed,
            final(self).generated == old(self).generated,
            final(self).consistent == old(self).consistent,
            final(self).tt_pos == old(self).tt_pos,
            final(self).snap == old(self).snap,
            final(self).scored_with == old(self).scored_with,
            final(self).last_good == old(self).last_good,
    {
        let side = board.side_to_move;
        let mut scores: Vec<i32> = Vec::new();
        let mut i: usize = 0;
        while i < self.list.count
            invariant
                heuristics.wf(),
                board.pos_ok(),
                self.list.wf(),
                i <= self.list.moves@.len(),
                scores@.len() == i,
            decreases self.list.moves@.len() - i,
        {
            let m = self.list.moves[i];
            if m.is_capture() {
                scores.push(Self::capture_score(heuristics, board, m));
            } else {
                let attacker_pt = match board.piece_on_sq[m.from_sq() as usize] {
                    Some(p) => p.piece_type(),
                    None => PieceType::Pawn,
                };
                scores.push(heuristics.get_history(side, attacker_pt, Square::new(m.to_sq())));
            }
            i = i + 1;
        }
        self.scores = scores;
    }

    /// The killer moves `next` may still read: a picker outside quiescence
    /// that has not passed the killer stage reads the killers of its ply.
    pub open spec fn reads_killers(&self) -> bool {
        !self.quiescence() && (self.stage() == MovePickerStage::TTMove || self.stage() == MovePickerStage::CapturesInit
            || self.stage() == MovePickerStage::GoodCaptures || self.stage() == MovePickerStage::Killers)
    }

    /// What `next` needs of the position and the statistics: a board fit
    /// for move generation, the position the moves were generated for, a
    /// hash move, countermove and killers that `Board::is_pseudo_legal` can
    /// examine, and a ply with killers when they are read.
    pub open spec fn ready(&self, heuristics: &Heuristics, board: &Board) -> bool {
        &&& self.wf()
        &&& self.good_order()
        &&& heuristics.wf()
        &&& gen_ready(board)
        &&& after_generation(self.stage()) ==> same_position(self.position(), *board)
        &&& self.tt_move() matches Some(m) ==> !board.pseudo_legal_reads_below_board(m.0)
        &&& self.counter_move() matches Some(m) ==> !board.pseudo_legal_reads_below_board(m.0)
        &&& self.reads_killers() ==> {
            &&& self.ply() < MAX_PLY
            &&& !board.pseudo_legal_reads_below_board(heuristics.killers@[2 * self.ply() as int].0)
            &&& !board.pseudo_legal_reads_below_board(heuristics.killers@[2 * self.ply() + 1].0)
        }
    }

    /// What `next` needs: `ready` while moves are left, and only the
    /// picker's own consistency once it is done, whatever the board.
    pub open spec fn ready_or_done(&self, heuristics: &Heuristics, board: &Board) -> bool {
        if self.stage() == MovePickerStage::AllDone {
            self.wf() && self.good_order()
        } else {
            self.ready(heuristics, board)
        }
    }

    /// The next move to try, or `None` when every move has been handed out.
    /// A move handed out is pseudo-legal here, provided castling rights and
    /// the en passant square agree with the pieces (see `setup_ok`).  When a
    /// complete run reports that it is done, every generated move has been
    /// handed out.  A picker that is done answers `None` for any board and
    /// statistics.
    #[verifier::rlimit(100)]
    #[verifier::spinoff_prover]
    pub fn next(&mut self, heuristics: &Heuristics, board: &Board) -> (r: Option<Move>)
        requires
            old(self).ready_or_done(heuristics, board),
        ensures
            final(self).ready_or_done(heuristics, board),
            r matches Some(m) ==> sound_on(*board, m),
            r is None <==> final(self).stage() == MovePickerStage::AllDone,
            final(self).ply() == old(self).ply(),
            final(self).quiescence() == old(self).quiescence(),
            final(self).tt_move() == old(self).tt_move(),
            final(self).counter_move() == old(self).counter_move(),
            r matches Some(m) ==> final(self).handed_out() == old(self).handed_out().insert(m.0),
            r is None ==> final(self).handed_out() == old(self).handed_out(),
            after_generation(final(self).stage()) ==> all_moves_listed(final(self).generated(), &final(self).position()),
            r is None && final(self).complete_run() && setup_ok(&final(self).position()) ==> forall|i: int|
                0 <= i < final(self).generated().len() ==> final(self).handed_out().contains(
                    #[trigger] final(self).generated()[i].0,
                ),
            final(self).complete_run() ==> old(self).complete_run(),
            old(self).stage() == MovePickerStage::AllDone ==> r is None,
            0 <= final(self).progress_rank(),
            r is Some ==> final(self).progress_rank() < old(self).progress_rank() || (final(self).progress_rank()
                == old(self).progress_rank() && 0 <= final(self).progress_count() < old(self).progress_count()),
            r matches Some(m) ==> final(self).stage() == MovePickerStage::GoodCaptures ==> {
                &&& is_tactical(m)
                &&& final(self).last_good_score() == capture_score_of(
                    &final(self).scoring_heuristics(),
                    &final(self).position(),
                    m.0,
                )
                &&& old(self).stage() == MovePickerStage::GoodCaptures ==> final(self).last_good_score()
                    <= old(self).last_good_score() && final(self).scoring_heuristics()
                    == old(self).scoring_heuristics()
            },
            (old(self).stage() == MovePickerStage::TTMove || old(self).stage() == MovePickerStage::EvasionTT) && (old(
                self,
            ).tt_move() matches Some(t) && board.spec_pseudo_legal(t.0)) ==> r == old(self).tt_move(),
            old(self).quiescence() && !evasion_stage(old(self).stage()) ==> (r matches Some(m) ==> (old(
                self,
            ).tt_move() == Some(m) || (is_tactical(m) && board.see_result(m.0, 0)))),
            old(self).complete_run() && ((old(self).stage() == MovePickerStage::CapturesInit || old(self).stage()
                == MovePickerStage::EvasionInit) ==> same_position(old(self).asked_position(), *board)) && (old(
                self,
            ).killers_seen() ==> killers_now(heuristics, old(self).ply()) == old(self).seen_killers())
                ==> final(self).complete_run(),
    {
        if self.stage == MovePickerStage::AllDone {
            proof {
                self.lemma_basic();
                self.lemma_done();
            }
            return None;
        }
        let ghost start = *old(self);
        proof {
            self.lemma_basic();
        }
        loop
            invariant
                self.ready(heuristics, board),
                self.ply == old(self).ply,
                self.quiescence == old(self).quiescence,
                self.tt_move == old(self).tt_move,
                self.counter_move == old(self).counter_move,
                self.handed@ == old(self).handed@,
                start == *old(self),
                self.consistent@ ==> start.consistent@,
                self.consistent@ ==> !self.quiescence,
                start.stage == MovePickerStage::AllDone ==> self.stage == MovePickerStage::AllDone,
                self.good_order(),
                stage_rank(self.stage) < stage_rank(start.stage) || (self.stage == start.stage && self.progress_count()
                    <= start.progress_count()),
                start.stage == MovePickerStage::GoodCaptures && self.stage == MovePickerStage::GoodCaptures ==> self.last_good@
                    <= start.last_good@ && self.scored_with == start.scored_with,
                !evasion_stage(start.stage) ==> !evasion_stage(self.stage),
                (start.stage == MovePickerStage::TTMove || start.stage == MovePickerStage::EvasionTT) && (
                start.tt_move matches Some(t) && board.spec_pseudo_legal(t.0)) ==> self.stage == start.stage,
                start.complete_run() && ((start.stage == MovePickerStage::CapturesInit || start.stage
                    == MovePickerStage::EvasionInit) ==> same_position(start.tt_pos@, *board)) && (start.killers_seen()
                    ==> killers_now(heuristics, start.ply) == start.snap@) ==> {
                    &&& self.consistent@
                    &&& self.killers_seen() ==> killers_now(heuristics, self.ply) == self.snap@
                    &&& (self.stage == MovePickerStage::CapturesInit || self.stage == MovePickerStage::EvasionInit)
                        ==> same_position(self.tt_pos@, *board)
                },
            decreases stage_rank(self.stage), (match self.stage {
                MovePickerStage::GoodCaptures | MovePickerStage::Quiets | MovePickerStage::Evasions => self.list.moves@.len() - self.cur,
                MovePickerStage::Killers => 2 - self.cur,
                _ => 0,
            }),
        {
            let ghost a = *self;
            proof {
                self.lemma_basic();
            }
            match self.stage {
                MovePickerStage::TTMove => {
                    self.tt_pos = Ghost(*board);
                    self.stage = MovePickerStage::CapturesInit;
                    if let Some(m) = self.tt_move {
                        if board.is_pseudo_legal(m) {
                            self.handed = Ghost(self.handed@.insert(m.0));
                            proof {
                                self.lemma_tt_tried();
                            }
                            return Some(m);
                        }
                    }
                    proof {
                        self.lemma_tt_tried();
                    }
                },
                MovePickerStage::CapturesInit => {
                    let ghost c = self.consistent@ && same_position(self.tt_pos@, *board);
                    self.consistent = Ghost(c);
                    self.list = MoveList::new();
                    generate_pseudo_legal_moves(board, &mut self.list);
                    self.pos = Ghost(*board);
                    self.generated = Ghost(self.list.moves@);
                    self.score_captures(heuristics, board);
                    self.scored_with = Ghost(*heuristics);
                    self.last_good = Ghost(i32::MAX as int);
                    self.stage = MovePickerStage::GoodCaptures;
                    self.cur = 0;
                    proof {
                        self.lemma_generated();
                    }
                },
                MovePickerStage::GoodCaptures => {
                    let ghost before = self.list.moves@;
                    match self.get_next_scored_move() {
                        Some(m) => {
                            proof {
                                self.lemma_list_sound(before);
                                self.lemma_good_next(&a);
                            }
                            if !m.is_capture() && !m.is_promotion() {
                                proof {
                                    self.lemma_walk_step(&a);
                                }
                                continue;
                            }
                            if self.is_tt_move(m) {
                                proof {
                                    self.lemma_walk_step(&a);
                                }
                                continue;
                            }
                            if board.see_ge(m, 0) {
                                proof {
                                    lemma_same_position_sound(self.pos@, *board, m);
                                }
                                self.handed = Ghost(self.handed@.insert(m.0));
                                self.last_good = Ghost(self.scores@[a.cur as int] as int);
                                proof {
                                    self.lemma_walk_step(&a);
                                }
                                return Some(m);
                            }
                            self.bad_captures.push(m);
                            proof {
                                assert(self.bad_captures@[self.bad_captures@.len() - 1] == m);
                                assert(self.bad_captures@.contains(m));
                                assert forall|x: Move| #[trigger] a.bad_captures@.contains(x) implies self.bad_captures@.contains(
                                    x,
                                ) by {
                                    let j = choose|j: int| 0 <= j < a.bad_captures@.len() && a.bad_captures@[j] == x;
                                    assert(self.bad_captures@[j] == x);
                                }
                                self.lemma_walk_step(&a);
                            }
                            continue;
                        },
                        None => {
                            proof {
                                self.lemma_list_sound(before);
                            }
                        },
                    }
                    if self.quiescence {
                        self.stage = MovePickerStage::AllDone;
                    } else {
                        self.stage = MovePickerStage::Killers;
                    }
                    self.cur = 0;
                    proof {
                        self.lemma_good_done(&a);
                    }
                },
                MovePickerStage::Killers => {
                    if self.cur < 2 {
                        let ghost c = self.consistent@ && (self.cur == 0 || killers_now(heuristics, self.ply)
                            == self.snap@);
                        self.consistent = Ghost(c);
                        let ghost k = if self.cur == 0 {
                            killers_now(heuristics, self.ply)
                        } else {
                            self.snap@
                        };
                        self.snap = Ghost(k);
                        let killer = heuristics.killers[2 * self.ply + self.cur];
                        self.cur = self.cur + 1;
                        if killer.0 != 0 && !self.is_tt_move(killer) && board.is_pseudo_legal(killer) && !killer.is_capture() {
                            self.handed = Ghost(self.handed@.insert(killer.0));
                            proof {
                                self.lemma_killer_step(&a, killer.0);
                            }
                            return Some(killer);
                        }
                        proof {
                            lemma_same_position_pseudo_legal(self.pos@, *board, killer.0);
                            self.lemma_killer_step(&a, killer.0);
                        }
                        continue;
                    }
                    self.stage = MovePickerStage::CounterMove;
                    proof {
                        self.lemma_killers_done(&a);
                    }
                },
                MovePickerStage::CounterMove => {
                    let ghost c = self.consistent@ && killers_now(heuristics, self.ply) == self.snap@;
                    self.consistent = Ghost(c);
                    self.stage = MovePickerStage::QuietsInit;
                    if let Some(cm) = self.counter_move {
                        if !self.is_tt_move(cm) && !self.is_killer_move(heuristics, cm) && board.is_pseudo_legal(cm)
                            && !cm.is_capture() {
                            self.handed = Ghost(self.handed@.insert(cm.0));
                            proof {
                                self.lemma_counter_tried(&a);
                            }
                            return Some(cm);
                        }
                        proof {
                            lemma_same_position_pseudo_legal(self.pos@, *board, cm.0);
                        }
                    }
                    proof {
                        self.lemma_counter_tried(&a);
                    }
                },
                MovePickerStage::QuietsInit => {
                    self.score_quiets(heuristics, board);
                    self.stage = MovePickerStage::Quiets;
                    self.cur = 0;
                    proof {
                        self.lemma_quiets_scored(&a);
                    }
                },
                MovePickerStage::Quiets => {
                    let ghost c = self.consistent@ && killers_now(heuristics, self.ply) == self.snap@;
                    self.consistent = Ghost(c);
                    let ghost before = self.list.moves@;
                    match self.get_next_scored_move() {
                        Some(m) => {
                            proof {
                                self.lemma_list_sound(before);
                            }
                            if m.is_capture() || m.is_promotion() {
                                proof {
                                    self.lemma_walk_step(&a);
                                }
                                continue;
                            }
                            if self.is_tt_move(m) || self.is_killer_move(heuristics, m) || self.is_counter_move(m) {
                                proof {
                                    self.lemma_walk_step(&a);
                                }
                                continue;
                            }
                            let score = self.scores[self.cur - 1];
                            if score > -14000 {
                                proof {
                                    lemma_same_position_sound(self.pos@, *board, m);
                                }
                                self.handed = Ghost(self.handed@.insert(m.0));
                                proof {
                                    self.lemma_walk_step(&a);
                                }
                                return Some(m);
                            }
                            self.bad_quiets.push(m);
                            proof {
                                assert(self.bad_quiets@[self.bad_quiets@.len() - 1] == m);
                                assert(self.bad_quiets@.contains(m));
                                assert forall|x: Move| #[trigger] a.bad_quiets@.contains(x) implies self.bad_quiets@.contains(
                                    x,
                                ) by {
                                    let j = choose|j: int| 0 <= j < a.bad_quiets@.len() && a.bad_quiets@[j] == x;
                                    assert(self.bad_quiets@[j] == x);
                                }
                                self.lemma_walk_step(&a);
                            }
                            continue;
                        },
                        None => {
                            proof {
                                self.lemma_list_sound(before);
                            }
                        },
                    }
                    self.stage = MovePickerStage::BadCaptures;
                    self.cur = 0;
                    proof {
                        self.lemma_quiets_done(&a);
                    }
                },
                MovePickerStage::BadCaptures => {
                    if self.cur < self.bad_captures.len() {
                        let m = self.bad_captures[self.cur];
                        self.cur = self.cur + 1;
                        proof {
                            lemma_same_position_sound(self.pos@, *board, m);
                        }
                        self.handed = Ghost(self.handed@.insert(m.0));
                        proof {
                            self.lemma_bad_step(&a);
                        }
                        return Some(m);
                    }
                    self.stage = MovePickerStage::BadQuiets;
                    self.cur = 0;
                    proof {
                        self.lemma_bad_captures_done(&a);
                    }
                },
                MovePickerStage::BadQuiets => {
                    if self.cur < self.bad_quiets.len() {
                        let m = self.bad_quiets[self.cur];
                        self.cur = self.cur + 1;
                        proof {
                            lemma_same_position_sound(self.pos@, *board, m);
                        }
                        self.handed = Ghost(self.handed@.insert(m.0));
                        proof {
                            self.lemma_bad_step(&a);
                        }
                        return Some(m);
                    }
                    self.stage = MovePickerStage::AllDone;
                    proof {
                        self.lemma_all_handed(&a);
                    }
                },
                MovePickerStage::EvasionTT => {
                    self.tt_pos = Ghost(*board);
                    self.stage = MovePickerStage::EvasionInit;
                    if let Some(m) = self.tt_move {
                        if board.is_pseudo_legal(m) {
                            self.handed = Ghost(self.handed@.insert(m.0));
                            proof {
                                self.lemma_tt_tried();
                            }
                            return Some(m);
                        }
                    }
                    proof {
                        self.lemma_tt_tried();
                    }
                },
                MovePickerStage::EvasionInit => {
                    let ghost c = self.consistent@ && same_position(self.tt_pos@, *board);
                    self.consistent = Ghost(c);
                    self.list = MoveList::new();
                    generate_pseudo_legal_moves(board, &mut self.list);
                    self.pos = Ghost(*board);
                    self.generated = Ghost(self.list.moves@);
                    self.score_evasions(heuristics, board);
                    self.stage = MovePickerStage::Evasions;
                    self.cur = 0;
                    proof {
                        self.lemma_generated();
                    }
                },
                MovePickerStage::Evasions => {
                    let ghost before = self.list.moves@;
                    match self.get_next_scored_move() {
                        Some(m) => {
                            proof {
                                self.lemma_list_sound(before);
                            }
                            if self.is_tt_move(m) {
                                proof {
                                    self.lemma_walk_step(&a);
                                }
                                continue;
                            }
                            proof {
                                lemma_same_position_sound(self.pos@, *board, m);
                            }
                            self.handed = Ghost(self.handed@.insert(m.0));
                            proof {
                                self.lemma_walk_step(&a);
                            }
                            return Some(m);
                        },
                        None => {
                            proof {
                                self.lemma_list_sound(before);
                            }
                        },
                    }
                    self.stage = MovePickerStage::AllDone;
                    proof {
                        self.lemma_evasions_done(&a);
                    }
                },
                MovePickerStage::AllDone => {
                    proof {
                        self.lemma_done();
                    }
                    return None;
                },
            }
        }
    }

    /// One step of the good captures: the move brought to `a.cur` scores at
    /// least as much as every move after it and no more than the last good
    /// capture handed out, and the scores still belong to their moves.
    proof fn lemma_good_next(&self, a: &Self)
        requires
            a.stage == MovePickerStage::GoodCaptures,
            a.good_order(),
            a.cur < a.list.moves@.len(),
            self.cur == a.cur + 1,
            self.stage == a.stage,
            self.scored_with == a.scored_with,
            self.pos == a.pos,
            self.list.moves@.len() == a.list.moves@.len(),
            exists|b: int|
                #![trigger a.scores@[b]]
                a.cur <= b < a.list.moves@.len() && self.list.moves@ == a.list.moves@.update(
                    a.cur as int,
                    a.list.moves@[b],
                ).update(b, a.list.moves@[a.cur as int]) && self.scores@ == a.scores@.update(
                    a.cur as int,
                    a.scores@[b],
                ).update(b, a.scores@[a.cur as int]) && forall|j: int|
                    a.cur <= j < a.list.moves@.len() ==> #[trigger] a.scores@[j] <= a.scores@[b],
        ensures
            self.scores@.len() == self.list.moves@.len(),
            self.scores@[a.cur as int] == good_stage_score(&self.scored_with@, &self.pos@, self.list.moves@[a.cur as int]),
            self.scores@[a.cur as int] <= a.last_good@,
            forall|i: int|
                self.cur <= i < self.list.moves@.len() ==> #[trigger] self.scores@[i] == good_stage_score(
                    &self.scored_with@,
                    &self.pos@,
                    self.list.moves@[i],
                ) && self.scores@[i] <= self.scores@[a.cur as int],
    {
        let b = choose|b: int|
            #![trigger a.scores@[b]]
            a.cur <= b < a.list.moves@.len() && self.list.moves@ == a.list.moves@.update(
                a.cur as int,
                a.list.moves@[b],
            ).update(b, a.list.moves@[a.cur as int]) && self.scores@ == a.scores@.update(
                a.cur as int,
                a.scores@[b],
            ).update(b, a.scores@[a.cur as int]) && forall|j: int|
                a.cur <= j < a.list.moves@.len() ==> #[trigger] a.scores@[j] <= a.scores@[b];
        assert(a.scores@[b] == good_stage_score(&a.scored_with@, &a.pos@, a.list.moves@[b]));
        assert(a.scores@[a.cur as int] == good_stage_score(&a.scored_with@, &a.pos@, a.list.moves@[a.cur as int]));
        assert forall|i: int| self.cur <= i < self.list.moves@.len() implies #[trigger] self.scores@[i] == good_stage_score(
            &self.scored_with@,
            &self.pos@,
            self.list.moves@[i],
        ) && self.scores@[i] <= self.scores@[a.cur as int] by {
            if i == b {
                assert(a.scores@[a.cur as int] <= a.scores@[b]);
            } else {
                assert(a.scores@[i] == good_stage_score(&a.scored_with@, &a.pos@, a.list.moves@[i]));
                assert(a.scores@[i] <= a.scores@[b]);
            }
        }
    }

    /// `self` only hands out or puts aside more than `a`, for the same
    /// position, hash move, countermove and killers.
    spec fn grows_from(&self, a: &Self) -> bool {
        &&& self.tt_move == a.tt_move
        &&& self.counter_move == a.counter_move
        &&& self.ply == a.ply
        &&& self.quiescence == a.quiescence
        &&& self.tt_pos == a.tt_pos
        &&& self.pos == a.pos
        &&& self.generated == a.generated
        &&& self.snap == a.snap
        &&& a.handed@.subset_of(self.handed@)
        &&& forall|m: Move| #[trigger] a.bad_captures@.contains(m) ==> self.bad_captures@.contains(m)
        &&& forall|m: Move| #[trigger] a.bad_quiets@.contains(m) ==> self.bad_quiets@.contains(m)
    }

    proof fn lemma_grows(&self, a: &Self)
        requires
            self.grows_from(a),
        ensures
            forall|m: Move| a.covered_tac(m) ==> #[trigger] self.covered_tac(m),
            forall|m: Move| a.covered_quiet(m) ==> #[trigger] self.covered_quiet(m),
            forall|k: u16| a.killer_done(k) ==> #[trigger] self.killer_done(k),
            a.counter_done() ==> self.counter_done(),
            a.tt_done() ==> self.tt_done(),
            a.all_tac_covered() ==> self.all_tac_covered(),
            a.all_quiet_covered() ==> self.all_quiet_covered(),
            a.before_quiets() ==> self.before_quiets(),
    {
        assert forall|m: Move| a.covered_tac(m) implies #[trigger] self.covered_tac(m) by {
            if a.bad_captures@.contains(m) {
                assert(self.bad_captures@.contains(m));
            }
        }
        assert forall|m: Move| a.covered_quiet(m) implies #[trigger] self.covered_quiet(m) by {
            if a.bad_quiets@.contains(m) {
                assert(self.bad_quiets@.contains(m));
            }
        }
        if a.all_tac_covered() {
            assert forall|i: int|
                0 <= i < self.generated@.len() && is_tactical(self.generated@[i]) implies self.covered_tac(
                #[trigger] self.generated@[i],
            ) by {
                assert(a.covered_tac(a.generated@[i]));
            }
        }
        if a.all_quiet_covered() {
            assert forall|i: int|
                0 <= i < self.generated@.len() && !is_tactical(self.generated@[i]) implies self.covered_quiet(
                #[trigger] self.generated@[i],
            ) by {
                assert(a.covered_quiet(a.generated@[i]));
            }
        }
    }

    /// What progress says of every stage.
    proof fn lemma_basic(&self)
        requires
            self.progress(),
        ensures
            self.consistent@ ==> !self.quiescence,
            self.consistent@ && after_generation(self.stage) ==> (forall|m: Move|
                #[trigger] self.list.moves@.contains(m) <==> self.generated@.contains(m)) && same_position(
                self.tt_pos@,
                self.pos@,
            ),
            self.consistent@ && !(self.stage == MovePickerStage::TTMove || self.stage == MovePickerStage::EvasionTT)
                ==> self.tt_done(),
    {
        reveal(MovePicker::progress);
    }

    /// A picker that has not yet tried the hash move.
    proof fn lemma_fresh(&self)
        requires
            self.stage == MovePickerStage::TTMove || self.stage == MovePickerStage::EvasionTT,
            self.consistent@ ==> !self.quiescence,
        ensures
            self.progress(),
    {
        reveal(MovePicker::progress);
    }

    /// A run that is not complete owes nothing.
    proof fn lemma_inconsistent(&self)
        requires
            !self.consistent@,
        ensures
            self.progress(),
    {
        reveal(MovePicker::progress);
    }

    /// After the hash move was tried.
    proof fn lemma_tt_tried(&self)
        requires
            self.stage == MovePickerStage::CapturesInit || self.stage == MovePickerStage::EvasionInit,
            self.consistent@ ==> !self.quiescence && self.tt_done(),
        ensures
            self.progress(),
    {
        reveal(MovePicker::progress);
    }

    /// Right after the moves were generated.
    proof fn lemma_generated(&self)
        requires
            self.stage == MovePickerStage::GoodCaptures || self.stage == MovePickerStage::Evasions,
            self.cur == 0,
            self.list.moves@ == self.generated@,
            self.consistent@ ==> !self.quiescence && self.tt_done() && same_position(self.tt_pos@, self.pos@),
        ensures
            self.progress(),
    {
        reveal(MovePicker::progress);
    }

    /// One more move of a list that `get_next_scored_move` walks.
    proof fn lemma_walk_step(&self, a: &Self)
        requires
            a.progress(),
            self.grows_from(a),
            self.consistent@ ==> a.consistent@,
            a.stage == MovePickerStage::GoodCaptures || a.stage == MovePickerStage::Quiets || a.stage
                == MovePickerStage::Evasions,
            self.stage == a.stage,
            a.cur < a.list.moves@.len(),
            self.cur == a.cur + 1,
            forall|i: int| 0 <= i < a.cur ==> #[trigger] self.list.moves@[i] == a.list.moves@[i],
            forall|m: Move| #[trigger] self.list.moves@.contains(m) <==> a.list.moves@.contains(m),
            self.consistent@ && self.stage == MovePickerStage::GoodCaptures && is_tactical(
                self.list.moves@[a.cur as int],
            ) ==> self.covered_tac(self.list.moves@[a.cur as int]),
            self.consistent@ && self.stage == MovePickerStage::Quiets && !is_tactical(
                self.list.moves@[a.cur as int],
            ) ==> self.covered_quiet(self.list.moves@[a.cur as int]),
            self.consistent@ && self.stage == MovePickerStage::Evasions ==> self.handed@.contains(
                self.list.moves@[a.cur as int].0,
            ) || self.tt_is(self.list.moves@[a.cur as int].0),
        ensures
            self.progress(),
    {
        reveal(MovePicker::progress);
        self.lemma_grows(a);
        if self.consistent@ {
            assert forall|m: Move| #[trigger] self.list.moves@.contains(m) <==> self.generated@.contains(m) by {
                if self.list.moves@.contains(m) {
                    assert(a.list.moves@.contains(m));
                }
                if a.list.moves@.contains(m) {
                    assert(self.list.moves@.contains(m));
                }
            }
            if self.stage == MovePickerStage::GoodCaptures {
                assert forall|i: int|
                    0 <= i < self.cur && is_tactical(self.list.moves@[i]) implies self.covered_tac(
                    #[trigger] self.list.moves@[i],
                ) by {
                    if i < a.cur {
                        assert(a.covered_tac(a.list.moves@[i]));
                    }
                }
            } else if self.stage == MovePickerStage::Quiets {
                assert forall|i: int|
                    0 <= i < self.cur && !is_tactical(self.list.moves@[i]) implies self.covered_quiet(
                    #[trigger] self.list.moves@[i],
                ) by {
                    if i < a.cur {
                        assert(a.covered_quiet(a.list.moves@[i]));
                    }
                }
            } else {
                assert forall|i: int| 0 <= i < self.cur implies self.handed@.contains(
                    #[trigger] self.list.moves@[i].0,
                ) || self.tt_is(self.list.moves@[i].0) by {
                    if i < a.cur {
                        assert(a.handed@.contains(a.list.moves@[i].0) || a.tt_is(a.list.moves@[i].0));
                    }
                }
            }
        }
    }

    /// Every element of `l` at an index below `n` satisfies `p`, and `l`
    /// has `n` elements: so does every element of `g` with the same moves.
    proof fn lemma_same_moves(l: Seq<Move>, g: Seq<Move>, p: spec_fn(Move) -> bool)
        requires
            forall|m: Move| #[trigger] l.contains(m) <==> g.contains(m),
            forall|i: int| 0 <= i < l.len() ==> #[trigger] p(l[i]),
        ensures
            forall|i: int| 0 <= i < g.len() ==> #[trigger] p(g[i]),
    {
        assert forall|i: int| 0 <= i < g.len() implies #[trigger] p(g[i]) by {
            assert(g.contains(g[i]));
            assert(l.contains(g[i]));
            let j = choose|j: int| 0 <= j < l.len() && l[j] == g[i];
            assert(p(l[j]));
        }
    }

    /// The good captures are done.
    proof fn lemma_good_done(&self, a: &Self)
        requires
            a.progress(),
            a.stage == MovePickerStage::GoodCaptures,
            a.cur >= a.list.moves@.len(),
            self.grows_from(a),
            self.consistent == a.consistent,
            self.list == a.list,
            self.stage == (if a.quiescence {
                MovePickerStage::AllDone
            } else {
                MovePickerStage::Killers
            }),
            self.cur == 0,
            !a.quiescence ==> self.ply < MAX_PLY,
        ensures
            self.progress(),
    {
        reveal(MovePicker::progress);
        self.lemma_grows(a);
        if self.consistent@ {
            let p = |m: Move| is_tactical(m) ==> a.covered_tac(m);
            assert forall|i: int| 0 <= i < a.list.moves@.len() implies #[trigger] p(a.list.moves@[i]) by {
            }
            Self::lemma_same_moves(a.list.moves@, a.generated@, p);
            assert forall|i: int|
                0 <= i < self.generated@.len() && is_tactical(self.generated@[i]) implies self.covered_tac(
                #[trigger] self.generated@[i],
            ) by {
                assert(p(a.generated@[i]));
            }
        }
    }

    /// One killer read.
    proof fn lemma_killer_step(&self, a: &Self, k: u16)
        requires
            a.progress(),
            a.stage == MovePickerStage::Killers,
            self.stage == MovePickerStage::Killers,
            a.cur < 2,
            self.cur == a.cur + 1,
            self.tt_move == a.tt_move,
            self.counter_move == a.counter_move,
            self.ply == a.ply,
            self.quiescence == a.quiescence,
            self.tt_pos == a.tt_pos,
            self.pos == a.pos,
            self.generated == a.generated,
            self.list == a.list,
            self.bad_captures == a.bad_captures,
            self.bad_quiets == a.bad_quiets,
            a.handed@.subset_of(self.handed@),
            self.consistent@ ==> a.consistent@,
            a.cur == 1 ==> self.snap == a.snap,
            self.consistent@ ==> k == (if a.cur == 0 {
                self.snap@.0
            } else {
                self.snap@.1
            }),
            self.consistent@ ==> self.killer_done(k),
        ensures
            self.progress(),
    {
        reveal(MovePicker::progress);
        if self.consistent@ {
            assert forall|m: Move| a.covered_tac(m) implies #[trigger] self.covered_tac(m) by {
            }
            assert forall|i: int|
                0 <= i < self.generated@.len() && is_tactical(self.generated@[i]) implies self.covered_tac(
                #[trigger] self.generated@[i],
            ) by {
                assert(a.covered_tac(a.generated@[i]));
            }
        }
    }

    /// Both killers were read.
    proof fn lemma_killers_done(&self, a: &Self)
        requires
            a.progress(),
            a.stage == MovePickerStage::Killers,
            a.cur >= 2,
            self.stage == MovePickerStage::CounterMove,
            self.grows_from(a),
            self.consistent == a.consistent,
            self.list == a.list,
        ensures
            self.progress(),
    {
        reveal(MovePicker::progress);
        self.lemma_grows(a);
    }

    /// The countermove was tried.
    proof fn lemma_counter_tried(&self, a: &Self)
        requires
            a.progress(),
            a.stage == MovePickerStage::CounterMove,
            self.stage == MovePickerStage::QuietsInit,
            self.grows_from(a),
            self.consistent@ ==> a.consistent@,
            self.list == a.list,
            self.consistent@ ==> self.counter_done(),
        ensures
            self.progress(),
    {
        reveal(MovePicker::progress);
        self.lemma_grows(a);
    }

    /// The quiet moves were scored.
    proof fn lemma_quiets_scored(&self, a: &Self)
        requires
            a.progress(),
            a.stage == MovePickerStage::QuietsInit,
            self.stage == MovePickerStage::Quiets,
            self.cur == 0,
            self.grows_from(a),
            self.consistent == a.consistent,
            self.list == a.list,
        ensures
            self.progress(),
    {
        reveal(MovePicker::progress);
        self.lemma_grows(a);
    }

    /// The quiet moves are done.
    proof fn lemma_quiets_done(&self, a: &Self)
        requires
            a.progress(),
            a.stage == MovePickerStage::Quiets,
            a.cur >= a.list.moves@.len(),
            self.stage == MovePickerStage::BadCaptures,
            self.cur == 0,
            self.grows_from(a),
            self.consistent@ ==> a.consistent@,
            self.list == a.list,
        ensures
            self.progress(),
    {
        reveal(MovePicker::progress);
        self.lemma_grows(a);
        if self.consistent@ {
            let p = |m: Move| !is_tactical(m) ==> a.covered_quiet(m);
            assert forall|i: int| 0 <= i < a.list.moves@.len() implies #[trigger] p(a.list.moves@[i]) by {
            }
            Self::lemma_same_moves(a.list.moves@, a.generated@, p);
            assert forall|i: int|
                0 <= i < self.generated@.len() && !is_tactical(self.generated@[i]) implies self.covered_quiet(
                #[trigger] self.generated@[i],
            ) by {
                assert(p(a.generated@[i]));
            }
        }
    }

    /// One more move put aside handed out.
    proof fn lemma_bad_step(&self, a: &Self)
        requires
            a.progress(),
            a.stage == MovePickerStage::BadCaptures || a.stage == MovePickerStage::BadQuiets,
            self.stage == a.stage,
            self.grows_from(a),
            self.consistent == a.consistent,
            self.list == a.list,
            self.bad_captures == a.bad_captures,
            self.bad_quiets == a.bad_quiets,
            self.cur == a.cur + 1,
            a.stage == MovePickerStage::BadCaptures ==> a.cur < self.bad_captures@.len() && self.handed@.contains(
                self.bad_captures@[a.cur as int].0,
            ),
            a.stage == MovePickerStage::BadQuiets ==> a.cur < self.bad_quiets@.len() && self.handed@.contains(
                self.bad_quiets@[a.cur as int].0,
            ),
        ensures
            self.progress(),
    {
        reveal(MovePicker::progress);
        self.lemma_grows(a);
    }

    /// The captures put aside are done.
    proof fn lemma_bad_captures_done(&self, a: &Self)
        requires
            a.progress(),
            a.stage == MovePickerStage::BadCaptures,
            a.cur >= a.bad_captures@.len(),
            self.stage == MovePickerStage::BadQuiets,
            self.cur == 0,
            self.grows_from(a),
            self.consistent == a.consistent,
            self.list == a.list,
            self.bad_captures == a.bad_captures,
        ensures
            self.progress(),
    {
        reveal(MovePicker::progress);
        self.lemma_grows(a);
    }

    /// A move of the generated list is pseudo-legal where the position
    /// meets `setup_ok`; the null move never is.
    proof fn lemma_generated_sound(&self, m: Move)
        requires
            forall|i: int| 0 <= i < self.list.moves@.len() ==> sound_on(self.pos@, #[trigger] self.list.moves@[i]),
            forall|x: Move| #[trigger] self.list.moves@.contains(x) <==> self.generated@.contains(x),
            self.generated@.contains(m),
            setup_ok(&self.pos@),
        ensures
            self.pos@.spec_pseudo_legal(m.0),
            m.0 != 0,
    {
        assert(self.list.moves@.contains(m));
        let j = choose|j: int| 0 <= j < self.list.moves@.len() && self.list.moves@[j] == m;
        assert(sound_on(self.pos@, self.list.moves@[j]));
        if m.0 == 0 {
            assert((0u16 & 0x3Fu16) == 0u16 && ((0u16 >> 6u16) & 0x3Fu16) == 0u16) by (bit_vector);
        }
    }

    /// The hash move, handed out if it was pseudo-legal where it was tried.
    proof fn lemma_tt_handed(&self, m: Move)
        requires
            self.tt_done(),
            self.tt_is(m.0),
            same_position(self.tt_pos@, self.pos@),
            setup_ok(&self.pos@),
            self.pos@.spec_pseudo_legal(m.0),
        ensures
            self.handed@.contains(m.0),
    {
    }

    /// The moves put aside are done: every generated move was handed out.
    proof fn lemma_all_handed(&self, a: &Self)
        requires
            a.progress(),
            a.stage == MovePickerStage::BadQuiets,
            a.cur >= a.bad_quiets@.len(),
            self.stage == MovePickerStage::AllDone,
            self.grows_from(a),
            self.consistent == a.consistent,
            self.list == a.list,
            self.bad_captures == a.bad_captures,
            self.bad_quiets == a.bad_quiets,
            forall|i: int| 0 <= i < self.list.moves@.len() ==> sound_on(self.pos@, #[trigger] self.list.moves@[i]),
        ensures
            self.progress(),
    {
        reveal(MovePicker::progress);
        self.lemma_grows(a);
        if self.consistent@ && setup_ok(&self.pos@) {
            assert forall|i: int| 0 <= i < self.generated@.len() implies self.handed@.contains(
                #[trigger] self.generated@[i].0,
            ) by {
                let m = self.generated@[i];
                assert(self.generated@.contains(m));
                self.lemma_generated_sound(m);
                if self.tt_is(m.0) {
                    self.lemma_tt_handed(m);
                } else if is_tactical(m) {
                    assert(self.covered_tac(m));
                    if self.bad_captures@.contains(m) {
                        let j = choose|j: int| 0 <= j < self.bad_captures@.len() && self.bad_captures@[j] == m;
                        assert(self.handed@.contains(self.bad_captures@[j].0));
                    }
                } else {
                    assert(self.covered_quiet(m));
                    if self.bad_quiets@.contains(m) {
                        let j = choose|j: int| 0 <= j < self.bad_quiets@.len() && self.bad_quiets@[j] == m;
                        assert(self.handed@.contains(self.bad_quiets@[j].0));
                    } else if self.is_snap_killer(m.0) {
                        assert(self.killer_done(self.snap@.0));
                        assert(self.killer_done(self.snap@.1));
                    } else if self.counter_move matches Some(c) && c.0 == m.0 {
                        assert(self.counter_done());
                    }
                }
            }
        }
    }

    /// The evasions are done: every generated move was handed out.
    proof fn lemma_evasions_done(&self, a: &Self)
        requires
            a.progress(),
            a.stage == MovePickerStage::Evasions,
            a.cur >= a.list.moves@.len(),
            self.stage == MovePickerStage::AllDone,
            self.grows_from(a),
            self.consistent == a.consistent,
            self.list == a.list,
            forall|i: int| 0 <= i < self.list.moves@.len() ==> sound_on(self.pos@, #[trigger] self.list.moves@[i]),
        ensures
            self.progress(),
    {
        reveal(MovePicker::progress);
        self.lemma_grows(a);
        if self.consistent@ && setup_ok(&self.pos@) {
            assert forall|i: int| 0 <= i < self.generated@.len() implies self.handed@.contains(
                #[trigger] self.generated@[i].0,
            ) by {
                let m = self.generated@[i];
                assert(self.generated@.contains(m));
                self.lemma_generated_sound(m);
                assert(self.list.moves@.contains(m));
                let j = choose|j: int| 0 <= j < self.list.moves@.len() && self.list.moves@[j] == m;
                assert(a.handed@.contains(a.list.moves@[j].0) || a.tt_is(a.list.moves@[j].0));
                if self.tt_is(m.0) {
                    self.lemma_tt_handed(m);
                }
            }
        }
    }

    /// What a finished picker has handed out.
    proof fn lemma_done(&self)
        requires
            self.progress(),
            self.stage == MovePickerStage::AllDone,
        ensures
            self.consistent@ && setup_ok(&self.pos@) ==> forall|i: int|
                0 <= i < self.generated@.len() ==> self.handed@.contains(#[trigger] self.generated@[i].0),
    {
        reveal(MovePicker::progress);
    }

    proof fn lemma_list_sound(&self, before: Seq<Move>)
        requires
            forall|i: int| 0 <= i < before.len() ==> sound_on(self.pos@, #[trigger] before[i]),
            forall|m: Move| #[trigger] self.list.moves@.contains(m) ==> before.contains(m),
        ensures
            forall|i: int| 0 <= i < self.list.moves@.len() ==> sound_on(self.pos@, #[trigger] self.list.moves@[i]),
    {
        assert forall|i: int| 0 <= i < self.list.moves@.len() implies sound_on(self.pos@, #[trigger] self.list.moves@[i]) by {
            let m = self.list.moves@[i];
            assert(self.list.moves@.contains(m));
            let j = choose|j: int| 0 <= j < before.len() && before[j] == m;
            assert(sound_on(self.pos@, before[j]));
        }
    }

    /// Leaves the quiet moves out: a picker about to score or hand out quiet
    /// moves goes on to the bad captures.
    pub fn skip_quiets(&mut self)
        requires
            old(self).wf(),
        ensures
            final(self).wf(),
            (old(self).stage() == MovePickerStage::QuietsInit || old(self).stage() == MovePickerStage::Quiets)
                ==> final(self).stage() == MovePickerStage::BadCaptures,
            !(old(self).stage() == MovePickerStage::QuietsInit || old(self).stage() == MovePickerStage::Quiets)
                ==> final(self).stage() == old(self).stage(),
            final(self).ply() == old(self).ply(),
            final(self).quiescence() == old(self).quiescence(),
            final(self).tt_move() == old(self).tt_move(),
            final(self).counter_move() == old(self).counter_move(),
            final(self).position() == old(self).position(),
            final(self).handed_out() == old(self).handed_out(),
            final(self).complete_run() ==> old(self).complete_run(),
            (old(self).stage() == MovePickerStage::QuietsInit || old(self).stage() == MovePickerStage::Quiets)
                ==> !final(self).complete_run(),
            old(self).good_order() ==> final(self).good_order(),
    {
        if self.stage == MovePickerStage::QuietsInit || self.stage == MovePickerStage::Quiets {
            self.consistent = Ghost(false);
            self.stage = MovePickerStage::BadCaptures;
            self.cur = 0;
            proof {
                self.lemma_inconsistent();
            }
        }
    }
}


/// Pseudo-legality and `setup_ok` read only what `same_position` compares.
proof fn lemma_same_position_pseudo_legal(a: Board, b: Board, m: u16)
    requires
        same_position(a, b),
    ensures
        a.spec_pseudo_legal(m) == b.spec_pseudo_legal(m),
        setup_ok(&a) == setup_ok(&b),
{
}

/// Pseudo-legality reads only what `same_position` compares.
proof fn lemma_same_position_sound(a: Board, b: Board, m: Move)
    requires
        same_position(a, b),
        sound_on(a, m),
    ensures
        sound_on(b, m),
{
}

} // verus!
