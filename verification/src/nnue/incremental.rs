use vstd::prelude::*;
use crate::nnue::accumulator::{ft_w, lemma_wrap16_compose, lemma_wrap32_compose, psqt_w, wrap16, wrap32, Accumulator};
use crate::nnue::feature::{feature_index, spec_feature_index, HALFKA_FEATURES};
use crate::nnue::loader::NetworkParams;
use crate::types::{Color, PieceType, Square};

verus! {

/// One change to the active features: the feature's index in White's and
/// in Black's perspective.
#[derive(Copy, Clone, Debug, PartialEq, Eq, Structural)]
pub enum FeatureDelta {
    Add(usize, usize),
    Remove(usize, usize),
}

/// The indices of a delta, White's first.
pub open spec fn delta_indices(d: FeatureDelta) -> (usize, usize) {
    match d {
        FeatureDelta::Add(w, b) => (w, b),
        FeatureDelta::Remove(w, b) => (w, b),
    }
}

/// +1 for an addition, -1 for a removal.
pub open spec fn delta_sign(d: FeatureDelta) -> int {
    match d {
        FeatureDelta::Add(_, _) => 1,
        FeatureDelta::Remove(_, _) => -1,
    }
}

/// What the deltas add to column `i` of a perspective (`white` selects
/// White's indices).
pub open spec fn ft_delta(params: &NetworkParams, ds: Seq<FeatureDelta>, white: bool, i: int) -> int
    decreases ds.len(),
{
    if ds.len() == 0 {
        0
    } else {
        let d = ds.last();
        let f = if white { delta_indices(d).0 } else { delta_indices(d).1 };
        ft_delta(params, ds.drop_last(), white, i) + delta_sign(d) * ft_w(params, f as int, i)
    }
}

/// What the deltas add to PSQT bucket `b` of a perspective.
pub open spec fn psqt_delta(params: &NetworkParams, ds: Seq<FeatureDelta>, white: bool, b: int) -> int
    decreases ds.len(),
{
    if ds.len() == 0 {
        0
    } else {
        let d = ds.last();
        let f = if white { delta_indices(d).0 } else { delta_indices(d).1 };
        psqt_delta(params, ds.drop_last(), white, b) + delta_sign(d) * psqt_w(params, f as int, b)
    }
}

/// The accumulator `after` is `before` with the deltas applied, each value
/// wrapping as its machine integer does.
pub open spec fn deltas_applied(params: &NetworkParams, before: &Accumulator, after: &Accumulator, ds: Seq<FeatureDelta>) -> bool {
    &&& forall|i: int| 0 <= i < 768 ==> #[trigger] after.white.values[i] as int == wrap16(
        before.white.values[i] + ft_delta(params, ds, true, i),
    )
    &&& forall|i: int| 0 <= i < 768 ==> #[trigger] after.black.values[i] as int == wrap16(
        before.black.values[i] + ft_delta(params, ds, false, i),
    )
    &&& forall|b: int| 0 <= b < 8 ==> #[trigger] after.white.psqt[b] as int == wrap32(
        before.white.psqt[b] + psqt_delta(params, ds, true, b),
    )
    &&& forall|b: int| 0 <= b < 8 ==> #[trigger] after.black.psqt[b] as int == wrap32(
        before.black.psqt[b] + psqt_delta(params, ds, false, b),
    )
}

/// Applies the deltas to the accumulator in order.
pub fn apply_deltas(acc: &mut Accumulator, deltas: &[FeatureDelta], params: &NetworkParams)
    requires
        old(acc).wf(),
        params.wf(),
        forall|k: int| 0 <= k < deltas@.len() ==> #[trigger] delta_indices(deltas@[k]).0 < HALFKA_FEATURES
            && delta_indices(deltas@[k]).1 < HALFKA_FEATURES,
    ensures
        final(acc).wf(),
        deltas_applied(params, &*old(acc), &*final(acc), deltas@),
{
    let ghost start = *acc;
    let mut k: usize = 0;
    while k < deltas.len()
        invariant
            acc.wf(),
            params.wf(),
            k <= deltas@.len(),
            forall|j: int| 0 <= j < deltas@.len() ==> #[trigger] delta_indices(deltas@[j]).0 < HALFKA_FEATURES
                && delta_indices(deltas@[j]).1 < HALFKA_FEATURES,
            deltas_applied(params, &start, &*acc, deltas@.take(k as int)),
        decreases deltas@.len() - k,
    {
        let ghost prev = *acc;
        let d = deltas[k];
        proof {
            assert(deltas@.take(k + 1).drop_last() =~= deltas@.take(k as int));
            assert(deltas@.take(k + 1).last() == d);
            assert(delta_indices(deltas@[k as int]).0 < HALFKA_FEATURES);
        }
        match d {
            FeatureDelta::Add(w, b) => acc.add_feature(w, b, params),
            FeatureDelta::Remove(w, b) => acc.remove_feature(w, b, params),
        }
        proof {
            let ds = deltas@.take(k + 1);
            let sg = delta_sign(d);
            let (w, b) = delta_indices(d);
            assert forall|i: int| 0 <= i < 768 implies #[trigger] acc.white.values[i] as int == wrap16(
                start.white.values[i] + ft_delta(params, ds, true, i)) by {
                lemma_wrap16_compose(start.white.values[i] + ft_delta(params, deltas@.take(k as int), true, i), sg * ft_w(params, w as int, i));
            }
            assert forall|i: int| 0 <= i < 768 implies #[trigger] acc.black.values[i] as int == wrap16(
                start.black.values[i] + ft_delta(params, ds, false, i)) by {
                lemma_wrap16_compose(start.black.values[i] + ft_delta(params, deltas@.take(k as int), false, i), sg * ft_w(params, b as int, i));
            }
            assert forall|j: int| 0 <= j < 8 implies #[trigger] acc.white.psqt[j] as int == wrap32(
                start.white.psqt[j] + psqt_delta(params, ds, true, j)) by {
                lemma_wrap32_compose(start.white.psqt[j] + psqt_delta(params, deltas@.take(k as int), true, j), sg * psqt_w(params, w as int, j));
            }
            assert forall|j: int| 0 <= j < 8 implies #[trigger] acc.black.psqt[j] as int == wrap32(
                start.black.psqt[j] + psqt_delta(params, ds, false, j)) by {
                lemma_wrap32_compose(start.black.psqt[j] + psqt_delta(params, deltas@.take(k as int), false, j), sg * psqt_w(params, b as int, j));
            }
        }
        k = k + 1;
    }
    proof {
        assert(deltas@.take(deltas@.len() as int) =~= deltas@);
    }
}

/// The two indices of a `pt` of `color` on `sq`, with the kings on `wk` and `bk`.
pub open spec fn indices(wk: Square, bk: Square, sq: Square, pt: PieceType, color: Color) -> (usize, usize) {
    (
        spec_feature_index(wk.0 as int, sq.0 as int, pt, color) as usize,
        spec_feature_index(bk.0 as int, sq.0 as int, pt, color) as usize,
    )
}

/// A quiet move of a `pt` of `color` from `from` to `to`: the piece leaves
/// `from` and appears on `to`.
pub fn quiet_move_deltas(wk: Square, bk: Square, from: Square, to: Square, pt: PieceType, color: Color) -> (r: [FeatureDelta; 2])
    requires
        wk.0 < 64,
        bk.0 < 64,
        from.0 < 64,
        to.0 < 64,
    ensures
        r[0] == FeatureDelta::Remove(indices(wk, bk, from, pt, color).0, indices(wk, bk, from, pt, color).1),
        r[1] == FeatureDelta::Add(indices(wk, bk, to, pt, color).0, indices(wk, bk, to, pt, color).1),
{
    let rm_w = feature_index(wk, from, pt, color);
    let rm_b = feature_index(bk, from, pt, color);
    let add_w = feature_index(wk, to, pt, color);
    let add_b = feature_index(bk, to, pt, color);
    [FeatureDelta::Remove(rm_w, rm_b), FeatureDelta::Add(add_w, add_b)]
}

/// A capture: the mover leaves `from`, the victim leaves `to`, the mover
/// appears on `to`.
pub fn capture_deltas(
    wk: Square,
    bk: Square,
    from: Square,
    to: Square,
    pt: PieceType,
    color: Color,
    victim_pt: PieceType,
    victim_color: Color,
) -> (r: [FeatureDelta; 3])
    requires
        wk.0 < 64,
        bk.0 < 64,
        from.0 < 64,
        to.0 < 64,
    ensures
        r[0] == FeatureDelta::Remove(indices(wk, bk, from, pt, color).0, indices(wk, bk, from, pt, color).1),
        r[1] == FeatureDelta::Remove(indices(wk, bk, to, victim_pt, victim_color).0, indices(wk, bk, to, victim_pt, victim_color).1),
        r[2] == FeatureDelta::Add(indices(wk, bk, to, pt, color).0, indices(wk, bk, to, pt, color).1),
{
    let rm_self_w = feature_index(wk, from, pt, color);
    let rm_self_b = feature_index(bk, from, pt, color);
    let rm_victim_w = feature_index(wk, to, victim_pt, victim_color);
    let rm_victim_b = feature_index(bk, to, victim_pt, victim_color);
    let add_w = feature_index(wk, to, pt, color);
    let add_b = feature_index(bk, to, pt, color);
    [
        FeatureDelta::Remove(rm_self_w, rm_self_b),
        FeatureDelta::Remove(rm_victim_w, rm_victim_b),
        FeatureDelta::Add(add_w, add_b),
    ]
}

/// An en passant capture: the pawn leaves `from`, the enemy pawn leaves
/// `ep_cap_sq`, the pawn appears on `to`.
pub fn ep_capture_deltas(wk: Square, bk: Square, from: Square, to: Square, color: Color, ep_cap_sq: Square) -> (r: [FeatureDelta; 3])
    requires
        wk.0 < 64,
        bk.0 < 64,
        from.0 < 64,
        to.0 < 64,
        ep_cap_sq.0 < 64,
    ensures
        r[0] == FeatureDelta::Remove(indices(wk, bk, from, PieceType::Pawn, color).0, indices(wk, bk, from, PieceType::Pawn, color).1),
        r[1] == FeatureDelta::Remove(
            indices(wk, bk, ep_cap_sq, PieceType::Pawn, color.spec_flip()).0,
            indices(wk, bk, ep_cap_sq, PieceType::Pawn, color.spec_flip()).1,
        ),
        r[2] == FeatureDelta::Add(indices(wk, bk, to, PieceType::Pawn, color).0, indices(wk, bk, to, PieceType::Pawn, color).1),
{
    let rm_self_w = feature_index(wk, from, PieceType::Pawn, color);
    let rm_self_b = feature_index(bk, from, PieceType::Pawn, color);
    let rm_ep_w = feature_index(wk, ep_cap_sq, PieceType::Pawn, color.flip());
    let rm_ep_b = feature_index(bk, ep_cap_sq, PieceType::Pawn, color.flip());
    let add_w = feature_index(wk, to, PieceType::Pawn, color);
    let add_b = feature_index(bk, to, PieceType::Pawn, color);
    [
        FeatureDelta::Remove(rm_self_w, rm_self_b),
        FeatureDelta::Remove(rm_ep_w, rm_ep_b),
        FeatureDelta::Add(add_w, add_b),
    ]
}

/// Castling: the rook leaves `rook_from` and appears on `rook_to` (the
/// king's move goes through a full refresh).
pub fn castling_deltas(
    wk: Square,
    bk: Square,
    _king_from: Square,
    _king_to: Square,
    rook_from: Square,
    rook_to: Square,
    color: Color,
) -> (r: [FeatureDelta; 2])
    requires
        wk.0 < 64,
        bk.0 < 64,
        rook_from.0 < 64,
        rook_to.0 < 64,
    ensures
        r[0] == FeatureDelta::Remove(indices(wk, bk, rook_from, PieceType::Rook, color).0, indices(wk, bk, rook_from, PieceType::Rook, color).1),
        r[1] == FeatureDelta::Add(indices(wk, bk, rook_to, PieceType::Rook, color).0, indices(wk, bk, rook_to, PieceType::Rook, color).1),
{
    let rm_w = feature_index(wk, rook_from, PieceType::Rook, color);
    let rm_b = feature_index(bk, rook_from, PieceType::Rook, color);
    let add_w = feature_index(wk, rook_to, PieceType::Rook, color);
    let add_b = feature_index(bk, rook_to, PieceType::Rook, color);
    [FeatureDelta::Remove(rm_w, rm_b), FeatureDelta::Add(add_w, add_b)]
}

/// A promotion on `to`: the pawn goes, the promoted piece comes.
pub fn promotion_deltas(wk: Square, bk: Square, to: Square, color: Color, promo_pt: PieceType) -> (r: [FeatureDelta; 2])
    requires
        wk.0 < 64,
        bk.0 < 64,
        to.0 < 64,
    ensures
        r[0] == FeatureDelta::Remove(indices(wk, bk, to, PieceType::Pawn, color).0, indices(wk, bk, to, PieceType::Pawn, color).1),
        r[1] == FeatureDelta::Add(indices(wk, bk, to, promo_pt, color).0, indices(wk, bk, to, promo_pt, color).1),
{
    let rm_w = feature_index(wk, to, PieceType::Pawn, color);
    let rm_b = feature_index(bk, to, PieceType::Pawn, color);
    let add_w = feature_index(wk, to, promo_pt, color);
    let add_b = feature_index(bk, to, promo_pt, color);
    [FeatureDelta::Remove(rm_w, rm_b), FeatureDelta::Add(add_w, add_b)]
}

} // verus!
