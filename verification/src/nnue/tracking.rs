use vstd::prelude::*;
use crate::board::{features_upto, position_features, square_feature};
use crate::nnue::accumulator::{
    ft_sum, ft_w, lemma_wrap16_compose, lemma_wrap32_compose, psqt_sum, psqt_w, wrap16, wrap32, SideAccumulator,
};
use crate::nnue::loader::NetworkParams;
use crate::types::{Color, Piece};

verus! {

/// Weight `i` of feature `f`: a feature-transformer column, or a PSQT
/// bucket when `psqt` is set.
pub open spec fn feat_weight(params: &NetworkParams, f: int, i: int, psqt: bool) -> int {
    if psqt {
        psqt_w(params, f, i)
    } else {
        ft_w(params, f, i)
    }
}

/// What the piece on square `s` adds to weight `i` of a perspective.
pub open spec fn square_part(
    params: &NetworkParams,
    pos: Seq<Option<Piece>>,
    persp: Color,
    ksq: int,
    s: int,
    i: int,
    psqt: bool,
) -> int {
    if pos[s] is Some {
        feat_weight(params, square_feature(pos, persp, ksq, s) as int, i, psqt)
    } else {
        0
    }
}

/// What the pieces on the squares below `n` add to weight `i`.
pub open spec fn squares_sum(
    params: &NetworkParams,
    pos: Seq<Option<Piece>>,
    persp: Color,
    ksq: int,
    n: nat,
    i: int,
    psqt: bool,
) -> int
    decreases n,
{
    if n == 0 {
        0
    } else {
        squares_sum(params, pos, persp, ksq, (n - 1) as nat, i, psqt) + square_part(
            params,
            pos,
            persp,
            ksq,
            n - 1,
            i,
            psqt,
        )
    }
}

/// The side holds the biases plus the rows of the pieces of `pos`, seen
/// from `persp` with its king on `ksq`.
#[verifier::opaque]
pub open spec fn side_tracks(
    side: SideAccumulator,
    params: &NetworkParams,
    pos: Seq<Option<Piece>>,
    persp: Color,
    ksq: int,
) -> bool {
    &&& side.wf()
    &&& forall|i: int|
        0 <= i < 768 ==> #[trigger] side.values[i] as int == wrap16(
            params.ft_bias[i] + squares_sum(params, pos, persp, ksq, 64, i, false),
        )
    &&& forall|b: int| 0 <= b < 8 ==> #[trigger] side.psqt[b] as int == wrap32(squares_sum(params, pos, persp, ksq, 64, b, true))
}

/// Summing the features of a position square by square.
proof fn lemma_features_sum(params: &NetworkParams, pos: Seq<Option<Piece>>, persp: Color, ksq: int, n: nat, i: int)
    ensures
        ft_sum(params, features_upto(pos, persp, ksq, n), i) == squares_sum(params, pos, persp, ksq, n, i, false),
        psqt_sum(params, features_upto(pos, persp, ksq, n), i) == squares_sum(params, pos, persp, ksq, n, i, true),
    decreases n,
{
    if n > 0 {
        lemma_features_sum(params, pos, persp, ksq, (n - 1) as nat, i);
        let prev = features_upto(pos, persp, ksq, (n - 1) as nat);
        if pos[n - 1] is Some {
            let x = square_feature(pos, persp, ksq, n - 1);
            assert(prev.push(x).drop_last() =~= prev);
        }
    }
}

/// Holding the features of a position is tracking its pieces.
pub proof fn lemma_holds_tracks(side: SideAccumulator, params: &NetworkParams, pos: Seq<Option<Piece>>, persp: Color, ksq: int)
    ensures
        side.holds(params, position_features(pos, persp, ksq)) == side_tracks(side, params, pos, persp, ksq),
{
    reveal(side_tracks);
    assert forall|i: int| #![all_triggers] true implies ft_sum(params, position_features(pos, persp, ksq), i)
        == squares_sum(params, pos, persp, ksq, 64, i, false) && psqt_sum(
        params,
        position_features(pos, persp, ksq),
        i,
    ) == squares_sum(params, pos, persp, ksq, 64, i, true) by {
        lemma_features_sum(params, pos, persp, ksq, 64, i);
    }
}

/// Putting `v` on square `t` changes the sum by the difference of what
/// that square adds.
pub proof fn lemma_squares_update(
    params: &NetworkParams,
    pos: Seq<Option<Piece>>,
    persp: Color,
    ksq: int,
    t: int,
    v: Option<Piece>,
    n: nat,
    i: int,
    psqt: bool,
)
    requires
        0 <= t < pos.len(),
        n <= pos.len(),
    ensures
        squares_sum(params, pos.update(t, v), persp, ksq, n, i, psqt) == squares_sum(params, pos, persp, ksq, n, i, psqt)
            + (if t < n {
            square_part(params, pos.update(t, v), persp, ksq, t, i, psqt) - square_part(params, pos, persp, ksq, t, i, psqt)
        } else {
            0
        }),
    decreases n,
{
    if n > 0 {
        lemma_squares_update(params, pos, persp, ksq, t, v, (n - 1) as nat, i, psqt);
        if n - 1 != t {
            assert(pos.update(t, v)[n - 1] == pos[n - 1]);
            assert(square_feature(pos.update(t, v), persp, ksq, n - 1) == square_feature(pos, persp, ksq, n - 1));
        }
    }
}

/// The side holds the biases plus the column sums `fs` and the PSQT sums `ps`.
pub open spec fn side_sums(side: SideAccumulator, params: &NetworkParams, fs: spec_fn(int) -> int, ps: spec_fn(int) -> int) -> bool {
    &&& side.wf()
    &&& forall|i: int| 0 <= i < 768 ==> #[trigger] side.values[i] as int == wrap16(params.ft_bias[i] + fs(i))
    &&& forall|b: int| 0 <= b < 8 ==> #[trigger] side.psqt[b] as int == wrap32(ps(b))
}

/// Adding (`add`) or removing the row of feature `f` adds or takes its
/// weights from the sums.
pub proof fn lemma_side_step(
    s0: SideAccumulator,
    s1: SideAccumulator,
    params: &NetworkParams,
    fs: spec_fn(int) -> int,
    ps: spec_fn(int) -> int,
    f: int,
    add: bool,
)
    requires
        side_sums(s0, params, fs, ps),
        s1.wf(),
        forall|i: int| 0 <= i < 768 ==> #[trigger] s1.values[i] as int == (if add {
            wrap16(s0.values[i] + ft_w(params, f, i))
        } else {
            wrap16(s0.values[i] - ft_w(params, f, i))
        }),
        forall|b: int| 0 <= b < 8 ==> #[trigger] s1.psqt[b] as int == (if add {
            wrap32(s0.psqt[b] + psqt_w(params, f, b))
        } else {
            wrap32(s0.psqt[b] - psqt_w(params, f, b))
        }),
    ensures
        side_sums(
            s1,
            params,
            (|i: int| fs(i) + (if add { ft_w(params, f, i) } else { -ft_w(params, f, i) })),
            (|b: int| ps(b) + (if add { psqt_w(params, f, b) } else { -psqt_w(params, f, b) })),
        ),
{
    assert forall|i: int| 0 <= i < 768 implies #[trigger] s1.values[i] as int == wrap16(
        params.ft_bias[i] + (fs(i) + (if add { ft_w(params, f, i) } else { -ft_w(params, f, i) })),
    ) by {
        let w = if add { ft_w(params, f, i) } else { -ft_w(params, f, i) };
        lemma_wrap16_compose(params.ft_bias[i] + fs(i), w);
    }
    assert forall|b: int| 0 <= b < 8 implies #[trigger] s1.psqt[b] as int == wrap32(
        ps(b) + (if add { psqt_w(params, f, b) } else { -psqt_w(params, f, b) }),
    ) by {
        let w = if add { psqt_w(params, f, b) } else { -psqt_w(params, f, b) };
        lemma_wrap32_compose(ps(b), w);
    }
}

/// A side that tracks `pos` holds its square sums.
pub proof fn lemma_tracks_sums(side: SideAccumulator, params: &NetworkParams, pos: Seq<Option<Piece>>, persp: Color, ksq: int)
    requires
        side_tracks(side, params, pos, persp, ksq),
    ensures
        side_sums(
            side,
            params,
            (|i: int| squares_sum(params, pos, persp, ksq, 64, i, false)),
            (|b: int| squares_sum(params, pos, persp, ksq, 64, b, true)),
        ),
{
    reveal(side_tracks);
}

/// `s1` is `s0` with the row of feature `f` added (`add`) or removed.
pub open spec fn side_step(s0: SideAccumulator, s1: SideAccumulator, params: &NetworkParams, f: int, add: bool) -> bool {
    &&& s1.wf()
    &&& forall|i: int| 0 <= i < 768 ==> #[trigger] s1.values[i] as int == (if add {
        wrap16(s0.values[i] + ft_w(params, f, i))
    } else {
        wrap16(s0.values[i] - ft_w(params, f, i))
    })
    &&& forall|b: int| 0 <= b < 8 ==> #[trigger] s1.psqt[b] as int == (if add {
        wrap32(s0.psqt[b] + psqt_w(params, f, b))
    } else {
        wrap32(s0.psqt[b] - psqt_w(params, f, b))
    })
}

/// Moving a piece from `from` to `to` (taking what stands there): removing
/// its old feature, adding its new one and removing the taken piece's
/// keeps the side tracking the position.
pub proof fn lemma_track_move(
    s0: SideAccumulator,
    s1: SideAccumulator,
    s2: SideAccumulator,
    s3: SideAccumulator,
    params: &NetworkParams,
    pos: Seq<Option<Piece>>,
    persp: Color,
    ksq: int,
    from: int,
    to: int,
    mp: Piece,
)
    requires
        side_tracks(s0, params, pos, persp, ksq),
        pos.len() == 64,
        0 <= from < 64,
        0 <= to < 64,
        from != to,
        pos[from] == Some(mp),
        side_step(s0, s1, params, square_feature(pos, persp, ksq, from) as int, false),
        side_step(
            s1,
            s2,
            params,
            square_feature(pos.update(from, None).update(to, Some(mp)), persp, ksq, to) as int,
            true,
        ),
        pos[to] is Some ==> side_step(s2, s3, params, square_feature(pos, persp, ksq, to) as int, false),
        pos[to] is None ==> s3 == s2,
    ensures
        side_tracks(s3, params, pos.update(from, None).update(to, Some(mp)), persp, ksq),
{
    let p1 = pos.update(from, None);
    let p2 = p1.update(to, Some(mp));
    let f_from = square_feature(pos, persp, ksq, from) as int;
    let f_to = square_feature(p2, persp, ksq, to) as int;
    let f_cap = square_feature(pos, persp, ksq, to) as int;
    let fs0 = |i: int| squares_sum(params, pos, persp, ksq, 64, i, false);
    let ps0 = |b: int| squares_sum(params, pos, persp, ksq, 64, b, true);
    lemma_tracks_sums(s0, params, pos, persp, ksq);
    lemma_side_step(s0, s1, params, fs0, ps0, f_from, false);
    let fs1 = |i: int| fs0(i) + -ft_w(params, f_from, i);
    let ps1 = |b: int| ps0(b) + -psqt_w(params, f_from, b);
    assert(side_sums(s1, params, fs1, ps1));
    lemma_side_step(s1, s2, params, fs1, ps1, f_to, true);
    let fs2 = |i: int| fs1(i) + ft_w(params, f_to, i);
    let ps2 = |b: int| ps1(b) + psqt_w(params, f_to, b);
    assert(side_sums(s2, params, fs2, ps2));
    let fs3 = |i: int| if pos[to] is Some { fs2(i) - ft_w(params, f_cap, i) } else { fs2(i) };
    let ps3 = |b: int| if pos[to] is Some { ps2(b) - psqt_w(params, f_cap, b) } else { ps2(b) };
    if pos[to] is Some {
        lemma_side_step(s2, s3, params, fs2, ps2, f_cap, false);
        assert(side_sums(s3, params, |i: int| fs2(i) + -ft_w(params, f_cap, i), |b: int| ps2(b) + -psqt_w(params, f_cap, b)));
    }
    assert(side_sums(s3, params, fs3, ps3));
    assert forall|i: int, psqt: bool| #![all_triggers] true implies squares_sum(params, p2, persp, ksq, 64, i, psqt)
        == squares_sum(params, pos, persp, ksq, 64, i, psqt) - square_part(params, pos, persp, ksq, from, i, psqt)
        + square_part(params, p2, persp, ksq, to, i, psqt) - square_part(params, pos, persp, ksq, to, i, psqt) by {
        lemma_squares_update(params, pos, persp, ksq, from, None, 64, i, psqt);
        lemma_squares_update(params, p1, persp, ksq, to, Some(mp), 64, i, psqt);
        assert(p1[to] == pos[to]);
        if pos[to] is Some {
            assert(square_feature(p1, persp, ksq, to) == square_feature(pos, persp, ksq, to));
        }
    }
    assert(p2[to] == Some(mp));
    reveal(side_tracks);
}

/// Putting the piece `v` on square `t` in place of `old_p`: removing the
/// old piece's feature and adding the new one's keeps the side tracking.
pub proof fn lemma_track_replace(
    s0: SideAccumulator,
    s1: SideAccumulator,
    s2: SideAccumulator,
    params: &NetworkParams,
    pos: Seq<Option<Piece>>,
    persp: Color,
    ksq: int,
    t: int,
    v: Option<Piece>,
)
    requires
        side_tracks(s0, params, pos, persp, ksq),
        pos.len() == 64,
        0 <= t < 64,
        pos[t] is Some,
        side_step(s0, s1, params, square_feature(pos, persp, ksq, t) as int, false),
        v is Some ==> side_step(s1, s2, params, square_feature(pos.update(t, v), persp, ksq, t) as int, true),
        v is None ==> s2 == s1,
    ensures
        side_tracks(s2, params, pos.update(t, v), persp, ksq),
{
    let p1 = pos.update(t, v);
    let f_old = square_feature(pos, persp, ksq, t) as int;
    let f_new = square_feature(p1, persp, ksq, t) as int;
    let fs0 = |i: int| squares_sum(params, pos, persp, ksq, 64, i, false);
    let ps0 = |b: int| squares_sum(params, pos, persp, ksq, 64, b, true);
    lemma_tracks_sums(s0, params, pos, persp, ksq);
    lemma_side_step(s0, s1, params, fs0, ps0, f_old, false);
    let fs1 = |i: int| fs0(i) + -ft_w(params, f_old, i);
    let ps1 = |b: int| ps0(b) + -psqt_w(params, f_old, b);
    assert(side_sums(s1, params, fs1, ps1));
    let fs2 = |i: int| if v is Some { fs1(i) + ft_w(params, f_new, i) } else { fs1(i) };
    let ps2 = |b: int| if v is Some { ps1(b) + psqt_w(params, f_new, b) } else { ps1(b) };
    if v is Some {
        lemma_side_step(s1, s2, params, fs1, ps1, f_new, true);
        assert(side_sums(s2, params, |i: int| fs1(i) + ft_w(params, f_new, i), |b: int| ps1(b) + psqt_w(params, f_new, b)));
    }
    assert(side_sums(s2, params, fs2, ps2));
    assert forall|i: int, psqt: bool| #![all_triggers] true implies squares_sum(params, p1, persp, ksq, 64, i, psqt)
        == squares_sum(params, pos, persp, ksq, 64, i, psqt) - square_part(params, pos, persp, ksq, t, i, psqt)
        + square_part(params, p1, persp, ksq, t, i, psqt) by {
        lemma_squares_update(params, pos, persp, ksq, t, v, 64, i, psqt);
    }
    reveal(side_tracks);
}

} // verus!
