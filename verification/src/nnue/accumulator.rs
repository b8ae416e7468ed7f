use vstd::prelude::*;
use crate::nnue::feature::{HALFKA_FEATURES, TRANSFORMED_SIZE};
use crate::nnue::loader::{NetworkParams, PSQT_BUCKETS};

verus! {

/// `x` reduced to the range of `i16` the way two's complement wraps it.
pub open spec fn wrap16(x: int) -> int {
    (x + 32768) % 65536 - 32768
}

/// `x` reduced to the range of `i32` the way two's complement wraps it.
pub open spec fn wrap32(x: int) -> int {
    (x + 2147483648) % 4294967296 - 2147483648
}

proof fn lemma_wrap16_add(a: i16, b: i16)
    ensures
        vstd::wrapping::i16_specs::wrapping_add(a, b) as int == wrap16(a + b),
        vstd::wrapping::i16_specs::wrapping_sub(a, b) as int == wrap16(a - b),
{
}

proof fn lemma_wrap32_add(a: i32, b: i32)
    ensures
        vstd::wrapping::i32_specs::wrapping_add(a, b) as int == wrap32(a + b),
        vstd::wrapping::i32_specs::wrapping_sub(a, b) as int == wrap32(a - b),
{
}

pub proof fn lemma_wrap16_compose(x: int, w: int)
    ensures
        wrap16(wrap16(x) + w) == wrap16(x + w),
{
    vstd::arithmetic::div_mod::lemma_add_mod_noop_right(w, x + 32768, 65536);
}

pub proof fn lemma_wrap32_compose(x: int, w: int)
    ensures
        wrap32(wrap32(x) + w) == wrap32(x + w),
{
    vstd::arithmetic::div_mod::lemma_add_mod_noop_right(w, x + 2147483648, 4294967296);
}

/// Weight `i` of the row of feature `f`.
pub open spec fn ft_w(params: &NetworkParams, f: int, i: int) -> int {
    params.ft_weight[f * 768 + i] as int
}

/// PSQT weight of bucket `b` for feature `f`.
pub open spec fn psqt_w(params: &NetworkParams, f: int, b: int) -> int {
    params.psqt_weight[f * 8 + b] as int
}

/// Sum of column `i` of the feature rows listed in `feats`.
pub open spec fn ft_sum(params: &NetworkParams, feats: Seq<usize>, i: int) -> int
    decreases feats.len(),
{
    if feats.len() == 0 {
        0
    } else {
        ft_sum(params, feats.drop_last(), i) + ft_w(params, feats.last() as int, i)
    }
}

/// Sum of bucket `b` of the PSQT rows listed in `feats`.
pub open spec fn psqt_sum(params: &NetworkParams, feats: Seq<usize>, b: int) -> int
    decreases feats.len(),
{
    if feats.len() == 0 {
        0
    } else {
        psqt_sum(params, feats.drop_last(), b) + psqt_w(params, feats.last() as int, b)
    }
}

/// One perspective of the accumulator: the feature transformer output and
/// the PSQT sums.
pub struct SideAccumulator {
    pub values: Vec<i16>,
    pub psqt: [i32; 8],
}

impl SideAccumulator {
    pub open spec fn wf(&self) -> bool {
        self.values.len() == TRANSFORMED_SIZE
    }

    /// The side holds the biases plus the rows of `feats`, wrapped as the
    /// machine integers wrap.
    pub open spec fn holds(&self, params: &NetworkParams, feats: Seq<usize>) -> bool {
        &&& self.wf()
        &&& forall|i: int|
            0 <= i < 768 ==> #[trigger] self.values[i] as int == wrap16(
                params.ft_bias[i] + ft_sum(params, feats, i),
            )
        &&& forall|b: int| 0 <= b < 8 ==> #[trigger] self.psqt[b] as int == wrap32(psqt_sum(params, feats, b))
    }

    pub open spec fn same(&self, other: &SideAccumulator) -> bool {
        self.values@ == other.values@ && self.psqt@ == other.psqt@
    }

    /// Adding the row of `idx` to a side that holds `feats` makes it hold
    /// `feats` with `idx` appended.
    pub proof fn lemma_holds_push(&self, next: &SideAccumulator, params: &NetworkParams, feats: Seq<usize>, idx: usize)
        requires
            self.holds(params, feats),
            next.wf(),
            forall|i: int| 0 <= i < 768 ==> #[trigger] next.values[i] as int == wrap16(self.values[i] + ft_w(params, idx as int, i)),
            forall|b: int| 0 <= b < 8 ==> #[trigger] next.psqt[b] as int == wrap32(self.psqt[b] + psqt_w(params, idx as int, b)),
        ensures
            next.holds(params, feats.push(idx)),
    {
        assert(feats.push(idx).drop_last() =~= feats);
        assert forall|i: int| 0 <= i < 768 implies #[trigger] next.values[i] as int == wrap16(
                params.ft_bias[i] + ft_sum(params, feats.push(idx), i)) by {
            lemma_wrap16_compose(params.ft_bias[i] + ft_sum(params, feats, i), ft_w(params, idx as int, i));
        }
        assert forall|b: int| 0 <= b < 8 implies #[trigger] next.psqt[b] as int == wrap32(psqt_sum(params, feats.push(idx), b)) by {
            lemma_wrap32_compose(psqt_sum(params, feats, b), psqt_w(params, idx as int, b));
        }
    }

    pub fn new() -> (s: SideAccumulator)
        ensures
            s.wf(),
            forall|i: int| 0 <= i < 768 ==> s.values[i] == 0,
            forall|b: int| 0 <= b < 8 ==> s.psqt[b] == 0,
    {
        SideAccumulator { values: vec![0i16; TRANSFORMED_SIZE], psqt: [0i32; 8] }
    }

    pub fn copy(&self) -> (s: SideAccumulator)
        ensures
            s.same(self),
    {
        SideAccumulator { values: self.values.clone(), psqt: self.psqt }
    }

    /// Add (`sign` true) or subtract the row of `idx`.
    pub fn update(&mut self, idx: usize, params: &NetworkParams, sign: bool)
        requires
            old(self).wf(),
            params.wf(),
            idx < HALFKA_FEATURES,
        ensures
            final(self).wf(),
            forall|i: int|
                0 <= i < 768 ==> #[trigger] final(self).values[i] as int == wrap16(
                    old(self).values[i] + (if sign {
                        ft_w(params, idx as int, i)
                    } else {
                        -ft_w(params, idx as int, i)
                    }),
                ),
            forall|b: int|
                0 <= b < 8 ==> #[trigger] final(self).psqt[b] as int == wrap32(
                    old(self).psqt[b] + (if sign {
                        psqt_w(params, idx as int, b)
                    } else {
                        -psqt_w(params, idx as int, b)
                    }),
                ),
    {
        let offset = idx * TRANSFORMED_SIZE;
        let mut i: usize = 0;
        while i < TRANSFORMED_SIZE
            invariant
                self.wf(),
                params.wf(),
                idx < HALFKA_FEATURES,
                offset == idx * 768,
                i <= 768,
                forall|j: int|
                    0 <= j < i ==> #[trigger] self.values[j] as int == wrap16(
                        old(self).values[j] + (if sign {
                            ft_w(params, idx as int, j)
                        } else {
                            -ft_w(params, idx as int, j)
                        }),
                    ),
                forall|j: int| i <= j < 768 ==> #[trigger] self.values[j] == old(self).values[j],
                self.psqt == old(self).psqt,
            decreases 768 - i,
        {
            let w = params.ft_weight[offset + i] as i16;
            let v = self.values[i];
            let nv = if sign {
                v.wrapping_add(w)
            } else {
                v.wrapping_sub(w)
            };
            proof {
                lemma_wrap16_add(v, w);
            }
            self.values.set(i, nv);
            i += 1;
        }
        let psqt_offset = idx * PSQT_BUCKETS;
        let mut b: usize = 0;
        while b < PSQT_BUCKETS
            invariant
                self.wf(),
                params.wf(),
                idx < HALFKA_FEATURES,
                psqt_offset == idx * 8,
                b <= 8,
                forall|j: int|
                    0 <= j < 768 ==> #[trigger] self.values[j] as int == wrap16(
                        old(self).values[j] + (if sign {
                            ft_w(params, idx as int, j)
                        } else {
                            -ft_w(params, idx as int, j)
                        }),
                    ),
                forall|j: int|
                    0 <= j < b ==> #[trigger] self.psqt[j] as int == wrap32(
                        old(self).psqt[j] + (if sign {
                            psqt_w(params, idx as int, j)
                        } else {
                            -psqt_w(params, idx as int, j)
                        }),
                    ),
                forall|j: int| b <= j < 8 ==> #[trigger] self.psqt[j] == old(self).psqt[j],
            decreases 8 - b,
        {
            let w = params.psqt_weight[psqt_offset + b];
            let v = self.psqt[b];
            let nv = if sign {
                v.wrapping_add(w)
            } else {
                v.wrapping_sub(w)
            };
            proof {
                lemma_wrap32_add(v, w);
            }
            self.psqt[b] = nv;
            b += 1;
        }
    }
}

/// The accumulator of both perspectives.
pub struct Accumulator {
    pub white: SideAccumulator,
    pub black: SideAccumulator,
}

impl Accumulator {
    pub open spec fn wf(&self) -> bool {
        self.white.wf() && self.black.wf()
    }

    pub open spec fn same(&self, other: &Accumulator) -> bool {
        self.white.same(&other.white) && self.black.same(&other.black)
    }

    pub fn new() -> (a: Accumulator)
        ensures
            a.wf(),
            forall|i: int| 0 <= i < 768 ==> a.white.values[i] == 0 && a.black.values[i] == 0,
            forall|b: int| 0 <= b < 8 ==> a.white.psqt[b] == 0 && a.black.psqt[b] == 0,
    {
        Accumulator { white: SideAccumulator::new(), black: SideAccumulator::new() }
    }

    /// An independent copy.
    pub fn copy(&self) -> (a: Accumulator)
        ensures
            a.same(self),
    {
        Accumulator { white: self.white.copy(), black: self.black.copy() }
    }
}


impl Accumulator {
    /// Reset both perspectives to the biases, with empty PSQT sums.
    pub fn init_from_bias(&mut self, params: &NetworkParams)
        requires
            old(self).wf(),
            params.wf(),
        ensures
            final(self).white.holds(params, Seq::empty()),
            final(self).black.holds(params, Seq::empty()),
    {
        let mut i: usize = 0;
        while i < TRANSFORMED_SIZE
            invariant
                self.wf(),
                params.wf(),
                i <= 768,
                forall|j: int| 0 <= j < i ==> #[trigger] self.white.values[j] == params.ft_bias[j],
                forall|j: int| 0 <= j < i ==> #[trigger] self.black.values[j] == params.ft_bias[j],
            decreases 768 - i,
        {
            self.white.values.set(i, params.ft_bias[i]);
            self.black.values.set(i, params.ft_bias[i]);
            i += 1;
        }
        self.white.psqt = [0i32; 8];
        self.black.psqt = [0i32; 8];
    }

    /// Full refresh: biases plus the rows of all active features of each perspective.
    pub fn refresh(&mut self, white_features: &[usize], black_features: &[usize], params: &NetworkParams)
        requires
            old(self).wf(),
            params.wf(),
            forall|k: int| 0 <= k < white_features.len() ==> #[trigger] white_features[k] < HALFKA_FEATURES,
            forall|k: int| 0 <= k < black_features.len() ==> #[trigger] black_features[k] < HALFKA_FEATURES,
        ensures
            final(self).wf(),
            final(self).white.holds(params, white_features@),
            final(self).black.holds(params, black_features@),
    {
        self.init_from_bias(params);
        let mut k: usize = 0;
        while k < white_features.len()
            invariant
                params.wf(),
                k <= white_features.len(),
                forall|k2: int| 0 <= k2 < white_features.len() ==> #[trigger] white_features[k2] < HALFKA_FEATURES,
                self.white.holds(params, white_features@.subrange(0, k as int)),
                self.black.holds(params, Seq::empty()),
            decreases white_features.len() - k,
        {
            let fi = white_features[k];
            let ghost before = self.white;
            self.white.update(fi, params, true);
            proof {
                before.lemma_holds_push(&self.white, params, white_features@.subrange(0, k as int), fi);
                assert(white_features@.subrange(0, k as int).push(fi) =~= white_features@.subrange(0, k + 1));
            }
            k += 1;
        }
        proof {
            assert(white_features@.subrange(0, white_features.len() as int) =~= white_features@);
        }
        let mut k: usize = 0;
        while k < black_features.len()
            invariant
                params.wf(),
                k <= black_features.len(),
                forall|k2: int| 0 <= k2 < black_features.len() ==> #[trigger] black_features[k2] < HALFKA_FEATURES,
                self.white.holds(params, white_features@),
                self.black.holds(params, black_features@.subrange(0, k as int)),
            decreases black_features.len() - k,
        {
            let fi = black_features[k];
            let ghost before = self.black;
            self.black.update(fi, params, true);
            proof {
                before.lemma_holds_push(&self.black, params, black_features@.subrange(0, k as int), fi);
                assert(black_features@.subrange(0, k as int).push(fi) =~= black_features@.subrange(0, k + 1));
            }
            k += 1;
        }
        proof {
            assert(black_features@.subrange(0, black_features.len() as int) =~= black_features@);
        }
    }

    /// Add a feature: the white row `white_idx` and the black row `black_idx`.
    pub fn add_feature(&mut self, white_idx: usize, black_idx: usize, params: &NetworkParams)
        requires
            old(self).wf(),
            params.wf(),
            white_idx < HALFKA_FEATURES,
            black_idx < HALFKA_FEATURES,
        ensures
            final(self).wf(),
            forall|i: int| 0 <= i < 768 ==> #[trigger] final(self).white.values[i] as int == wrap16(
                old(self).white.values[i] + ft_w(params, white_idx as int, i)),
            forall|i: int| 0 <= i < 768 ==> #[trigger] final(self).black.values[i] as int == wrap16(
                old(self).black.values[i] + ft_w(params, black_idx as int, i)),
            forall|b: int| 0 <= b < 8 ==> #[trigger] final(self).white.psqt[b] as int == wrap32(
                old(self).white.psqt[b] + psqt_w(params, white_idx as int, b)),
            forall|b: int| 0 <= b < 8 ==> #[trigger] final(self).black.psqt[b] as int == wrap32(
                old(self).black.psqt[b] + psqt_w(params, black_idx as int, b)),
    {
        self.white.update(white_idx, params, true);
        self.black.update(black_idx, params, true);
    }

    /// Remove a feature from both perspectives.
    pub fn remove_feature(&mut self, white_idx: usize, black_idx: usize, params: &NetworkParams)
        requires
            old(self).wf(),
            params.wf(),
            white_idx < HALFKA_FEATURES,
            black_idx < HALFKA_FEATURES,
        ensures
            final(self).wf(),
            forall|i: int| 0 <= i < 768 ==> #[trigger] final(self).white.values[i] as int == wrap16(
                old(self).white.values[i] - ft_w(params, white_idx as int, i)),
            forall|i: int| 0 <= i < 768 ==> #[trigger] final(self).black.values[i] as int == wrap16(
                old(self).black.values[i] - ft_w(params, black_idx as int, i)),
            forall|b: int| 0 <= b < 8 ==> #[trigger] final(self).white.psqt[b] as int == wrap32(
                old(self).white.psqt[b] - psqt_w(params, white_idx as int, b)),
            forall|b: int| 0 <= b < 8 ==> #[trigger] final(self).black.psqt[b] as int == wrap32(
                old(self).black.psqt[b] - psqt_w(params, black_idx as int, b)),
    {
        self.white.update(white_idx, params, false);
        self.black.update(black_idx, params, false);
    }
}

impl Clone for SideAccumulator {
    fn clone(&self) -> (s: Self)
        ensures
            s.same(self),
    {
        self.copy()
    }
}

impl Clone for Accumulator {
    fn clone(&self) -> (a: Self)
        ensures
            a.same(self),
    {
        self.copy()
    }
}

/// A stack of saved accumulators.
pub struct AccumulatorStack {
    stack: Vec<Accumulator>,
}

impl AccumulatorStack {
    pub closed spec fn len(&self) -> nat {
        self.stack@.len()
    }

    /// The saved accumulator `i` positions from the bottom.
    pub closed spec fn at(&self, i: int) -> Accumulator {
        self.stack[i]
    }

    pub fn new() -> (s: AccumulatorStack)
        ensures
            s.len() == 0,
    {
        AccumulatorStack { stack: Vec::with_capacity(128) }
    }

    /// Save a copy of `acc` on top.
    pub fn push(&mut self, acc: &Accumulator)
        ensures
            final(self).len() == old(self).len() + 1,
            forall|i: int| 0 <= i < old(self).len() ==> final(self).at(i) == old(self).at(i),
            final(self).at(old(self).len() as int).same(acc),
    {
        self.stack.push(acc.copy());
    }

    /// Take off the top accumulator, if any.
    pub fn pop(&mut self) -> (r: Option<Accumulator>)
        ensures
            old(self).len() == 0 ==> r is None && final(self).len() == 0,
            old(self).len() > 0 ==> r == Some(old(self).at(old(self).len() - 1)) && final(self).len()
                == old(self).len() - 1,
            forall|i: int| 0 <= i < final(self).len() ==> final(self).at(i) == old(self).at(i),
    {
        self.stack.pop()
    }

    pub fn clear(&mut self)
        ensures
            final(self).len() == 0,
    {
        self.stack.clear();
    }
}

} // verus!
