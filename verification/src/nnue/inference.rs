use vstd::prelude::*;
use crate::history::trunc_div;
use crate::nnue::accumulator::{Accumulator, SideAccumulator};
use crate::nnue::loader::NetworkParams;
use crate::nnue::simd::{bytes_as_ints, clip127, dot, dot_row, lemma_shr6, row_fits};
use crate::types::Color;

verus! {

/// The square of `x` clipped to 0..=127, divided by 128.
pub open spec fn sqr_clip(x: int) -> int {
    clip127(x) * clip127(x) / 128
}

/// The input of the first layer: the side to move's values clipped, the
/// other side's clipped, then both squared.
pub open spec fn l1_input(stm: Seq<i16>, nstm: Seq<i16>) -> Seq<u8> {
    Seq::new(
        3072,
        |k: int|
            (if k < 768 {
                clip127(stm[k] as int)
            } else if k < 1536 {
                clip127(nstm[k - 768] as int)
            } else if k < 2304 {
                sqr_clip(stm[k - 1536] as int)
            } else {
                sqr_clip(nstm[k - 2304] as int)
            }) as u8,
    )
}

/// Output `j` of the first layer.
pub open spec fn l1_out(params: &NetworkParams, input: Seq<u8>, j: int) -> int {
    params.l1_bias[j] + dot(bytes_as_ints(input), params.l1_weight[j]@, 3072)
}

/// An activation: a layer output divided by 64 rounding down, clipped to 0..=127.
pub open spec fn act(x: int) -> int {
    clip127(x / 64)
}

/// The input of the second layer: the first layer's activations, then their squares.
pub open spec fn l2_input(params: &NetworkParams, input: Seq<u8>) -> Seq<u8> {
    Seq::new(
        32,
        |k: int|
            (if k < 16 {
                act(l1_out(params, input, k))
            } else {
                act(l1_out(params, input, k - 16)) * act(l1_out(params, input, k - 16)) / 128
            }) as u8,
    )
}

/// Output `j` of the second layer.
pub open spec fn l2_out(params: &NetworkParams, input2: Seq<u8>, j: int) -> int {
    params.l2_bias[j] + dot(bytes_as_ints(input2), params.l2_weight[j]@, 32)
}

/// The second layer's activations.
pub open spec fn l2_acts(params: &NetworkParams, input2: Seq<u8>) -> Seq<int> {
    Seq::new(32, |k: int| act(l2_out(params, input2, k)))
}

/// The PSQT bucket for a piece count: one per four pieces, at most the eighth.
pub open spec fn spec_psqt_bucket(piece_count: u32) -> int {
    let b = if piece_count == 0 { 0 } else { (piece_count - 1) / 4 };
    if b < 7 { b } else { 7 }
}

/// The sums of both layers stay within `i32`.
pub open spec fn layers_fit(params: &NetworkParams, stm: Seq<i16>, nstm: Seq<i16>) -> bool {
    let input = l1_input(stm, nstm);
    &&& forall|j: int, k: int|
        0 <= j < 16 && 0 <= k <= 3072 ==> i32::MIN <= params.l1_bias[j] + #[trigger] dot(bytes_as_ints(input), params.l1_weight[j]@, k)
            <= i32::MAX
    &&& forall|j: int, k: int|
        0 <= j < 32 && 0 <= k <= 32 ==> i32::MIN <= params.l2_bias[j] + #[trigger] dot(
            bytes_as_ints(l2_input(params, input)),
            params.l2_weight[j]@,
            k,
        ) <= i32::MAX
}

/// The evaluation in centipawns for the side to move: the output layer plus
/// half the PSQT difference of the bucket, over 128, within -4000..=4000.
pub open spec fn spec_evaluate(stm: &SideAccumulator, nstm: &SideAccumulator, params: &NetworkParams, piece_count: u32) -> int {
    let input = l1_input(stm.values@, nstm.values@);
    let out = params.out_bias + dot(l2_acts(params, l2_input(params, input)), params.out_weight@, 32);
    let b = spec_psqt_bucket(piece_count);
    let psqt = trunc_div(stm.psqt[b] - nstm.psqt[b], 2);
    let total = trunc_div(out + psqt, 128);
    if total < -4000 {
        -4000
    } else if total > 4000 {
        4000
    } else {
        total
    }
}

fn psqt_bucket(piece_count: u32) -> (b: usize)
    ensures
        b == spec_psqt_bucket(piece_count),
{
    let b = if piece_count == 0 { 0 } else { (piece_count - 1) / 4 };
    if b < 7 { b as usize } else { 7 }
}

fn clip(x: i32) -> (r: u8)
    ensures
        r == clip127(x as int),
{
    if x <= 0 {
        0
    } else if x >= 127 {
        127
    } else {
        x as u8
    }
}

/// The input bytes of the first layer.
fn first_layer_input(stm_acc: &SideAccumulator, nstm_acc: &SideAccumulator) -> (l1_in: Vec<u8>)
    requires
        stm_acc.wf(),
        nstm_acc.wf(),
    ensures
        l1_in@ == l1_input(stm_acc.values@, nstm_acc.values@),
{
    let ghost input = l1_input(stm_acc.values@, nstm_acc.values@);
    let mut l1_in: Vec<u8> = Vec::with_capacity(3072);
    let mut k: usize = 0;
    while k < 3072
        invariant
            k <= 3072,
            stm_acc.wf(),
            nstm_acc.wf(),
            input == l1_input(stm_acc.values@, nstm_acc.values@),
            l1_in@.len() == k,
            forall|t: int| 0 <= t < k ==> #[trigger] l1_in@[t] == input[t],
        decreases 3072 - k,
    {
        let x = if k < 768 {
            clip(stm_acc.values[k] as i32)
        } else if k < 1536 {
            clip(nstm_acc.values[k - 768] as i32)
        } else if k < 2304 {
            let c = clip(stm_acc.values[k - 1536] as i32) as u32;
            proof {
                assert(c * c <= 16129) by (nonlinear_arith)
                    requires
                        c <= 127,
                ;
            }
            (c * c / 128) as u8
        } else {
            let c = clip(nstm_acc.values[k - 2304] as i32) as u32;
            proof {
                assert(c * c <= 16129) by (nonlinear_arith)
                    requires
                        c <= 127,
                ;
            }
            (c * c / 128) as u8
        };
        proof {
            assert(0 <= clip127(stm_acc.values@[k - 1536] as int) * clip127(stm_acc.values@[k - 1536] as int) <= 127 * 127)
                by (nonlinear_arith)
                requires
                    0 <= clip127(stm_acc.values@[k - 1536] as int) <= 127,
            ;
        }
        l1_in.push(x);
        k = k + 1;
    }
    proof {
        assert(l1_in@ =~= input);
    }
    l1_in
}

/// The input bytes of the second layer, from those of the first.
fn second_layer_input(l1_in: &Vec<u8>, params: &NetworkParams, Ghost(input): Ghost<Seq<u8>>) -> (l2_in: Vec<u8>)
    requires
        params.wf(),
        l1_in@ == input,
        input.len() == 3072,
        forall|j: int, k: int|
            0 <= j < 16 && 0 <= k <= 3072 ==> i32::MIN <= params.l1_bias[j] + #[trigger] dot(bytes_as_ints(input), params.l1_weight[j]@, k)
                <= i32::MAX,
    ensures
        l2_in@ == l2_input(params, input),
{
    let mut l2_in: Vec<u8> = Vec::with_capacity(32);
    let mut acts: Vec<u8> = Vec::with_capacity(16);
    let mut j: usize = 0;
    while j < 16
        invariant
            j <= 16,
            params.wf(),
            l1_in@ == input,
            input.len() == 3072,
            forall|j: int, k: int|
                0 <= j < 16 && 0 <= k <= 3072 ==> i32::MIN <= params.l1_bias[j] + #[trigger] dot(bytes_as_ints(input), params.l1_weight[j]@, k)
                    <= i32::MAX,
            acts@.len() == j,
            forall|t: int| 0 <= t < j ==> #[trigger] acts@[t] as int == act(l1_out(params, input, t)),
        decreases 16 - j,
    {
        let sum = dot_row(l1_in.as_slice(), params.l1_weight[j].as_slice(), params.l1_bias[j], 3072);
        proof {
            lemma_shr6(sum);
        }
        acts.push(clip(sum >> 6));
        j = j + 1;
    }
    let mut t: usize = 0;
    while t < 32
        invariant
            t <= 32,
            acts@.len() == 16,
            l2_in@.len() == t,
            forall|u: int| 0 <= u < t ==> #[trigger] l2_in@[u] == l2_input(params, input)[u],
            forall|u: int| 0 <= u < 16 ==> #[trigger] acts@[u] as int == act(l1_out(params, input, u)),
        decreases 32 - t,
    {
        if t < 16 {
            l2_in.push(acts[t]);
        } else {
            let c = acts[t - 16] as u32;
            proof {
                assert(acts@[t - 16] as int == act(l1_out(params, input, t - 16)));
                assert(c <= 127);
                assert(c * c <= 16129) by (nonlinear_arith)
                    requires
                        c <= 127,
                ;
            }
            l2_in.push((c * c / 128) as u8);
        }
        t = t + 1;
    }
    proof {
        assert(l2_in@ =~= l2_input(params, input));
    }
    l2_in
}

/// The forward pass for `side`, the side to move.
pub fn evaluate(side: Color, acc: &Accumulator, params: &NetworkParams, piece_count: u32) -> (v: i32)
    requires
        acc.wf(),
        params.wf(),
        layers_fit(
            params,
            (if side == Color::White { acc.white.values@ } else { acc.black.values@ }),
            (if side == Color::White { acc.black.values@ } else { acc.white.values@ }),
        ),
    ensures
        v == (if side == Color::White {
            spec_evaluate(&acc.white, &acc.black, params, piece_count)
        } else {
            spec_evaluate(&acc.black, &acc.white, params, piece_count)
        }),
{
    let (stm_acc, nstm_acc) = match side {
        Color::White => (&acc.white, &acc.black),
        Color::Black => (&acc.black, &acc.white),
    };
    let ghost input = l1_input(stm_acc.values@, nstm_acc.values@);
    let l1_in = first_layer_input(stm_acc, nstm_acc);
    let l2_in = second_layer_input(&l1_in, params, Ghost(input));
    let mut output: i64 = params.out_bias as i64;
    let mut k2: usize = 0;
    while k2 < 32
        invariant
            k2 <= 32,
            params.wf(),
            l2_in@ == l2_input(params, input),
            layers_fit(params, stm_acc.values@, nstm_acc.values@),
            input == l1_input(stm_acc.values@, nstm_acc.values@),
            output == params.out_bias + dot(l2_acts(params, l2_input(params, input)), params.out_weight@, k2 as int),
            -0x8000_0000 - 16256 * (k2 as int) <= output <= 0x7fff_ffff + 16256 * (k2 as int),
        decreases 32 - k2,
    {
        let sum = dot_row(l2_in.as_slice(), params.l2_weight[k2].as_slice(), params.l2_bias[k2], 32);
        proof {
            lemma_shr6(sum);
        }
        let a = clip(sum >> 6);
        let w = params.out_weight[k2];
        proof {
            assert(l2_acts(params, l2_input(params, input))[k2 as int] == a as int);
            assert(-16256 <= (a as int) * (w as int) <= 16256) by (nonlinear_arith)
                requires
                    0 <= a <= 127,
                    -128 <= w <= 127,
            ;
        }
        output = output + a as i64 * w as i64;
        k2 = k2 + 1;
    }
    let bucket = psqt_bucket(piece_count);
    let psqt_stm = stm_acc.psqt[bucket] as i64;
    let psqt_nstm = nstm_acc.psqt[bucket] as i64;
    let psqt_val = (psqt_stm - psqt_nstm) / 2;
    let total = (output + psqt_val) / 128;
    if total < -4000 {
        -4000
    } else if total > 4000 {
        4000
    } else {
        total as i32
    }
}

/// Whether the sums of both layers stay within `i32` for these
/// accumulator values: the condition under which `evaluate` runs.
pub fn layers_fit_check(params: &NetworkParams, stm_acc: &SideAccumulator, nstm_acc: &SideAccumulator) -> (r: bool)
    requires
        params.wf(),
        stm_acc.wf(),
        nstm_acc.wf(),
    ensures
        r == layers_fit(params, stm_acc.values@, nstm_acc.values@),
{
    let ghost input = l1_input(stm_acc.values@, nstm_acc.values@);
    let l1_in = first_layer_input(stm_acc, nstm_acc);
    let mut j: usize = 0;
    while j < 16
        invariant
            j <= 16,
            params.wf(),
            l1_in@ == input,
            input.len() == 3072,
            input == l1_input(stm_acc.values@, nstm_acc.values@),
            forall|i: int, k: int|
                0 <= i < j && 0 <= k <= 3072 ==> i32::MIN <= params.l1_bias[i] + #[trigger] dot(bytes_as_ints(input), params.l1_weight[i]@, k)
                    <= i32::MAX,
        decreases 16 - j,
    {
        if !row_fits(l1_in.as_slice(), params.l1_weight[j].as_slice(), params.l1_bias[j], 3072) {
            return false;
        }
        j = j + 1;
    }
    let l2_in = second_layer_input(&l1_in, params, Ghost(input));
    let ghost input2 = l2_input(params, input);
    let mut j2: usize = 0;
    while j2 < 32
        invariant
            j2 <= 32,
            params.wf(),
            l2_in@ == input2,
            input2 == l2_input(params, input),
            input == l1_input(stm_acc.values@, nstm_acc.values@),
            forall|i: int, k: int|
                0 <= i < 16 && 0 <= k <= 3072 ==> i32::MIN <= params.l1_bias[i] + #[trigger] dot(bytes_as_ints(input), params.l1_weight[i]@, k)
                    <= i32::MAX,
            forall|i: int, k: int|
                0 <= i < j2 && 0 <= k <= 32 ==> i32::MIN <= params.l2_bias[i] + #[trigger] dot(bytes_as_ints(input2), params.l2_weight[i]@, k)
                    <= i32::MAX,
        decreases 32 - j2,
    {
        if !row_fits(l2_in.as_slice(), params.l2_weight[j2].as_slice(), params.l2_bias[j2], 32) {
            return false;
        }
        j2 = j2 + 1;
    }
    true
}

} // verus!
