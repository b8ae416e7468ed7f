use vstd::prelude::*;

verus! {

/// The first `n` products of inputs and weights, summed.
pub open spec fn dot(input: Seq<int>, w: Seq<i8>, n: int) -> int
    decreases n,
{
    if n <= 0 {
        0
    } else {
        dot(input, w, n - 1) + input[n - 1] * w[n - 1]
    }
}

/// Bytes read as integers.
pub open spec fn bytes_as_ints(s: Seq<u8>) -> Seq<int> {
    s.map_values(|b: u8| b as int)
}

/// `x` clipped to 0..=127.
pub open spec fn clip127(x: int) -> int {
    if x <= 0 {
        0
    } else if x >= 127 {
        127
    } else {
        x
    }
}

/// `x >> 6` on a 32-bit integer: division by 64 rounding down.
pub proof fn lemma_shr6(x: i32)
    by (bit_vector)
    ensures
        (x >> 6i32) as int == (x as int) / 64,
{
}

/// Sums of a layer stay within `i32` for every output and every prefix of
/// the inputs.
pub open spec fn sums_fit(input: Seq<int>, weights: Seq<Seq<i8>>, biases: Seq<i32>, outs: int, n: int) -> bool {
    forall|j: int, k: int|
        0 <= j < outs && 0 <= k <= n ==> i32::MIN <= biases[j] + #[trigger] dot(input, weights[j], k) <= i32::MAX
}

proof fn lemma_product_bound(x: int, w: i8)
    requires
        0 <= x <= 255,
    ensures
        -32640 <= x * w <= 32385,
{
    assert(-32640 <= x * w <= 32385) by (nonlinear_arith)
        requires
            0 <= x <= 255,
            -128 <= w <= 127,
    ;
}

/// One output of a linear layer over `n` byte inputs.
pub(crate) fn dot_row(input: &[u8], row: &[i8], bias: i32, n: usize) -> (sum: i32)
    requires
        n <= input@.len(),
        n <= row@.len(),
        forall|k: int| 0 <= k <= n ==> i32::MIN <= bias + #[trigger] dot(bytes_as_ints(input@), row@, k) <= i32::MAX,
    ensures
        sum == bias + dot(bytes_as_ints(input@), row@, n as int),
{
    let mut sum = bias;
    let mut k: usize = 0;
    while k < n
        invariant
            k <= n,
            n <= input@.len(),
            n <= row@.len(),
            forall|t: int| 0 <= t <= n ==> i32::MIN <= bias + #[trigger] dot(bytes_as_ints(input@), row@, t) <= i32::MAX,
            sum == bias + dot(bytes_as_ints(input@), row@, k as int),
        decreases n - k,
    {
        proof {
            lemma_product_bound(input@[k as int] as int, row@[k as int]);
            assert(bytes_as_ints(input@)[k as int] == input@[k as int] as int);
            assert(i32::MIN <= bias + dot(bytes_as_ints(input@), row@, k + 1) <= i32::MAX);
        }
        sum = sum + input[k] as i32 * row[k] as i32;
        k = k + 1;
    }
    sum
}

/// Whether every prefix sum of one output of a linear layer over `n` byte
/// inputs stays within `i32`.
pub(crate) fn row_fits(input: &[u8], row: &[i8], bias: i32, n: usize) -> (r: bool)
    requires
        n <= input@.len(),
        n <= row@.len(),
    ensures
        r == forall|k: int| 0 <= k <= n ==> i32::MIN <= bias + #[trigger] dot(bytes_as_ints(input@), row@, k) <= i32::MAX,
{
    let mut sum: i64 = bias as i64;
    let mut k: usize = 0;
    while k < n
        invariant
            k <= n,
            n <= input@.len(),
            n <= row@.len(),
            sum == bias + dot(bytes_as_ints(input@), row@, k as int),
            forall|t: int| 0 <= t <= k ==> i32::MIN <= bias + #[trigger] dot(bytes_as_ints(input@), row@, t) <= i32::MAX,
        decreases n - k,
    {
        proof {
            lemma_product_bound(input@[k as int] as int, row@[k as int]);
            assert(bytes_as_ints(input@)[k as int] == input@[k as int] as int);
        }
        sum = sum + input[k] as i64 * row[k] as i64;
        if sum < -0x8000_0000 || sum > 0x7fff_ffff {
            proof {
                assert(!(i32::MIN <= bias + dot(bytes_as_ints(input@), row@, k + 1) <= i32::MAX));
            }
            return false;
        }
        k = k + 1;
    }
    true
}

/// A linear layer over 512 byte inputs: each output is its bias plus the
/// inputs weighted by its row.
pub fn linear_forward_scalar(input: &[u8; 512], weights: &[[i8; 512]], biases: &[i32], output: &mut [i32])
    requires
        weights@.len() >= old(output)@.len(),
        biases@.len() >= old(output)@.len(),
        sums_fit(bytes_as_ints(input@), weights@.map_values(|r: [i8; 512]| r@), biases@, old(output)@.len() as int, 512),
    ensures
        final(output)@.len() == old(output)@.len(),
        forall|j: int| 0 <= j < final(output)@.len() ==> #[trigger] final(output)@[j] == biases@[j] + dot(
            bytes_as_ints(input@),
            weights@[j]@,
            512,
        ),
{
    let num_outputs = output.len();
    let mut j: usize = 0;
    while j < num_outputs
        invariant
            j <= num_outputs,
            num_outputs == output@.len(),
            num_outputs == old(output)@.len(),
            weights@.len() >= num_outputs,
            biases@.len() >= num_outputs,
            sums_fit(bytes_as_ints(input@), weights@.map_values(|r: [i8; 512]| r@), biases@, num_outputs as int, 512),
            forall|t: int| 0 <= t < j ==> #[trigger] output@[t] == biases@[t] + dot(bytes_as_ints(input@), weights@[t]@, 512),
        decreases num_outputs - j,
    {
        proof {
            assert(weights@.map_values(|r: [i8; 512]| r@)[j as int] == weights@[j as int]@);
            assert forall|k: int| 0 <= k <= 512 implies i32::MIN <= biases@[j as int] + #[trigger] dot(bytes_as_ints(input@), weights@[j as int]@, k) <= i32::MAX by {
                assert(i32::MIN <= biases@[j as int] + dot(bytes_as_ints(input@), weights@.map_values(|r: [i8; 512]| r@)[j as int], k) <= i32::MAX);
            }
        }
        let sum = dot_row(input, &weights[j], biases[j], 512);
        output[j] = sum;
        j = j + 1;
    }
}

/// A linear layer over 32 byte inputs.
pub fn l2_forward_scalar(input: &[u8; 32], weights: &[[i8; 32]], biases: &[i32], output: &mut [i32])
    requires
        weights@.len() >= old(output)@.len(),
        biases@.len() >= old(output)@.len(),
        sums_fit(bytes_as_ints(input@), weights@.map_values(|r: [i8; 32]| r@), biases@, old(output)@.len() as int, 32),
    ensures
        final(output)@.len() == old(output)@.len(),
        forall|j: int| 0 <= j < final(output)@.len() ==> #[trigger] final(output)@[j] == biases@[j] + dot(
            bytes_as_ints(input@),
            weights@[j]@,
            32,
        ),
{
    let num_outputs = output.len();
    let mut j: usize = 0;
    while j < num_outputs
        invariant
            j <= num_outputs,
            num_outputs == output@.len(),
            num_outputs == old(output)@.len(),
            weights@.len() >= num_outputs,
            biases@.len() >= num_outputs,
            sums_fit(bytes_as_ints(input@), weights@.map_values(|r: [i8; 32]| r@), biases@, num_outputs as int, 32),
            forall|t: int| 0 <= t < j ==> #[trigger] output@[t] == biases@[t] + dot(bytes_as_ints(input@), weights@[t]@, 32),
        decreases num_outputs - j,
    {
        proof {
            assert(weights@.map_values(|r: [i8; 32]| r@)[j as int] == weights@[j as int]@);
            assert forall|k: int| 0 <= k <= 32 implies i32::MIN <= biases@[j as int] + #[trigger] dot(bytes_as_ints(input@), weights@[j as int]@, k) <= i32::MAX by {
                assert(i32::MIN <= biases@[j as int] + dot(bytes_as_ints(input@), weights@.map_values(|r: [i8; 32]| r@)[j as int], k) <= i32::MAX);
            }
        }
        let sum = dot_row(input, &weights[j], biases[j], 32);
        output[j] = sum;
        j = j + 1;
    }
}

/// Each accumulator value clipped to 0..=127.
pub fn clipped_relu_scalar(input: &[i16; 256], output: &mut [u8; 256])
    ensures
        forall|i: int| 0 <= i < 256 ==> #[trigger] final(output)[i] as int == clip127(input[i] as int),
{
    let mut i: usize = 0;
    while i < 256
        invariant
            i <= 256,
            forall|t: int| 0 <= t < i ==> #[trigger] output[t] as int == clip127(input[t] as int),
        decreases 256 - i,
    {
        let val = input[i];
        if val <= 0 {
            output[i] = 0;
        } else if val >= 127 {
            output[i] = 127;
        } else {
            output[i] = val as u8;
        }
        i = i + 1;
    }
}

/// Each first-layer sum divided by 64, rounding down, then clipped to 0..=127.
pub fn l1_clipped_scalar(input: &[i32; 32], output: &mut [u8; 32])
    ensures
        forall|i: int| 0 <= i < 32 ==> #[trigger] final(output)[i] as int == clip127((input[i] as int) / 64),
{
    let mut i: usize = 0;
    while i < 32
        invariant
            i <= 32,
            forall|t: int| 0 <= t < i ==> #[trigger] output[t] as int == clip127((input[t] as int) / 64),
        decreases 32 - i,
    {
        proof {
            lemma_shr6(input[i as int]);
        }
        let val = input[i] >> 6;
        if val <= 0 {
            output[i] = 0;
        } else if val >= 127 {
            output[i] = 127;
        } else {
            output[i] = val as u8;
        }
        i = i + 1;
    }
}

} // verus!
