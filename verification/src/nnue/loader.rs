use vstd::prelude::*;
use crate::nnue::feature::{HALFKP_FEATURES, TRANSFORMED_SIZE};

verus! {

/// Outputs of the first hidden layer.
pub const L1_SIZE: usize = 16;

/// Outputs of the second hidden layer.
pub const L2_SIZE: usize = 32;

/// PSQT buckets.
pub const PSQT_BUCKETS: usize = 8;

/// Inputs of the first hidden layer: both perspectives, clipped and squared.
pub const L1_INPUT_SIZE: usize = 3072;

/// Network parameters of the HalfKAv2_hm evaluation.
pub struct NetworkParams {
    /// Feature transformer weights, `HALFKA_FEATURES x TRANSFORMED_SIZE`, row per feature.
    pub ft_weight: Vec<i8>,
    /// Feature transformer biases.
    pub ft_bias: Vec<i16>,
    /// PSQT weights, `HALFKA_FEATURES x PSQT_BUCKETS`.
    pub psqt_weight: Vec<i32>,
    pub l1_weight: Vec<[i8; 3072]>,
    pub l1_bias: [i32; 16],
    pub l2_weight: Vec<[i8; 32]>,
    pub l2_bias: [i32; 32],
    pub out_weight: [i8; 32],
    pub out_bias: i32,
}

impl NetworkParams {
    /// Every table has its full size.
    pub open spec fn wf(&self) -> bool {
        &&& self.ft_weight.len() == HALFKP_FEATURES * TRANSFORMED_SIZE
        &&& self.ft_bias.len() == TRANSFORMED_SIZE
        &&& self.psqt_weight.len() == HALFKP_FEATURES * PSQT_BUCKETS
        &&& self.l1_weight.len() == L1_SIZE
        &&& self.l2_weight.len() == L2_SIZE
    }

    /// A network with every weight and bias zero.
    pub fn new() -> (p: NetworkParams)
        ensures
            p.wf(),
            forall|i: int| 0 <= i < p.ft_weight.len() ==> p.ft_weight[i] == 0,
            forall|i: int| 0 <= i < p.ft_bias.len() ==> p.ft_bias[i] == 0,
            forall|i: int| 0 <= i < p.psqt_weight.len() ==> p.psqt_weight[i] == 0,
            forall|j: int, k: int| 0 <= j < 16 && 0 <= k < 3072 ==> p.l1_weight[j][k] == 0,
            forall|j: int| 0 <= j < 16 ==> p.l1_bias[j] == 0,
            forall|j: int, k: int| 0 <= j < 32 && 0 <= k < 32 ==> p.l2_weight[j][k] == 0,
            forall|j: int| 0 <= j < 32 ==> p.l2_bias[j] == 0 && p.out_weight[j] == 0,
            p.out_bias == 0,
    {
        let ft_weight_size = HALFKP_FEATURES * TRANSFORMED_SIZE;
        NetworkParams {
            ft_weight: vec![0i8; ft_weight_size],
            ft_bias: vec![0i16; TRANSFORMED_SIZE],
            psqt_weight: vec![0i32; HALFKP_FEATURES * PSQT_BUCKETS],
            l1_weight: vec![[0i8; 3072]; L1_SIZE],
            l1_bias: [0i32; 16],
            l2_weight: vec![[0i8; 32]; L2_SIZE],
            l2_bias: [0i32; 32],
            out_weight: [0i8; 32],
            out_bias: 0,
        }
    }
}


/// Byte `i` of `d` as an unsigned number.
pub open spec fn byte(d: Seq<u8>, i: int) -> int {
    d[i] as int
}

/// The little-endian `u32` at offset `o`.
pub open spec fn le_u32(d: Seq<u8>, o: int) -> int {
    byte(d, o) + 256 * byte(d, o + 1) + 65536 * byte(d, o + 2) + 16777216 * byte(d, o + 3)
}

/// The little-endian `i32` at offset `o`.
pub open spec fn le_i32(d: Seq<u8>, o: int) -> i32 {
    le_u32(d, o) as i32
}

/// The little-endian `i16` at offset `o`.
pub open spec fn le_i16(d: Seq<u8>, o: int) -> i16 {
    (byte(d, o) + 256 * byte(d, o + 1)) as i16
}

/// Where each part of a network file starts, given the length of its
/// description: header (magic, hash, description length, description),
/// feature transformer hash, PSQT weights, feature transformer biases and
/// weights, network hash, first layer biases and weights, second layer
/// biases and weights, output bias and weights.
pub open spec fn psqt_at(desc: int) -> int {
    16 + desc
}

pub open spec fn ft_bias_at(desc: int) -> int {
    psqt_at(desc) + 22528 * 8 * 4
}

pub open spec fn ft_weight_at(desc: int) -> int {
    ft_bias_at(desc) + 768 * 2
}

pub open spec fn l1_bias_at(desc: int) -> int {
    ft_weight_at(desc) + 22528 * 768 + 4
}

pub open spec fn l1_weight_at(desc: int) -> int {
    l1_bias_at(desc) + 16 * 4
}

pub open spec fn l2_bias_at(desc: int) -> int {
    l1_weight_at(desc) + 16 * 3072
}

pub open spec fn l2_weight_at(desc: int) -> int {
    l2_bias_at(desc) + 32 * 4
}

pub open spec fn out_bias_at(desc: int) -> int {
    l2_weight_at(desc) + 32 * 32
}

pub open spec fn out_weight_at(desc: int) -> int {
    out_bias_at(desc) + 4
}

/// Bytes a network file with a description of `desc` bytes takes.
pub open spec fn file_size(desc: int) -> int {
    out_weight_at(desc) + 32
}

/// The bytes hold a whole network file.
pub open spec fn file_complete(d: Seq<u8>) -> bool {
    d.len() >= 12 && d.len() >= file_size(le_u32(d, 8))
}

/// `p` holds the network the file `d` describes.
pub open spec fn decoded(d: Seq<u8>, p: &NetworkParams) -> bool {
    let desc = le_u32(d, 8);
    &&& p.wf()
    &&& forall|i: int| 0 <= i < 22528 * 8 ==> #[trigger] p.psqt_weight[i] == le_i32(d, psqt_at(desc) + 4 * i)
    &&& forall|i: int| 0 <= i < 768 ==> #[trigger] p.ft_bias[i] == le_i16(d, ft_bias_at(desc) + 2 * i)
    &&& forall|i: int| 0 <= i < 22528 * 768 ==> #[trigger] p.ft_weight[i] == d[ft_weight_at(desc) + i] as i8
    &&& forall|j: int| 0 <= j < 16 ==> #[trigger] p.l1_bias[j] == le_i32(d, l1_bias_at(desc) + 4 * j)
    &&& forall|j: int, k: int| 0 <= j < 16 && 0 <= k < 3072 ==> #[trigger] p.l1_weight[j][k] == d[l1_weight_at(desc) + 3072 * j + k] as i8
    &&& forall|j: int| 0 <= j < 32 ==> #[trigger] p.l2_bias[j] == le_i32(d, l2_bias_at(desc) + 4 * j)
    &&& forall|j: int, k: int| 0 <= j < 32 && 0 <= k < 32 ==> #[trigger] p.l2_weight[j][k] == d[l2_weight_at(desc) + 32 * j + k] as i8
    &&& p.out_bias == le_i32(d, out_bias_at(desc))
    &&& forall|k: int| 0 <= k < 32 ==> #[trigger] p.out_weight[k] == d[out_weight_at(desc) + k] as i8
}

fn read_u32(d: &[u8], o: usize) -> (v: u32)
    requires
        o + 4 <= d@.len(),
    ensures
        v == le_u32(d@, o as int),
{
    d[o] as u32 + 256 * (d[o + 1] as u32) + 65536 * (d[o + 2] as u32) + 16777216 * (d[o + 3] as u32)
}

fn read_i32(d: &[u8], o: usize) -> (v: i32)
    requires
        o + 4 <= d@.len(),
    ensures
        v == le_i32(d@, o as int),
{
    read_u32(d, o) as i32
}

fn read_i16(d: &[u8], o: usize) -> (v: i16)
    requires
        o + 2 <= d@.len(),
    ensures
        v == le_i16(d@, o as int),
{
    (d[o] as u16 + 256 * (d[o + 1] as u16)) as i16
}

impl NetworkParams {
    /// The network a `.nnue` file holds, read from its bytes; `None` when
    /// the bytes end before the file does.
    pub fn load(data: &[u8]) -> (r: Option<NetworkParams>)
        ensures
            r is Some <==> file_complete(data@),
            r matches Some(p) ==> decoded(data@, &p),
    {
        let len = data.len();
        if len < 12 {
            return None;
        }
        let desc = read_u32(data, 8) as u64;
        let need: u64 = desc + 16 + 22528 * 8 * 4 + 768 * 2 + 22528 * 768 + 4 + 16 * 4 + 16 * 3072 + 32 * 4 + 32 * 32 + 4 + 32;
        if (data.len() as u64) < need {
            return None;
        }
        let d = desc as usize;
        let ghost dd = desc as int;
        let mut params = NetworkParams::new();
        let psqt = 16 + d;
        let mut i: usize = 0;
        while i < 22528 * 8
            invariant
                i <= 22528 * 8,
                params.wf(),
                dd == le_u32(data@, 8),
                psqt == psqt_at(dd),
                file_size(dd) <= data@.len() <= usize::MAX,
                forall|t: int| 0 <= t < i ==> #[trigger] params.psqt_weight[t] == le_i32(data@, psqt_at(dd) + 4 * t),
            decreases 22528 * 8 - i,
        {
            let v = read_i32(data, psqt + 4 * i);
            params.psqt_weight.set(i, v);
            i = i + 1;
        }
        let fb = psqt + 22528 * 8 * 4;
        let mut i: usize = 0;
        while i < 768
            invariant
                i <= 768,
                params.wf(),
                dd == le_u32(data@, 8),
                fb == ft_bias_at(dd),
                file_size(dd) <= data@.len() <= usize::MAX,
                forall|t: int| 0 <= t < 22528 * 8 ==> #[trigger] params.psqt_weight[t] == le_i32(data@, psqt_at(dd) + 4 * t),
                forall|t: int| 0 <= t < i ==> #[trigger] params.ft_bias[t] == le_i16(data@, ft_bias_at(dd) + 2 * t),
            decreases 768 - i,
        {
            let v = read_i16(data, fb + 2 * i);
            params.ft_bias.set(i, v);
            i = i + 1;
        }
        let fw = fb + 768 * 2;
        let mut i: usize = 0;
        while i < 22528 * 768
            invariant
                i <= 22528 * 768,
                params.wf(),
                dd == le_u32(data@, 8),
                fw == ft_weight_at(dd),
                file_size(dd) <= data@.len() <= usize::MAX,
                forall|t: int| 0 <= t < 22528 * 8 ==> #[trigger] params.psqt_weight[t] == le_i32(data@, psqt_at(dd) + 4 * t),
                forall|t: int| 0 <= t < 768 ==> #[trigger] params.ft_bias[t] == le_i16(data@, ft_bias_at(dd) + 2 * t),
                forall|t: int| 0 <= t < i ==> #[trigger] params.ft_weight[t] == data@[ft_weight_at(dd) + t] as i8,
            decreases 22528 * 768 - i,
        {
            let v = data[fw + i] as i8;
            params.ft_weight.set(i, v);
            i = i + 1;
        }
        let lb = fw + 22528 * 768 + 4;
        Self::load_layers(data, Ghost(dd), lb, &mut params);
        Some(params)
    }

    fn load_layers(data: &[u8], dd: Ghost<int>, lb: usize, params: &mut NetworkParams)
        requires
            old(params).wf(),
            dd@ == le_u32(data@, 8),
            lb == l1_bias_at(dd@),
            file_size(dd@) <= data@.len() <= usize::MAX,
        ensures
            final(params).wf(),
            final(params).psqt_weight@ == old(params).psqt_weight@,
            final(params).ft_bias@ == old(params).ft_bias@,
            final(params).ft_weight@ == old(params).ft_weight@,
            forall|j: int| 0 <= j < 16 ==> #[trigger] final(params).l1_bias[j] == le_i32(data@, l1_bias_at(dd@) + 4 * j),
            forall|j: int, k: int| 0 <= j < 16 && 0 <= k < 3072 ==> #[trigger] final(params).l1_weight[j][k] == data@[l1_weight_at(dd@) + 3072 * j + k] as i8,
            forall|j: int| 0 <= j < 32 ==> #[trigger] final(params).l2_bias[j] == le_i32(data@, l2_bias_at(dd@) + 4 * j),
            forall|j: int, k: int| 0 <= j < 32 && 0 <= k < 32 ==> #[trigger] final(params).l2_weight[j][k] == data@[l2_weight_at(dd@) + 32 * j + k] as i8,
            final(params).out_bias == le_i32(data@, out_bias_at(dd@)),
            forall|k: int| 0 <= k < 32 ==> #[trigger] final(params).out_weight[k] == data@[out_weight_at(dd@) + k] as i8,
    {
        let len = data.len();
        let mut j: usize = 0;
        while j < 16
            invariant
                j <= 16,
                lb == l1_bias_at(dd@),
                file_size(dd@) <= data@.len() <= usize::MAX,
                forall|t: int| 0 <= t < j ==> #[trigger] params.l1_bias[t] == le_i32(data@, l1_bias_at(dd@) + 4 * t),
                params.wf(),
                params.psqt_weight@ == old(params).psqt_weight@,
                params.ft_bias@ == old(params).ft_bias@,
                params.ft_weight@ == old(params).ft_weight@,
            decreases 16 - j,
        {
            params.l1_bias[j] = read_i32(data, lb + 4 * j);
            j = j + 1;
        }
        let lw = lb + 16 * 4;
        let mut j: usize = 0;
        while j < 16
            invariant
                j <= 16,
                lw == l1_weight_at(dd@),
                file_size(dd@) <= data@.len() <= usize::MAX,
                forall|t: int| 0 <= t < 16 ==> #[trigger] params.l1_bias[t] == le_i32(data@, l1_bias_at(dd@) + 4 * t),
                forall|t: int, k: int| 0 <= t < j && 0 <= k < 3072 ==> #[trigger] params.l1_weight[t][k] == data@[l1_weight_at(dd@) + 3072 * t + k] as i8,
                params.wf(),
                params.psqt_weight@ == old(params).psqt_weight@,
                params.ft_bias@ == old(params).ft_bias@,
                params.ft_weight@ == old(params).ft_weight@,
            decreases 16 - j,
        {
            let mut row = [0i8; 3072];
            let mut k: usize = 0;
            while k < 3072
                invariant
                    k <= 3072,
                    j < 16,
                    lw == l1_weight_at(dd@),
                    file_size(dd@) <= data@.len() <= usize::MAX,
                    forall|u: int| 0 <= u < k ==> #[trigger] row[u] == data@[l1_weight_at(dd@) + 3072 * j + u] as i8,
                decreases 3072 - k,
            {
                row[k] = data[lw + 3072 * j + k] as i8;
                k = k + 1;
            }
            params.l1_weight.set(j, row);
            j = j + 1;
        }
        let l2b = lw + 16 * 3072;
        let mut j: usize = 0;
        while j < 32
            invariant
                j <= 32,
                l2b == l2_bias_at(dd@),
                file_size(dd@) <= data@.len() <= usize::MAX,
                forall|t: int| 0 <= t < 16 ==> #[trigger] params.l1_bias[t] == le_i32(data@, l1_bias_at(dd@) + 4 * t),
                forall|t: int, k: int| 0 <= t < 16 && 0 <= k < 3072 ==> #[trigger] params.l1_weight[t][k] == data@[l1_weight_at(dd@) + 3072 * t + k] as i8,
                forall|t: int| 0 <= t < j ==> #[trigger] params.l2_bias[t] == le_i32(data@, l2_bias_at(dd@) + 4 * t),
                params.wf(),
                params.psqt_weight@ == old(params).psqt_weight@,
                params.ft_bias@ == old(params).ft_bias@,
                params.ft_weight@ == old(params).ft_weight@,
            decreases 32 - j,
        {
            params.l2_bias[j] = read_i32(data, l2b + 4 * j);
            j = j + 1;
        }
        let l2w = l2b + 32 * 4;
        let mut j: usize = 0;
        while j < 32
            invariant
                j <= 32,
                l2w == l2_weight_at(dd@),
                file_size(dd@) <= data@.len() <= usize::MAX,
                forall|t: int| 0 <= t < 16 ==> #[trigger] params.l1_bias[t] == le_i32(data@, l1_bias_at(dd@) + 4 * t),
                forall|t: int, k: int| 0 <= t < 16 && 0 <= k < 3072 ==> #[trigger] params.l1_weight[t][k] == data@[l1_weight_at(dd@) + 3072 * t + k] as i8,
                forall|t: int| 0 <= t < 32 ==> #[trigger] params.l2_bias[t] == le_i32(data@, l2_bias_at(dd@) + 4 * t),
                forall|t: int, k: int| 0 <= t < j && 0 <= k < 32 ==> #[trigger] params.l2_weight[t][k] == data@[l2_weight_at(dd@) + 32 * t + k] as i8,
                params.wf(),
                params.psqt_weight@ == old(params).psqt_weight@,
                params.ft_bias@ == old(params).ft_bias@,
                params.ft_weight@ == old(params).ft_weight@,
            decreases 32 - j,
        {
            let mut row = [0i8; 32];
            let mut k: usize = 0;
            while k < 32
                invariant
                    k <= 32,
                    j < 32,
                    l2w == l2_weight_at(dd@),
                    file_size(dd@) <= data@.len() <= usize::MAX,
                    forall|u: int| 0 <= u < k ==> #[trigger] row[u] == data@[l2_weight_at(dd@) + 32 * j + u] as i8,
                decreases 32 - k,
            {
                row[k] = data[l2w + 32 * j + k] as i8;
                k = k + 1;
            }
            params.l2_weight.set(j, row);
            j = j + 1;
        }
        let ob = l2w + 32 * 32;
        params.out_bias = read_i32(data, ob);
        let ow = ob + 4;
        let mut k: usize = 0;
        while k < 32
            invariant
                k <= 32,
                ow == out_weight_at(dd@),
                ob == out_bias_at(dd@),
                file_size(dd@) <= data@.len() <= usize::MAX,
                forall|t: int| 0 <= t < 16 ==> #[trigger] params.l1_bias[t] == le_i32(data@, l1_bias_at(dd@) + 4 * t),
                forall|t: int, u: int| 0 <= t < 16 && 0 <= u < 3072 ==> #[trigger] params.l1_weight[t][u] == data@[l1_weight_at(dd@) + 3072 * t + u] as i8,
                forall|t: int| 0 <= t < 32 ==> #[trigger] params.l2_bias[t] == le_i32(data@, l2_bias_at(dd@) + 4 * t),
                forall|t: int, u: int| 0 <= t < 32 && 0 <= u < 32 ==> #[trigger] params.l2_weight[t][u] == data@[l2_weight_at(dd@) + 32 * t + u] as i8,
                params.out_bias == le_i32(data@, out_bias_at(dd@)),
                forall|t: int| 0 <= t < k ==> #[trigger] params.out_weight[t] == data@[out_weight_at(dd@) + t] as i8,
                params.wf(),
                params.psqt_weight@ == old(params).psqt_weight@,
                params.ft_bias@ == old(params).ft_bias@,
                params.ft_weight@ == old(params).ft_weight@,
            decreases 32 - k,
        {
            params.out_weight[k] = data[ow + k] as i8;
            k = k + 1;
        }
    }
}

} // verus!
