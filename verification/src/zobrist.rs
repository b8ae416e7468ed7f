use vstd::prelude::*;
use crate::types::{CastlingRights, Color, PieceType, Square};

verus! {

pub const NUM_PIECES: usize = 12;

pub const NUM_SQUARES: usize = 64;

/// One xorshift step of the key generator.
pub open spec fn rng_step(x: u64) -> u64 {
    let a = x ^ (x >> 12u64);
    let b = a ^ (a << 25u64);
    b ^ (b >> 27u64)
}

/// Generator state after `n` draws, starting from the fixed seed.
pub open spec fn rng_state(n: nat) -> u64
    decreases n,
{
    if n == 0 {
        1070372u64
    } else {
        rng_step(rng_state((n - 1) as nat))
    }
}

/// The `n`-th value drawn (counting from 0).
pub open spec fn rng_output(n: nat) -> u64 {
    vstd::wrapping::u64_specs::wrapping_mul(rng_state(n + 1), 2685821657736338717u64)
}

/// Key of a piece of `color` and type `pt` on square `sq`.
pub open spec fn spec_piece_key(color: Color, pt: PieceType, sq: int) -> u64 {
    rng_output(((color.spec_index() * 6 + pt.spec_index()) * 64 + sq) as nat)
}

/// Key xored in when Black is to move.
pub open spec fn spec_side_key() -> u64 {
    rng_output(792)
}

/// Key of a castling-rights value (only its low four bits count).
pub open spec fn spec_castling_key(rights: u8) -> u64 {
    rng_output((768 + (rights & 15)) as nat)
}

/// Key of an en-passant file.
pub open spec fn spec_ep_key(file: int) -> u64 {
    rng_output((784 + file) as nat)
}

/// Random keys for Zobrist hashing: one per (piece, square), one for the
/// side to move, one per castling-rights value, one per en-passant file.
#[derive(Copy, Clone)]
pub struct ZobristKeys {
    pub pieces: [[u64; 64]; 12],
    pub side_to_move: u64,
    pub castling: [u64; 16],
    pub en_passant: [u64; 8],
}

fn rand64(s: &mut u64) -> (r: u64)
    ensures
        *final(s) == rng_step(*old(s)),
        r == vstd::wrapping::u64_specs::wrapping_mul(rng_step(*old(s)), 2685821657736338717u64),
{
    let mut x = *s;
    x = x ^ (x >> 12u64);
    x = x ^ (x << 25u64);
    x = x ^ (x >> 27u64);
    *s = x;
    x.wrapping_mul(2685821657736338717u64)
}

impl ZobristKeys {
    /// The keys hold the generator's draws in order: pieces (by piece code,
    /// then square), castling rights, en-passant files, side to move.
    pub open spec fn wf(&self) -> bool {
        &&& forall|p: int, sq: int|
            0 <= p < 12 && 0 <= sq < 64 ==> #[trigger] self.pieces[p][sq] == rng_output(
                (p * 64 + sq) as nat,
            )
        &&& forall|c: int| 0 <= c < 16 ==> #[trigger] self.castling[c] == rng_output((768 + c) as nat)
        &&& forall|f: int| 0 <= f < 8 ==> #[trigger] self.en_passant[f] == rng_output((784 + f) as nat)
        &&& self.side_to_move == rng_output(792)
    }

    pub fn new() -> (k: ZobristKeys)
        ensures
            k.wf(),
    {
        let mut seed: u64 = 1070372;
        let mut pieces = [[0u64; 64]; 12];
        let mut castling = [0u64; 16];
        let mut en_passant = [0u64; 8];
        let ghost mut n: nat = 0;
        let mut p: usize = 0;
        while p < NUM_PIECES
            invariant
                p <= 12,
                n == p * 64,
                seed == rng_state(n),
                forall|q: int, sq: int|
                    0 <= q < p && 0 <= sq < 64 ==> #[trigger] pieces[q][sq] == rng_output(
                        (q * 64 + sq) as nat,
                    ),
            decreases 12 - p,
        {
            let mut row = [0u64; 64];
            let mut sq: usize = 0;
            while sq < NUM_SQUARES
                invariant
                    p < 12,
                    sq <= 64,
                    n == p * 64 + sq,
                    seed == rng_state(n),
                    forall|s2: int| 0 <= s2 < sq ==> #[trigger] row[s2] == rng_output(
                        (p * 64 + s2) as nat,
                    ),
                decreases 64 - sq,
            {
                row[sq] = rand64(&mut seed);
                proof {
                    n = n + 1;
                }
                sq += 1;
            }
            pieces[p] = row;
            p += 1;
        }
        let mut c: usize = 0;
        while c < 16
            invariant
                c <= 16,
                n == 768 + c,
                seed == rng_state(n),
                forall|q: int, sq: int|
                    0 <= q < 12 && 0 <= sq < 64 ==> #[trigger] pieces[q][sq] == rng_output(
                        (q * 64 + sq) as nat,
                    ),
                forall|c2: int| 0 <= c2 < c ==> #[trigger] castling[c2] == rng_output((768 + c2) as nat),
            decreases 16 - c,
        {
            castling[c] = rand64(&mut seed);
            proof {
                n = n + 1;
            }
            c += 1;
        }
        let mut f: usize = 0;
        while f < 8
            invariant
                f <= 8,
                n == 784 + f,
                seed == rng_state(n),
                forall|q: int, sq: int|
                    0 <= q < 12 && 0 <= sq < 64 ==> #[trigger] pieces[q][sq] == rng_output(
                        (q * 64 + sq) as nat,
                    ),
                forall|c2: int| 0 <= c2 < 16 ==> #[trigger] castling[c2] == rng_output((768 + c2) as nat),
                forall|f2: int| 0 <= f2 < f ==> #[trigger] en_passant[f2] == rng_output((784 + f2) as nat),
            decreases 8 - f,
        {
            en_passant[f] = rand64(&mut seed);
            proof {
                n = n + 1;
            }
            f += 1;
        }
        let side_to_move = rand64(&mut seed);
        ZobristKeys { pieces, side_to_move, castling, en_passant }
    }
}

pub fn piece_key(keys: &ZobristKeys, color: Color, pt: PieceType, sq: Square) -> (k: u64)
    requires
        keys.wf(),
        sq.0 < 64,
    ensures
        k == spec_piece_key(color, pt, sq.0 as int),
{
    let p_idx = color.index() * 6 + pt.index();
    keys.pieces[p_idx][sq.0 as usize]
}

pub fn side_key(keys: &ZobristKeys) -> (k: u64)
    requires
        keys.wf(),
    ensures
        k == spec_side_key(),
{
    keys.side_to_move
}

pub fn castling_key(keys: &ZobristKeys, rights: CastlingRights) -> (k: u64)
    requires
        keys.wf(),
    ensures
        k == spec_castling_key(rights.0),
{
    let i = rights.0 & 15;
    proof {
        let r = rights.0;
        assert(r & 15 < 16) by (bit_vector);
    }
    keys.castling[i as usize]
}

pub fn ep_key(keys: &ZobristKeys, ep_square: Square) -> (k: u64)
    requires
        keys.wf(),
    ensures
        k == spec_ep_key(ep_square.0 as int % 8),
{
    keys.en_passant[ep_square.file() as usize]
}

} // verus!
