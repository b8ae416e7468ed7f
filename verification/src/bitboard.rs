use vstd::prelude::*;
use vstd::std_specs::bits::{u64_trailing_zeros, u64_leading_zeros, axiom_u64_trailing_zeros, axiom_u64_leading_zeros};
use std::ops::{BitAnd, BitAndAssign, BitOr, BitOrAssign, BitXor, BitXorAssign, Not, Shl, Shr};

verus! {

/// Whether bit `s` of `b` is set (squares outside 0..64 never are).
pub open spec fn bit_set(b: u64, s: int) -> bool {
    0 <= s < 64 && (b >> (s as u64)) & 1 == 1
}

/// The squares whose bits are set.
pub open spec fn bits(b: u64) -> Set<int> {
    Set::new(|s: int| bit_set(b, s))
}

/// Facts about single bits of 64-bit words, proved by bit-blasting.
proof fn bit_facts(a: u64, b: u64, k: u64, j: u64)
    by (bit_vector)
    requires
        k < 64,
        j < 64,
    ensures
        ((a | b) >> k) & 1 == 1 <==> ((a >> k) & 1 == 1 || (b >> k) & 1 == 1),
        ((a & b) >> k) & 1 == 1 <==> ((a >> k) & 1 == 1 && (b >> k) & 1 == 1),
        ((a ^ b) >> k) & 1 == 1 <==> ((a >> k) & 1 == 1) != ((b >> k) & 1 == 1),
        ((!a) >> k) & 1 == 1 <==> !((a >> k) & 1 == 1),
        ((1u64 << k) >> j) & 1 == 1 <==> j == k,
        (0u64 >> j) & 1 == 0,
        ((a << k) >> j) & 1 == 1 <==> (j >= k && (a >> (j - k) as u64) & 1 == 1),
        ((a >> k) >> j) & 1 == 1 <==> (j + k < 64 && (a >> (j + k) as u64) & 1 == 1),
        (a >> k) & 1 != 0 ==> (a >> k) & 1 == 1,
{
}

/// Facts about shifting and clearing the lowest bit, proved by bit-blasting.
proof fn word_facts(x: u64, a: u64, b: u64, k: u64, j: u64)
    by (bit_vector)
    ensures
        x >> 0u64 == x,
        (x >> k == 0 && k >= 1 && k < 64) ==> (x / 2) >> ((k - 1) as u64) == 0,
        (x / 2) >> 63u64 == 0,
        x != 0 ==> (x >> 1u64) < x,
        j < 63 ==> ((x >> 1u64) >> j) & 1 == (x >> (j + 1) as u64) & 1,
        j == 63 ==> ((x >> 1u64) >> j) & 1 == 0,
        ((x >> 0u64) & 1 != 1 && (x >> 1u64) == 0) ==> x == 0,
        a ^ b == 0 ==> a == b,
        x != 0 ==> x & ((x - 1) as u64) < x,
        (k < 64 && j < 64 && (x >> k) & 1u64 == 1u64 && x << ((64 - k) as u64) == 0) ==> (((x & ((x - 1) as u64)) >> j) & 1 == 1 <==> ((x >> j) & 1 == 1 && j != k)),
{
}

/// Number of set bits.
pub open spec fn popcount(b: u64) -> nat
    decreases b,
{
    if b == 0 {
        0
    } else {
        popcount(b / 2) + (b % 2) as nat
    }
}

proof fn lemma_popcount_shift(x: u64, k: u64)
    requires
        k < 64,
        x >> k == 0,
    ensures
        popcount(x) <= k,
    decreases k,
{
    if k == 0 {
        word_facts(x, 0, 0, 0, 0);
    } else {
        word_facts(x, 0, 0, k, 0);
        lemma_popcount_shift(x / 2, (k - 1) as u64);
    }
}

/// A word has at most 64 set bits.
pub proof fn lemma_popcount_le_64(x: u64)
    ensures
        popcount(x) <= 64,
{
    if x != 0 {
        word_facts(x, 0, 0, 0, 0);
        lemma_popcount_shift(x / 2, 63);
    }
}

pub proof fn lemma_bit_or(a: u64, b: u64, s: int)
    ensures
        bit_set(a | b, s) == (bit_set(a, s) || bit_set(b, s)),
{
    if 0 <= s < 64 {
        let k = s as u64;
        bit_facts(a, b, k, 0);
    }
}

pub proof fn lemma_bit_and(a: u64, b: u64, s: int)
    ensures
        bit_set(a & b, s) == (bit_set(a, s) && bit_set(b, s)),
{
    if 0 <= s < 64 {
        let k = s as u64;
        bit_facts(a, b, k, 0);
    }
}

pub proof fn lemma_bit_xor(a: u64, b: u64, s: int)
    ensures
        bit_set(a ^ b, s) == (bit_set(a, s) != bit_set(b, s)),
{
    if 0 <= s < 64 {
        let k = s as u64;
        bit_facts(a, b, k, 0);
    }
}

pub proof fn lemma_bit_not(a: u64, s: int)
    ensures
        bit_set(!a, s) == (0 <= s < 64 && !bit_set(a, s)),
{
    if 0 <= s < 64 {
        let k = s as u64;
        bit_facts(a, a, k, 0);
    }
}

pub proof fn lemma_bit_single(k: u64, s: int)
    requires
        k < 64,
    ensures
        bit_set(1u64 << k, s) == (s == k),
{
    if 0 <= s < 64 {
        let j = s as u64;
        bit_facts(0, 0, k, j);
    }
}

pub proof fn lemma_bit_zero(s: int)
    ensures
        !bit_set(0u64, s),
{
    if 0 <= s < 64 {
        let j = s as u64;
        bit_facts(0, 0, 0, j);
    }
}

pub proof fn lemma_bit_shl(a: u64, k: u64, s: int)
    requires
        k < 64,
    ensures
        bit_set(a << k, s) == (0 <= s < 64 && s >= k && bit_set(a, s - k)),
{
    if 0 <= s < 64 {
        let j = s as u64;
        bit_facts(a, 0, k, j);
    }
}

pub proof fn lemma_bit_shr(a: u64, k: u64, s: int)
    requires
        k < 64,
    ensures
        bit_set(a >> k, s) == (0 <= s < 64 && s + k < 64 && bit_set(a, s + k)),
{
    if 0 <= s < 64 {
        let j = s as u64;
        bit_facts(a, 0, k, j);
    }
}

/// A word with no set bit is zero.
pub proof fn lemma_no_bits_zero(x: u64)
    requires
        forall|s: int| 0 <= s < 64 ==> !bit_set(x, s),
    ensures
        x == 0,
    decreases x,
{
    if x != 0 {
        let y = x >> 1u64;
        word_facts(x, 0, 0, 0, 0);
        assert forall|s: int| 0 <= s < 64 implies !bit_set(y, s) by {
            let j = s as u64;
            if j < 63 {
                assert(!bit_set(x, s + 1));
                word_facts(x, 0, 0, 0, j);
            } else {
                word_facts(x, 0, 0, 0, j);
            }
        }
        lemma_no_bits_zero(y);
        assert(!bit_set(x, 0));
        word_facts(x, 0, 0, 0, 0);
    }
}

/// Two words with the same set bits are equal.
pub proof fn lemma_bits_ext(a: u64, b: u64)
    requires
        forall|s: int| 0 <= s < 64 ==> bit_set(a, s) == bit_set(b, s),
    ensures
        a == b,
{
    assert forall|s: int| 0 <= s < 64 implies !bit_set(a ^ b, s) by {
        lemma_bit_xor(a, b, s);
    }
    lemma_no_bits_zero(a ^ b);
    word_facts(0, a, b, 0, 0);
}

/// A word is zero exactly when no bit is set.
pub proof fn lemma_zero_iff_no_bits(a: u64)
    ensures
        (a == 0) == (forall|s: int| 0 <= s < 64 ==> !bit_set(a, s)),
{
    if a == 0 {
        assert forall|s: int| 0 <= s < 64 implies !bit_set(a, s) by {
            lemma_bit_zero(s);
        }
    } else {
        if forall|s: int| 0 <= s < 64 ==> !bit_set(a, s) {
            lemma_no_bits_zero(a);
        }
    }
}

/// The lowest set bit of a nonzero word is `trailing_zeros`, and clearing it
/// with `a & (a - 1)` removes that bit only.
pub proof fn lemma_lsb(a: u64)
    requires
        a != 0,
    ensures
        u64_trailing_zeros(a) < 64,
        bit_set(a, u64_trailing_zeros(a) as int),
        forall|s: int| 0 <= s < u64_trailing_zeros(a) ==> !bit_set(a, s),
        forall|s: int| bit_set(a & ((a - 1) as u64), s) == (bit_set(a, s) && s != u64_trailing_zeros(a)),
{
    axiom_u64_trailing_zeros(a);
    let t = u64_trailing_zeros(a) as u64;
    assert forall|s: int| 0 <= s < u64_trailing_zeros(a) implies !bit_set(a, s) by {
        let j = s as u64;
        assert((a >> j) & 1u64 == 0u64);
    }
    assert forall|s: int| bit_set(a & ((a - 1) as u64), s) == (bit_set(a, s) && s != u64_trailing_zeros(a)) by {
        if 0 <= s < 64 {
            let j = s as u64;
            word_facts(a, 0, 0, t, j);
        }
    }
}

/// The highest set bit of a nonzero word is `63 - leading_zeros`.
pub proof fn lemma_msb(a: u64)
    requires
        a != 0,
    ensures
        0 <= u64_leading_zeros(a) < 64,
        bit_set(a, 63 - u64_leading_zeros(a)),
        forall|s: int| 63 - u64_leading_zeros(a) < s < 64 ==> !bit_set(a, s),
{
    axiom_u64_leading_zeros(a);
    let l = u64_leading_zeros(a);
    assert forall|s: int| 63 - l < s < 64 implies !bit_set(a, s) by {
        let j = s as u64;
        assert((a >> j) & 1u64 == 0u64);
    }
    let k = (63 - l) as u64;
    assert((a >> k) & 1u64 != 0u64);
    bit_facts(a, 0, k, 0);
}

/// A 64-bit set of squares.
#[derive(Copy, Clone, Debug, PartialEq, Eq, Structural)]
pub struct Bitboard(pub u64);

impl Bitboard {
    pub open spec fn view(self) -> Set<int> {
        bits(self.0)
    }

    pub fn new(val: u64) -> (b: Bitboard)
        ensures
            b.0 == val,
    {
        Bitboard(val)
    }

    pub fn is_empty(self) -> (r: bool)
        ensures
            r == (self.0 == 0),
            r == (forall|s: int| 0 <= s < 64 ==> !bit_set(self.0, s)),
    {
        proof {
            lemma_zero_iff_no_bits(self.0);
        }
        self.0 == 0
    }

    pub fn is_not_empty(self) -> (r: bool)
        ensures
            r == (self.0 != 0),
            r == (exists|s: int| 0 <= s < 64 && bit_set(self.0, s)),
    {
        proof {
            lemma_zero_iff_no_bits(self.0);
        }
        self.0 != 0
    }

    pub fn count(self) -> (n: u32)
        ensures
            n == popcount(self.0),
            n <= 64,
    {
        proof {
            lemma_popcount_le_64(self.0);
        }
        count_ones_u64(self.0)
    }

    /// The lowest occupied square, or 64 for an empty board.
    pub fn lsb(self) -> (s: u8)
        ensures
            s == u64_trailing_zeros(self.0),
            self.0 == 0 ==> s == 64,
            self.0 != 0 ==> s < 64 && bit_set(self.0, s as int) && (forall|t: int|
                0 <= t < s ==> !bit_set(self.0, t)),
    {
        proof {
            axiom_u64_trailing_zeros(self.0);
            if self.0 != 0 {
                lemma_lsb(self.0);
            }
        }
        self.0.trailing_zeros() as u8
    }

    /// The highest occupied square.
    pub fn msb(self) -> (s: u8)
        requires
            self.0 != 0,
        ensures
            s == 63 - u64_leading_zeros(self.0),
            bit_set(self.0, s as int),
            forall|t: int| s < t < 64 ==> !bit_set(self.0, t),
    {
        proof {
            lemma_msb(self.0);
        }
        63 - self.0.leading_zeros() as u8
    }

    /// Removes and returns the lowest occupied square.
    pub fn pop_lsb(&mut self) -> (s: u8)
        requires
            old(self).0 != 0,
        ensures
            s == u64_trailing_zeros(old(self).0),
            s < 64,
            bit_set(old(self).0, s as int),
            forall|t: int| 0 <= t < s ==> !bit_set(old(self).0, t),
            final(self).0 == old(self).0 & ((old(self).0 - 1) as u64),
            final(self).0 < old(self).0,
            forall|t: int| bit_set(final(self).0, t) == (bit_set(old(self).0, t) && t != s),
    {
        let sq = self.lsb();
        proof {
            lemma_lsb(self.0);
            let x = self.0;
            word_facts(x, 0, 0, 0, 0);
        }
        self.0 = self.0 & (self.0 - 1);
        sq
    }

    pub fn set_bit(&mut self, sq: u8)
        requires
            sq < 64,
        ensures
            final(self).0 == old(self).0 | (1u64 << sq),
            forall|t: int| bit_set(final(self).0, t) == (bit_set(old(self).0, t) || t == sq),
    {
        proof {
            assert forall|t: int| bit_set(self.0 | (1u64 << sq), t) == (bit_set(self.0, t) || t == sq) by {
                lemma_bit_or(self.0, 1u64 << sq, t);
                lemma_bit_single(sq as u64, t);
            }
        }
        self.0 = self.0 | (1u64 << sq);
    }

    pub fn clear_bit(&mut self, sq: u8)
        requires
            sq < 64,
        ensures
            final(self).0 == old(self).0 & !(1u64 << sq),
            forall|t: int| bit_set(final(self).0, t) == (bit_set(old(self).0, t) && t != sq),
    {
        proof {
            assert forall|t: int| bit_set(self.0 & !(1u64 << sq), t) == (bit_set(self.0, t) && t != sq) by {
                lemma_bit_and(self.0, !(1u64 << sq), t);
                lemma_bit_not(1u64 << sq, t);
                lemma_bit_single(sq as u64, t);
            }
        }
        self.0 = self.0 & !(1u64 << sq);
    }
}

/// The number of set bits of `x`, counted bit by bit.
fn count_ones_u64(x: u64) -> (n: u32)
    ensures
        n == popcount(x),
{
    proof {
        lemma_popcount_le_64(x);
    }
    let mut y = x;
    let mut n: u32 = 0;
    while y != 0
        invariant
            n + popcount(y) == popcount(x),
            popcount(x) <= 64,
        decreases y,
    {
        n = n + (y % 2) as u32;
        y = y / 2;
    }
    n
}

impl BitAnd for Bitboard {
    type Output = Self;

    fn bitand(self, rhs: Self) -> (r: Self::Output)
        ensures
            r.0 == self.0 & rhs.0,
    {
        Bitboard(self.0 & rhs.0)
    }
}

impl vstd::std_specs::ops::BitAndSpecImpl for Bitboard {
    open spec fn obeys_bitand_spec() -> bool {
        true
    }

    open spec fn bitand_req(self, rhs: Bitboard) -> bool {
        true
    }

    open spec fn bitand_spec(self, rhs: Bitboard) -> Bitboard {
        Bitboard(self.0 & rhs.0)
    }
}

impl BitOr for Bitboard {
    type Output = Self;

    fn bitor(self, rhs: Self) -> (r: Self::Output)
        ensures
            r.0 == self.0 | rhs.0,
    {
        Bitboard(self.0 | rhs.0)
    }
}

impl vstd::std_specs::ops::BitOrSpecImpl for Bitboard {
    open spec fn obeys_bitor_spec() -> bool {
        true
    }

    open spec fn bitor_req(self, rhs: Bitboard) -> bool {
        true
    }

    open spec fn bitor_spec(self, rhs: Bitboard) -> Bitboard {
        Bitboard(self.0 | rhs.0)
    }
}

impl BitXor for Bitboard {
    type Output = Self;

    fn bitxor(self, rhs: Self) -> (r: Self::Output)
        ensures
            r.0 == self.0 ^ rhs.0,
    {
        Bitboard(self.0 ^ rhs.0)
    }
}

impl vstd::std_specs::ops::BitXorSpecImpl for Bitboard {
    open spec fn obeys_bitxor_spec() -> bool {
        true
    }

    open spec fn bitxor_req(self, rhs: Bitboard) -> bool {
        true
    }

    open spec fn bitxor_spec(self, rhs: Bitboard) -> Bitboard {
        Bitboard(self.0 ^ rhs.0)
    }
}

impl Not for Bitboard {
    type Output = Self;

    fn not(self) -> (r: Self::Output)
        ensures
            r.0 == !self.0,
    {
        Bitboard(!self.0)
    }
}

impl vstd::std_specs::ops::NotSpecImpl for Bitboard {
    open spec fn obeys_not_spec() -> bool {
        true
    }

    open spec fn not_req(self) -> bool {
        true
    }

    open spec fn not_spec(self) -> Bitboard {
        Bitboard(!self.0)
    }
}

impl BitAndAssign for Bitboard {
    fn bitand_assign(&mut self, rhs: Self)
        ensures
            final(self).0 == old(self).0 & rhs.0,
    {
        self.0 = self.0 & rhs.0;
    }
}

impl BitOrAssign for Bitboard {
    fn bitor_assign(&mut self, rhs: Self)
        ensures
            final(self).0 == old(self).0 | rhs.0,
    {
        self.0 = self.0 | rhs.0;
    }
}

impl BitXorAssign for Bitboard {
    fn bitxor_assign(&mut self, rhs: Self)
        ensures
            final(self).0 == old(self).0 ^ rhs.0,
    {
        self.0 = self.0 ^ rhs.0;
    }
}

impl Shl<u8> for Bitboard {
    type Output = Self;

    fn shl(self, rhs: u8) -> (r: Self::Output)
        ensures
            r.0 == self.0 << rhs,
    {
        Bitboard(self.0 << rhs)
    }
}

impl vstd::std_specs::ops::ShlSpecImpl<u8> for Bitboard {
    open spec fn obeys_shl_spec() -> bool {
        true
    }

    open spec fn shl_req(self, rhs: u8) -> bool {
        rhs < 64
    }

    open spec fn shl_spec(self, rhs: u8) -> Bitboard {
        Bitboard(self.0 << rhs)
    }
}

impl Shr<u8> for Bitboard {
    type Output = Self;

    fn shr(self, rhs: u8) -> (r: Self::Output)
        ensures
            r.0 == self.0 >> rhs,
    {
        Bitboard(self.0 >> rhs)
    }
}

impl vstd::std_specs::ops::ShrSpecImpl<u8> for Bitboard {
    open spec fn obeys_shr_spec() -> bool {
        true
    }

    open spec fn shr_req(self, rhs: u8) -> bool {
        rhs < 64
    }

    open spec fn shr_spec(self, rhs: u8) -> Bitboard {
        Bitboard(self.0 >> rhs)
    }
}

pub const FILE_A: u64 = 0x0101010101010101;
pub const FILE_B: u64 = 0x0202020202020202;
pub const FILE_C: u64 = 0x0404040404040404;
pub const FILE_D: u64 = 0x0808080808080808;
pub const FILE_E: u64 = 0x1010101010101010;
pub const FILE_F: u64 = 0x2020202020202020;
pub const FILE_G: u64 = 0x4040404040404040;
pub const FILE_H: u64 = 0x8080808080808080;

pub const RANK_1: u64 = 0x00000000000000FF;
pub const RANK_2: u64 = 0x000000000000FF00;
pub const RANK_3: u64 = 0x0000000000FF0000;
pub const RANK_4: u64 = 0x00000000FF000000;
pub const RANK_5: u64 = 0x000000FF00000000;
pub const RANK_6: u64 = 0x0000FF0000000000;
pub const RANK_7: u64 = 0x00FF000000000000;
pub const RANK_8: u64 = 0xFF00000000000000;


/// The squares of the first, third, sixth and eighth ranks.
pub proof fn lemma_rank_bits(s: int)
    ensures
        bit_set(RANK_1, s) == (0 <= s < 8),
        bit_set(RANK_3, s) == (16 <= s < 24),
        bit_set(RANK_6, s) == (40 <= s < 48),
        bit_set(RANK_8, s) == (56 <= s < 64),
{
    if 0 <= s < 64 {
        rank_bits(s as u64);
    }
}

proof fn rank_bits(k: u64)
    by (bit_vector)
    requires
        k < 64,
    ensures
        ((0x00000000000000FFu64 >> k) & 1 == 1) == (k < 8),
        ((0x0000000000FF0000u64 >> k) & 1 == 1) == (16 <= k && k < 24),
        ((0x0000FF0000000000u64 >> k) & 1 == 1) == (40 <= k && k < 48),
        ((0xFF00000000000000u64 >> k) & 1 == 1) == (56 <= k),
{
}

} // verus!
