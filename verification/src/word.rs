//! The numerical width adapter: big-endian words of 1, 2, 4 or 8 bytes,
//! widened to a canonical unsigned 64-bit ("naive") bit pattern by
//! right-aligning the bytes.

use vstd::prelude::*;
use vstd::arithmetic::div_mod::{
    lemma_div_denominator, lemma_fundamental_div_mod, lemma_fundamental_div_mod_converse,
    lemma_multiply_divide_lt,
};
use vstd::arithmetic::power2::{
    lemma2_to64, lemma_pow2_adds, lemma_pow2_pos, lemma_pow2_strictly_increases, pow2,
};

verus! {

/// A width is one of 1, 2, 4 or 8 bytes (the B, S, I and L suffixes).
pub open spec fn valid_width(w: nat) -> bool {
    w == 1 || w == 2 || w == 4 || w == 8
}

/// The unsigned value of a byte sequence read in big-endian order.
pub open spec fn be_val(s: Seq<u8>) -> nat
    decreases s.len(),
{
    if s.len() == 0 {
        0
    } else {
        be_val(s.drop_last()) * 256 + s.last() as nat
    }
}

/// The `w` low-order bytes of `v`, most significant first.
pub open spec fn be_rep(v: nat, w: nat) -> Seq<u8>
    decreases w,
{
    if w == 0 {
        Seq::empty()
    } else {
        be_rep(v / 256, (w - 1) as nat).push((v % 256) as u8)
    }
}

/// The signed value of a naive 64-bit pattern.
pub open spec fn sgn64(v: nat) -> int {
    if v < 0x8000000000000000 {
        v as int
    } else {
        v as int - 0x10000000000000000
    }
}

/// The signed value of an 8-bit pattern.
pub open spec fn sgn8(v: nat) -> int {
    if v < 0x80 {
        v as int
    } else {
        v as int - 0x100
    }
}

/// The naive 64-bit pattern of a signed 64-bit value.
pub open spec fn u64_of(x: int) -> nat {
    if x >= 0 {
        x as nat
    } else {
        (x + 0x10000000000000000) as nat
    }
}

/// The signed reading of a naive 64-bit pattern.
pub fn to_signed(v: u64) -> (r: i64)
    ensures
        r as int == sgn64(v as nat),
{
    if v >= 0x8000000000000000 {
        -((0xFFFFFFFFFFFFFFFFu64 - v) as i64) - 1
    } else {
        v as i64
    }
}

/// The signed reading of an 8-bit pattern.
pub fn to_signed8(v: u64) -> (r: i64)
    requires
        v < 256,
    ensures
        r as int == sgn8(v as nat),
        -128 <= r <= 127,
{
    if v >= 128 {
        (v as i64) - 256
    } else {
        v as i64
    }
}

/// The naive 64-bit pattern of a signed value.
pub fn from_signed(x: i64) -> (r: u64)
    ensures
        r as nat == u64_of(x as int),
{
    if x >= 0 {
        x as u64
    } else {
        0xFFFFFFFFFFFFFFFFu64 - ((-(x + 1)) as u64)
    }
}

/// `2^k` as a 128-bit value.
pub fn pow2_128(k: usize) -> (r: u128)
    requires
        k <= 64,
    ensures
        r as nat == pow2(k as nat),
{
    proof {
        lemma2_to64();
        vstd::arithmetic::power2::lemma2_to64_rest();
    }
    let mut r: u128 = 1;
    let mut i: usize = 0;
    while i < k
        invariant
            0 <= i <= k <= 64,
            r as nat == pow2(i as nat),
        decreases k - i,
    {
        proof {
            lemma2_to64();
            vstd::arithmetic::power2::lemma2_to64_rest();
            if (i as nat) < 64 {
                lemma_pow2_strictly_increases(i as nat, 64);
            }
            lemma_pow2_adds(i as nat, 1);
        }
        r = r * 2;
        i = i + 1;
    }
    r
}

/// Reading a signed value back out of its naive pattern is the identity.
pub proof fn lemma_sgn64_u64_of(x: int)
    requires
        i64::MIN <= x <= i64::MAX,
    ensures
        sgn64(u64_of(x)) == x,
{
}

pub proof fn lemma_be_rep_len(v: nat, w: nat)
    ensures
        be_rep(v, w).len() == w,
    decreases w,
{
    if w > 0 {
        lemma_be_rep_len(v / 256, (w - 1) as nat);
    }
}

pub proof fn lemma_be_val_bound(s: Seq<u8>)
    ensures
        be_val(s) < pow2(8 * s.len()),
    decreases s.len(),
{
    lemma2_to64();
    if s.len() > 0 {
        lemma_be_val_bound(s.drop_last());
        lemma_pow2_adds(8 * (s.len() - 1) as nat, 8);
    }
}

/// Reading back the representation of a value below `2^(8w)` is the identity:
/// a value stored at width `w` round-trips bit-exact.
pub proof fn lemma_be_val_rep(v: nat, w: nat)
    requires
        v < pow2(8 * w),
    ensures
        be_val(be_rep(v, w)) == v,
    decreases w,
{
    lemma2_to64();
    if w == 0 {
    } else {
        let q = v / 256;
        let r = v % 256;
        lemma_fundamental_div_mod(v as int, 256);
        lemma_pow2_adds(8 * (w - 1) as nat, 8);
        assert(pow2(8 * w) == pow2(8 * (w - 1) as nat) * 256);
        lemma_multiply_divide_lt(v as int, pow2(8 * (w - 1) as nat) as int, 256);
        assert(q < pow2(8 * (w - 1) as nat));
        lemma_be_val_rep(q, (w - 1) as nat);
        lemma_be_rep_len(q, (w - 1) as nat);
        assert(be_rep(v, w).drop_last() =~= be_rep(q, (w - 1) as nat));
        assert(be_val(be_rep(v, w)) == be_val(be_rep(q, (w - 1) as nat)) * 256 + r);
    }
}

/// Representing the value of a byte sequence reproduces the bytes:
/// the big-endian layout in memory is canonical.
pub proof fn lemma_be_rep_of_val(s: Seq<u8>)
    ensures
        be_rep(be_val(s), s.len()) == s,
    decreases s.len(),
{
    if s.len() > 0 {
        let d = s.drop_last();
        let v = be_val(s);
        lemma_be_rep_of_val(d);
        lemma_fundamental_div_mod_converse(v as int, 256, be_val(d) as int, s.last() as int);
        assert(v / 256 == be_val(d) && v % 256 == s.last());
        assert(be_rep(v, s.len()) =~= s);
    } else {
        assert(be_rep(be_val(s), s.len()) =~= s);
    }
}

/// The byte at index `j` of the representation of `v`.
pub proof fn lemma_be_rep_index(v: nat, w: nat, j: int)
    requires
        0 <= j < w,
    ensures
        be_rep(v, w)[j] == ((v / pow2(8 * (w - 1 - j) as nat)) % 256) as u8,
    decreases w,
{
    lemma2_to64();
    lemma_be_rep_len(v / 256, (w - 1) as nat);
    if j == w - 1 {
        assert(pow2(0) == 1);
        assert(v / 1 == v);
    } else {
        lemma_be_rep_index(v / 256, (w - 1) as nat, j);
        let k = (w - 2 - j) as nat;
        lemma_pow2_pos(8 * k);
        lemma_pow2_adds(8, 8 * k);
        lemma_div_denominator(v as int, 256, pow2(8 * k) as int);
        assert(v / 256 / pow2(8 * k) == v / (256 * pow2(8 * k)));
        assert(256 * pow2(8 * k) == pow2(8 * (w - 1 - j) as nat));
    }
}

/// `mem` with the `w` bytes at `pos` replaced by the representation of `v`.
pub open spec fn wr_mem(mem: Seq<u8>, pos: int, w: nat, v: nat) -> Seq<u8> {
    mem.take(pos).add(be_rep(v, w)).add(mem.skip(pos + w))
}

pub proof fn lemma_wr_mem(mem: Seq<u8>, pos: int, w: nat, v: nat)
    requires
        0 <= pos,
        pos + w <= mem.len(),
    ensures
        wr_mem(mem, pos, w, v).len() == mem.len(),
        wr_mem(mem, pos, w, v).subrange(pos, pos + w) == be_rep(v, w),
        forall|i: int|
            0 <= i < mem.len() && !(pos <= i < pos + w) ==> wr_mem(mem, pos, w, v)[i] == mem[i],
{
    lemma_be_rep_len(v, w);
    assert(wr_mem(mem, pos, w, v).subrange(pos, pos + w) =~= be_rep(v, w));
}

} // verus!
