//! Conversion of 16-bit signed PCM samples to normalized single-precision
//! floats.
//!
//! A float is handled here as its IEEE-754 binary32 bit pattern (a `u32`), so
//! that the conversion is integer arithmetic from end to end. A sample `x`
//! becomes the float `x / 32768`, which is always exactly representable: its
//! magnitude has at most 16 significant bits and its exponent lies between
//! -15 and 0. `f32::from_bits` turns the pattern into the float.

use vstd::arithmetic::power2::{
    lemma2_to64, lemma_pow2_adds, lemma_pow2_pos, lemma_pow2_strictly_increases,
    lemma_pow2_unfold, pow2,
};
use vstd::prelude::*;

verus! {

/// The absolute value of a sample, between 0 and 32768.
pub open spec fn magnitude(x: i16) -> nat {
    if x < 0 {
        (-(x as int)) as nat
    } else {
        x as nat
    }
}

/// The position of the highest set bit of `m` (0 for `m < 2`).
pub open spec fn top_bit(m: nat) -> nat
    decreases m,
{
    if m < 2 {
        0
    } else {
        1 + top_bit(m / 2)
    }
}

/// The binary32 bit pattern of `x / 32768`.
///
/// Zero maps to `+0.0`. Otherwise, with `k` the highest set bit of the
/// magnitude `m`, the float is `m / 2^k * 2^(k - 15)`: the biased exponent is
/// `127 + k - 15` and the 23 fraction bits hold `m - 2^k` shifted to the top.
pub open spec fn f32_bits(x: i16) -> u32 {
    if x == 0 {
        0u32
    } else {
        let m = magnitude(x);
        let k = top_bit(m);
        let sign: nat = if x < 0 {
            0x8000_0000
        } else {
            0
        };
        (sign + (112 + k) * 0x80_0000 + (m - pow2(k)) * pow2((23 - k) as nat)) as u32
    }
}

/// The bit patterns of a sequence of samples.
pub open spec fn f32_bits_seq(s: Seq<i16>) -> Seq<u32> {
    Seq::new(s.len(), |i: int| f32_bits(s[i]))
}

/// The sign bit of a binary32 pattern.
pub open spec fn f32_sign(bits: u32) -> bool {
    bits >= 0x8000_0000
}

/// The biased exponent field of a binary32 pattern.
pub open spec fn f32_exponent(bits: u32) -> nat {
    ((bits / 0x80_0000) % 256) as nat
}

/// The fraction field of a binary32 pattern.
pub open spec fn f32_fraction(bits: u32) -> nat {
    (bits % 0x80_0000) as nat
}

/// Neither an infinity nor a NaN.
pub open spec fn f32_is_finite(bits: u32) -> bool {
    f32_exponent(bits) != 255
}

/// The magnitude of the finite float with this pattern, counted in units of
/// `2^-149` (the smallest subnormal), which makes it a natural number.
pub open spec fn f32_magnitude(bits: u32) -> nat {
    if f32_exponent(bits) == 0 {
        f32_fraction(bits)
    } else {
        (0x80_0000 + f32_fraction(bits)) * pow2((f32_exponent(bits) - 1) as nat)
    }
}

proof fn lemma_top_bit_bounds(m: nat)
    requires
        m >= 1,
    ensures
        pow2(top_bit(m)) <= m < pow2(top_bit(m) + 1),
    decreases m,
{
    lemma2_to64();
    if m >= 2 {
        lemma_top_bit_bounds(m / 2);
        lemma_pow2_unfold(top_bit(m));
        lemma_pow2_unfold(top_bit(m) + 1);
    }
}

proof fn lemma_top_bit_of(m: nat, k: nat)
    requires
        pow2(k) <= m < pow2(k + 1),
    ensures
        top_bit(m) == k,
{
    lemma_pow2_pos(k);
    lemma_top_bit_bounds(m);
    let t = top_bit(m);
    if t < k {
        if t + 1 < k {
            lemma_pow2_strictly_increases(t + 1, k);
        }
    } else if k < t {
        if k + 1 < t {
            lemma_pow2_strictly_increases(k + 1, t);
        }
    }
}

proof fn lemma_top_bit_double(m: nat)
    requires
        m >= 1,
    ensures
        top_bit(2 * m) == top_bit(m) + 1,
{
    assert((2 * m) / 2 == m);
}

/// The fields of `f32_bits(x)` for a sample other than zero.
proof fn lemma_f32_bits_fields(x: i16)
    requires
        x != 0,
    ensures
        top_bit(magnitude(x)) <= 15,
        f32_sign(f32_bits(x)) == (x < 0),
        f32_exponent(f32_bits(x)) == 112 + top_bit(magnitude(x)),
        f32_fraction(f32_bits(x)) == (magnitude(x) - pow2(top_bit(magnitude(x)))) * pow2(
            (23 - top_bit(magnitude(x))) as nat,
        ),
        f32_fraction(f32_bits(x)) + 0x80_0000 == magnitude(x) * pow2(
            (23 - top_bit(magnitude(x))) as nat,
        ),
{
    let m = magnitude(x);
    let k = top_bit(m);
    lemma2_to64();
    lemma_top_bit_bounds(m);
    if k > 15 {
        if k > 16 {
            lemma_pow2_strictly_increases(16, k);
        }
        assert(false);
    }
    let up = (23 - k) as nat;
    let low = (m - pow2(k)) as nat;
    lemma_pow2_adds(k, up);
    lemma_pow2_pos(up);
    lemma_pow2_unfold(k + 1);
    let frac = low * pow2(up);
    assert(frac + 0x80_0000 == m * pow2(up)) by (nonlinear_arith)
        requires
            frac == low * pow2(up),
            low == m - pow2(k),
            pow2(k) * pow2(up) == 0x80_0000,
    ;
    assert(frac < 0x80_0000) by (nonlinear_arith)
        requires
            frac == low * pow2(up),
            low < pow2(k),
            pow2(up) > 0,
            pow2(k) * pow2(up) == 0x80_0000,
    ;
    let sign: nat = if x < 0 {
        0x8000_0000
    } else {
        0
    };
    let e = 112 + k;
    let total = sign + e * 0x80_0000 + frac;
    assert(total == f32_bits(x));
    assert(total / 0x80_0000 == (if x < 0 {
        256 + e
    } else {
        e
    }));
}

/// The float with pattern `f32_bits(x)` is `x / 32768`: it is finite, it is
/// negative exactly when `x` is, and its magnitude in units of `2^-149` is
/// `|x| * 2^134`, that is `|x| / 2^15`.
pub proof fn lemma_f32_bits_value(x: i16)
    ensures
        f32_is_finite(f32_bits(x)),
        f32_sign(f32_bits(x)) == (x < 0),
        f32_magnitude(f32_bits(x)) == magnitude(x) * pow2(134),
{
    if x != 0 {
        let m = magnitude(x);
        let k = top_bit(m);
        let up = (23 - k) as nat;
        lemma_f32_bits_fields(x);
        lemma_pow2_adds(up, 111 + k);
        assert(up + (111 + k) == 134);
        assert((m * pow2(up)) * pow2(111 + k) == m * pow2(134)) by (nonlinear_arith)
            requires
                pow2(up) * pow2(111 + k) == pow2(134),
        ;
        assert((f32_exponent(f32_bits(x)) - 1) as nat == 111 + k);
    } else {
        assert(f32_magnitude(0u32) == 0);
        assert(0 * pow2(134) == 0);
    }
}

/// Two samples with the same bit pattern are the same sample.
pub proof fn lemma_f32_bits_injective(x: i16, y: i16)
    requires
        f32_bits(x) == f32_bits(y),
    ensures
        x == y,
{
    lemma_f32_bits_value(x);
    lemma_f32_bits_value(y);
    lemma_pow2_pos(134);
    if x != 0 {
        lemma_f32_bits_fields(x);
    }
    if y != 0 {
        lemma_f32_bits_fields(y);
    }
    assert(magnitude(x) == magnitude(y)) by (nonlinear_arith)
        requires
            magnitude(x) * pow2(134) == magnitude(y) * pow2(134),
            pow2(134) > 0,
    ;
}

/// Conversion goes sample by sample: converting a run of samples in pieces,
/// of whatever sizes, gives what converting it whole gives.
pub proof fn lemma_f32_bits_seq_concat(a: Seq<i16>, b: Seq<i16>)
    ensures
        f32_bits_seq(a + b) == f32_bits_seq(a) + f32_bits_seq(b),
{
    assert(f32_bits_seq(a + b) =~= f32_bits_seq(a) + f32_bits_seq(b));
}

/// Converts one sample: the bit pattern of `x / 32768`.
pub fn pcm16_to_f32_bits(x: i16) -> (bits: u32)
    ensures
        bits == f32_bits(x),
{
    if x == 0 {
        return 0;
    }
    let negative = x < 0;
    let wide: i32 = x as i32;
    let mag: u32 = if negative {
        (-wide) as u32
    } else {
        wide as u32
    };
    let mut m: u32 = mag;
    let mut e: u32 = 127;
    proof {
        lemma2_to64();
        lemma_f32_bits_fields(x);
        assert(mag * pow2(0) == mag) by (nonlinear_arith)
            requires
                pow2(0) == 1,
        ;
    }
    while m < 0x8000
        invariant
            mag == magnitude(x),
            1 <= mag <= 0x8000,
            1 <= m < 0x1_0000,
            e <= 127,
            top_bit(mag as nat) <= 15,
            top_bit(m as nat) == top_bit(mag as nat) + (127 - e),
            top_bit(m as nat) <= 15,
            m == mag * pow2((127 - e) as nat),
        decreases 0x1_0000 - m,
    {
        proof {
            lemma_top_bit_double(m as nat);
            lemma_top_bit_bounds(m as nat);
            lemma_top_bit_of(m as nat, top_bit(m as nat));
            if top_bit(m as nat) == 15 {
                lemma2_to64();
                assert(false);
            }
            lemma_pow2_unfold((127 - e + 1) as nat);
            assert(2 * (mag * pow2((127 - e) as nat)) == mag * (2 * pow2((127 - e) as nat)))
                by (nonlinear_arith);
        }
        m = m * 2;
        e = e - 1;
    }
    let frac: u32 = (m - 0x8000) * 256;
    let sign: u32 = if negative {
        0x8000_0000
    } else {
        0
    };
    proof {
        let k = top_bit(mag as nat);
        let s = (127 - e) as nat;
        lemma2_to64();
        lemma_top_bit_of(m as nat, 15);
        assert(k + s == 15);
        let up = (23 - k) as nat;
        assert(up == 8 + s);
        lemma_pow2_adds(s, 8);
        lemma_pow2_adds(k, up);
        assert(frac == (mag - pow2(k)) * pow2(up)) by (nonlinear_arith)
            requires
                frac == (m - 0x8000) * 256,
                m == mag * pow2(s),
                pow2(up) == pow2(s) * 256,
                pow2(k) * pow2(up) == 0x80_0000,
        ;
        assert(e == 112 + k);
    }
    sign + e * 0x80_0000 + frac
}

/// Writes the bit pattern of `data[i] / 32768` to `target[at + i]` for every
/// index of `data`; the rest of `target` keeps its contents.
pub fn convert_pcm16_to_f32_at(data: &[i16], target: &mut [u32], at: usize)
    requires
        at + data@.len() <= old(target)@.len(),
    ensures
        final(target)@.len() == old(target)@.len(),
        final(target)@.subrange(at as int, at + data@.len()) == f32_bits_seq(data@),
        forall|j: int|
            0 <= j < at || at + data@.len() <= j < old(target)@.len() ==> final(target)@[j] == old(
                target,
            )@[j],
{
    let n: usize = data.len();
    let room: usize = target.len();
    let mut i: usize = 0;
    while i < n
        invariant
            i <= n,
            n == data@.len(),
            target@.len() == old(target)@.len(),
            at + n <= target@.len() == room,
            forall|j: int| 0 <= j < i ==> target@[at + j] == f32_bits(#[trigger] data@[j]),
            forall|j: int|
                0 <= j < at || at + n <= j < target@.len() ==> target@[j] == old(target)@[j],
        decreases n - i,
    {
        let k: usize = at + i;
        target[k] = pcm16_to_f32_bits(data[i]);
        i += 1;
    }
    assert(target@.subrange(at as int, at + n) =~= f32_bits_seq(data@));
}

/// Writes the bit pattern of `data[i] / 32768` to `target[i]` for every index
/// of `data`; the rest of `target` keeps its contents.
pub fn convert_pcm16_to_f32(data: &[i16], target: &mut [u32])
    requires
        old(target)@.len() >= data@.len(),
    ensures
        final(target)@.len() == old(target)@.len(),
        final(target)@.take(data@.len() as int) == f32_bits_seq(data@),
        final(target)@.skip(data@.len() as int) == old(target)@.skip(data@.len() as int),
{
    convert_pcm16_to_f32_at(data, target, 0);
    assert(target@.take(data@.len() as int) =~= target@.subrange(0int, 0int + data@.len()));
    assert(target@.skip(data@.len() as int) =~= old(target)@.skip(data@.len() as int));
}

} // verus!
