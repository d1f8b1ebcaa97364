//! Half-precision numbers written in single precision.
//!
//! Numbers are their bit patterns here: a `u16` for half precision, a `u32` for
//! single precision.
use vstd::arithmetic::power2::{lemma_pow2_adds, lemma2_to64, pow2};
use vstd::prelude::*;

verus! {

/// The absolute value of the half-precision number with exponent field `exp` and
/// mantissa `mant`, in units of 2 to the power of -149.
pub open spec fn half_magnitude(exp: int, mant: int) -> int {
    if exp == 0 {
        mant * pow2(125)
    } else {
        (1024 + mant) * pow2((exp + 124) as nat)
    }
}

/// The absolute value of the single-precision number with exponent field `exp` and
/// mantissa `mant`, in units of 2 to the power of -149.
pub open spec fn single_magnitude(exp: int, mant: int) -> int {
    if exp == 0 {
        mant
    } else {
        (0x80_0000 + mant) * pow2((exp - 1) as nat)
    }
}

/// Whether the single-precision pattern `bits` says what the half-precision pattern
/// `half` says: the same sign, and the same number, infinity, or not-a-number with
/// the same mantissa in its upper bits.
pub open spec fn widens(half: u16, bits: u32) -> bool {
    let (sign, exp, mant) = (half as int / 0x8000, half as int / 0x400 % 32, half as int % 0x400);
    let (s, e, m) = (
        bits as int / 0x8000_0000,
        bits as int / 0x80_0000 % 256,
        bits as int % 0x80_0000,
    );
    &&& s == sign
    &&& if exp == 31 {
        e == 255 && m == mant * 0x2000
    } else {
        e < 255 && single_magnitude(e, m) == half_magnitude(exp, mant)
    }
}

proof fn lemma_fields(sign: int, exp: int, mant: int)
    requires
        0 <= sign <= 1,
        0 <= exp < 256,
        0 <= mant < 0x80_0000,
    ensures
        ({
            let bits = sign * 0x8000_0000 + exp * 0x80_0000 + mant;
            &&& 0 <= bits <= u32::MAX
            &&& bits / 0x8000_0000 == sign
            &&& bits / 0x80_0000 % 256 == exp
            &&& bits % 0x80_0000 == mant
        }),
{
}

/// Single precision keeps the number where the mantissa is moved up by 13 bits.
proof fn lemma_scaled(whole: int, mant: int, e: int, k: int)
    requires
        0 <= k <= 10,
        113 - k >= 1,
        whole == 1024 + mant,
        0 <= mant < 1024,
        e == 113 - k,
    ensures
        single_magnitude(e, mant * 0x2000) == whole * pow2((125 - k) as nat),
{
    lemma_pow2_adds(13, (112 - k) as nat);
    lemma2_to64();
    let p = pow2((112 - k) as nat) as int;
    assert((0x80_0000 + mant * 0x2000) * p == whole * (0x2000 * p)) by (nonlinear_arith)
        requires
            whole == 1024 + mant,
    ;
}

/// Writes a half-precision number in single precision.
pub fn f16_to_f32(half: u16) -> (bits: u32)
    ensures
        widens(half, bits),
{
    let sign: u32 = (half / 0x8000) as u32;
    let exp: u32 = (half / 0x400 % 32) as u32;
    let mant: u32 = (half % 0x400) as u32;
    if exp == 0 {
        if mant == 0 {
            proof {
                lemma_fields(sign as int, 0, 0);
                assert(0 * pow2(125) == 0);
            }
            sign * 0x8000_0000
        } else {
            let mut m: u32 = mant;
            let mut k: u32 = 0;
            assert(pow2(0) == 1) by {
                lemma2_to64();
            }
            while m < 0x400
                invariant
                    0 < mant < 0x400,
                    0 < m < 0x800,
                    k <= 10,
                    m == mant * pow2(k as nat),
                    k == 10 ==> m >= 0x400,
                decreases 10 - k,
            {
                proof {
                    lemma_pow2_adds(k as nat, 1);
                    lemma2_to64();
                    let p = pow2(k as nat) as int;
                    assert(mant * (p * 2) == mant * p * 2) by (nonlinear_arith);
                    if k == 9 {
                        assert(mant * 1024 >= 1024);
                    }
                }
                m = m * 2;
                k = k + 1;
            }
            let e: u32 = 113 - k;
            let rest: u32 = m - 0x400;
            proof {
                lemma_fields(sign as int, e as int, rest * 0x2000);
                lemma_scaled(m as int, rest as int, e as int, k as int);
                lemma_pow2_adds(k as nat, (125 - k) as nat);
                let (p, q) = (pow2(k as nat) as int, pow2((125 - k) as nat) as int);
                assert(mant * p * q == mant * (p * q)) by (nonlinear_arith);
            }
            sign * 0x8000_0000 + e * 0x80_0000 + rest * 0x2000
        }
    } else if exp == 31 {
        proof {
            lemma_fields(sign as int, 255, mant * 0x2000);
        }
        sign * 0x8000_0000 + 0x7F80_0000 + mant * 0x2000
    } else {
        let e: u32 = exp + 112;
        proof {
            lemma_fields(sign as int, e as int, mant * 0x2000);
            lemma_pow2_adds(13, (exp + 111) as nat);
            lemma2_to64();
            let p = pow2((exp + 111) as nat) as int;
            assert((0x80_0000 + mant * 0x2000) * p == (1024 + mant) * (0x2000 * p))
                by (nonlinear_arith);
        }
        sign * 0x8000_0000 + e * 0x80_0000 + mant * 0x2000
    }
}

/// Writes a number in brain floating point, which is the upper half of a
/// single-precision number, in single precision.
pub fn bf16_to_f32(half: u16) -> (bits: u32)
    ensures
        bits == half * 0x1_0000,
{
    half as u32 * 0x1_0000
}

/// A number that is neither below the smallest normal number nor infinite keeps its sign
/// and mantissa, and its exponent is moved by the difference of the two biases.
pub proof fn normal_numbers_move_their_exponent(half: u16, sign: int, exp: int, mant: int)
    requires
        half == sign * 0x8000 + exp * 0x400 + mant,
        0 <= sign <= 1,
        1 <= exp <= 30,
        0 <= mant < 0x400,
    ensures
        0 <= sign * 0x8000_0000 + (exp - 15 + 127) * 0x80_0000 + mant * 0x2000 <= u32::MAX,
        widens(
            half,
            (sign * 0x8000_0000 + (exp - 15 + 127) * 0x80_0000 + mant * 0x2000) as u32,
        ),
{
    lemma_fields(sign, exp + 112, mant * 0x2000);
    lemma_pow2_adds(13, (exp + 111) as nat);
    lemma2_to64();
    let p = pow2((exp + 111) as nat) as int;
    assert((0x80_0000 + mant * 0x2000) * p == (1024 + mant) * (0x2000 * p)) by (nonlinear_arith);
}

/// Infinities stay infinite, and what is no number stays none, with its mantissa in the
/// upper bits.
pub proof fn infinities_stay_infinite(half: u16, sign: int, mant: int)
    requires
        half == sign * 0x8000 + 31 * 0x400 + mant,
        0 <= sign <= 1,
        0 <= mant < 0x400,
    ensures
        0 <= sign * 0x8000_0000 + 255 * 0x80_0000 + mant * 0x2000 <= u32::MAX,
        widens(half, (sign * 0x8000_0000 + 255 * 0x80_0000 + mant * 0x2000) as u32),
{
    lemma_fields(sign, 255, mant * 0x2000);
}

/// Numbers go on below the smallest normal one in even steps: in both precisions they are
/// multiples of the smallest number, the smallest normal number is as many of these as a
/// mantissa can count, and one more in the exponent doubles a number.
pub proof fn small_numbers_are_even_steps(exp: int, mant: int)
    requires
        1 <= exp,
        0 <= mant,
    ensures
        half_magnitude(0, mant) == mant * half_magnitude(0, 1),
        half_magnitude(1, 0) == 0x400 * half_magnitude(0, 1),
        half_magnitude(1, mant) == half_magnitude(1, 0) + half_magnitude(0, mant),
        half_magnitude(exp + 1, mant) == 2 * half_magnitude(exp, mant),
        single_magnitude(0, mant) == mant * single_magnitude(0, 1),
        single_magnitude(1, 0) == 0x80_0000 * single_magnitude(0, 1),
        single_magnitude(1, mant) == single_magnitude(1, 0) + single_magnitude(0, mant),
        single_magnitude(exp + 1, mant) == 2 * single_magnitude(exp, mant),
        half_magnitude(15, 0) == single_magnitude(127, 0),
{
    lemma2_to64();
    lemma_pow2_adds(1, (exp + 124) as nat);
    lemma_pow2_adds(1, (exp - 1) as nat);
    lemma_pow2_adds(13, 126);
    let (p, q) = (pow2((exp + 124) as nat) as int, pow2((exp - 1) as nat) as int);
    assert((1024 + mant) * (2 * p) == 2 * ((1024 + mant) * p)) by (nonlinear_arith);
    assert((0x80_0000 + mant) * (2 * q) == 2 * ((0x80_0000 + mant) * q)) by (nonlinear_arith);
    let s = pow2(125) as int;
    assert((1024 + mant) * s == 1024 * s + mant * s) by (nonlinear_arith);
    assert(1 * s == s);
}

} // verus!
