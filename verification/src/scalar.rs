//! Scalar approximate-equality comparisons over IEEE 754 binary32 bit
//! patterns.
//!
//! A scalar is carried as the `u32` bit pattern of a binary32 value:
//! 1 sign bit, 8 biased exponent bits, 23 fraction bits.  Every finite
//! value is an integer multiple of 2^-149, so exact statements about
//! differences of values become statements about (unbounded) integers.
//! Throughout, magnitudes are measured in units of 2^-150 ("twice the
//! magnitude in units of 2^-149"), which keeps the rounding cutoff used
//! by `spec_abs_diff_eq` an integer as well.

use vstd::arithmetic::div_mod::*;
use vstd::arithmetic::mul::*;
use vstd::arithmetic::power2::*;
use vstd::bits::*;
use vstd::math::abs;
use vstd::prelude::*;

verus! {

/// Bit pattern of positive infinity.
pub const INFINITY_BITS: u32 = 0x7f80_0000;

/// Sign bit of a scalar's bit pattern.
pub open spec fn sign_bit(x: u32) -> bool {
    x & 0x8000_0000 != 0
}

/// Biased exponent field (8 bits).
pub open spec fn biased_exp(x: u32) -> u32 {
    (x >> 23) & 0xff
}

/// Fraction field (23 bits).
pub open spec fn frac_field(x: u32) -> u32 {
    x & 0x7f_ffff
}

/// Not a number: exponent field all ones, fraction nonzero.
pub open spec fn is_nan(x: u32) -> bool {
    biased_exp(x) == 0xff && frac_field(x) != 0
}

/// Positive or negative infinity.
pub open spec fn is_infinite(x: u32) -> bool {
    biased_exp(x) == 0xff && frac_field(x) == 0
}

/// Neither infinite nor a NaN.
pub open spec fn is_finite(x: u32) -> bool {
    biased_exp(x) != 0xff
}

/// Integer significand: the fraction with the implicit leading bit added
/// for normal values.
pub open spec fn mantissa(x: u32) -> int {
    if biased_exp(x) == 0 {
        frac_field(x) as int
    } else {
        frac_field(x) + 0x80_0000
    }
}

/// Power-of-two scale of the significand, shifted so that the smallest
/// (subnormal) scale is 0: the magnitude of a finite `x` is
/// `mantissa(x) * 2^(pexp(x)) * 2^-149`.
pub open spec fn pexp(x: u32) -> nat {
    if biased_exp(x) == 0 {
        0
    } else {
        (biased_exp(x) - 1) as nat
    }
}

/// Twice the magnitude of the value `x` encodes, in units of 2^-149.
/// Also meaningful for infinities, which this measure places above every
/// finite value.
pub open spec fn mag2(x: u32) -> int {
    2 * mantissa(x) * pow2(pexp(x))
}

/// Twice the exact absolute difference `|a - b|`, in units of 2^-149,
/// for finite `a` and `b`.
pub open spec fn diff2(a: u32, b: u32) -> int {
    if sign_bit(a) == sign_bit(b) {
        abs(mag2(a) - mag2(b)) as int
    } else {
        mag2(a) + mag2(b)
    }
}

/// Twice the midpoint between the nonnegative finite value `e` and its
/// successor, in units of 2^-149.  A nonnegative real `d` rounds (to
/// nearest, ties to even significand) to a value at most `e` exactly when
/// `2 * d` is below this cutoff, or equal to it and the significand of
/// `e` is even.  This also covers rounding to infinity past the largest
/// finite value, whose cutoff is the IEEE overflow threshold.
pub open spec fn cutoff2(e: u32) -> int {
    (2 * mantissa(e) + 1) * pow2(pexp(e))
}

/// Exact description of the scalar absolute-difference comparison: the
/// binary32 difference `a - b` (rounded to nearest, ties to even), taken
/// in absolute value, is at most `epsilon` under the standard comparison
/// (false whenever a NaN appears, including the NaN that `a - b` yields
/// for two equal infinities).
pub open spec fn spec_abs_diff_eq(a: u32, b: u32, epsilon: u32) -> bool {
    if is_nan(a) || is_nan(b) || is_nan(epsilon) {
        false
    } else if is_infinite(a) || is_infinite(b) {
        // the difference is NaN for equal infinities, else +/- infinity
        if is_infinite(a) && is_infinite(b) && sign_bit(a) == sign_bit(b) {
            false
        } else {
            epsilon == INFINITY_BITS
        }
    } else if sign_bit(epsilon) && mag2(epsilon) != 0 {
        // a nonnegative magnitude never compares at most a negative value
        false
    } else if is_infinite(epsilon) {
        true
    } else {
        diff2(a, b) < cutoff2(epsilon) || (diff2(a, b) == cutoff2(epsilon) && epsilon % 2 == 0)
    }
}

/// Distance in representable steps between two same-sign scalars: the
/// absolute difference of their bit patterns.
pub open spec fn ulp_diff(a: u32, b: u32) -> int {
    abs(a as int - b as int) as int
}

/// Exact description of the scalar ULPs comparison: within `epsilon`
/// absolute difference, or of the same sign (NaN excluded) and at most
/// `max_ulps` representable steps apart.
pub open spec fn spec_ulps_eq(a: u32, b: u32, epsilon: u32, max_ulps: u32) -> bool {
    spec_ulps_only(a, b, max_ulps) || spec_abs_diff_eq(a, b, epsilon)
}

/// The pure step-distance half of the ULPs comparison.
pub open spec fn spec_ulps_only(a: u32, b: u32, max_ulps: u32) -> bool {
    !is_nan(a) && !is_nan(b) && sign_bit(a) == sign_bit(b) && ulp_diff(a, b) <= max_ulps
}

/// `x` encodes a nonnegative value (positive, +0.0 or -0.0, but not NaN).
pub open spec fn is_nonneg(x: u32) -> bool {
    !is_nan(x) && (!sign_bit(x) || mag2(x) == 0)
}

/// Standard (partial-order) comparison `x <= y` on the encoded values:
/// false whenever either is NaN, and -0.0 equals +0.0.
pub open spec fn scalar_le(x: u32, y: u32) -> bool {
    !is_nan(x) && !is_nan(y) && signed_mag2(x) <= signed_mag2(y)
}

/// Twice the signed value `x` encodes, in units of 2^-149 (infinities
/// included, beyond every finite value).
pub open spec fn signed_mag2(x: u32) -> int {
    if sign_bit(x) {
        -mag2(x)
    } else {
        mag2(x)
    }
}

fn nan_bits(x: u32) -> (r: bool)
    ensures
        r == is_nan(x),
{
    (x >> 23) & 0xff == 0xff && x & 0x7f_ffff != 0
}

fn inf_bits(x: u32) -> (r: bool)
    ensures
        r == is_infinite(x),
{
    (x >> 23) & 0xff == 0xff && x & 0x7f_ffff == 0
}

fn sign_of(x: u32) -> (r: bool)
    ensures
        r == sign_bit(x),
{
    x & 0x8000_0000 != 0
}

/// Split a finite bit pattern into integer significand and scale.
fn decompose(x: u32) -> (r: (u32, u32))
    requires
        is_finite(x),
    ensures
        r.0 == mantissa(x),
        r.1 == pexp(x),
        r.0 < 0x100_0000,
        r.1 <= 253,
{
    let be = (x >> 23) & 0xff;
    let f = x & 0x7f_ffff;
    proof {
        assert((x >> 23) & 0xff <= 0xff && x & 0x7f_ffff <= 0x7f_ffff) by (bit_vector);
    }
    if be == 0 {
        (f, 0)
    } else {
        (f + 0x80_0000, be - 1)
    }
}

proof fn lemma_mul_cmp_pos(x: int, y: int, c: int)
    requires
        c > 0,
    ensures
        (x * c < y * c) == (x < y),
        (x * c == y * c) == (x == y),
{
    assert((x * c < y * c) == (x < y)) by (nonlinear_arith)
        requires
            c > 0,
    ;
    assert((x * c == y * c) == (x == y)) by (nonlinear_arith)
        requires
            c > 0,
    ;
}

/// Three-way comparison of `m1 * 2^p1` with `m2 * 2^p2`, assuming
/// `p1 >= p2`: 0 for below, 1 for equal, 2 for above.
fn cmp_scaled_ge(m1: u64, p1: u32, m2: u64, p2: u32) -> (r: u8)
    requires
        m1 < 0x80_0000_0000_0000,
        m2 < 0x80_0000_0000_0000,
        p1 >= p2,
    ensures
        (r == 0) == (m1 * pow2(p1 as nat) < m2 * pow2(p2 as nat)),
        (r == 1) == (m1 * pow2(p1 as nat) == m2 * pow2(p2 as nat)),
        (r == 2) == (m1 * pow2(p1 as nat) > m2 * pow2(p2 as nat)),
{
    let s = p1 - p2;
    proof {
        lemma_pow2_adds(s as nat, p2 as nat);
        lemma_pow2_pos(p2 as nat);
        lemma_pow2_pos(s as nat);
        assert(m1 * pow2(p1 as nat) == (m1 * pow2(s as nat)) * pow2(p2 as nat)) by (nonlinear_arith)
            requires
                pow2(p1 as nat) == pow2(s as nat) * pow2(p2 as nat),
        ;
        lemma_mul_cmp_pos(m1 * pow2(s as nat), m2 as int, pow2(p2 as nat) as int);
    }
    if m1 == 0 && m2 == 0 {
        return 1;
    }
    if m1 == 0 {
        return 0;
    }
    if m2 == 0 {
        proof {
            assert(m1 * pow2(s as nat) > 0) by (nonlinear_arith)
                requires
                    m1 > 0,
                    pow2(s as nat) > 0,
            ;
        }
        return 2;
    }
    if s >= 55 {
        proof {
            lemma2_to64();
            lemma2_to64_rest();
            if s > 55 {
                lemma_pow2_strictly_increases(55, s as nat);
            }
            assert(m1 * pow2(s as nat) >= pow2(s as nat)) by (nonlinear_arith)
                requires
                    m1 >= 1,
                    pow2(s as nat) > 0,
            ;
        }
        return 2;
    }
    let bound = 1u64 << ((55 - s) as u64);
    proof {
        lemma2_to64();
        lemma2_to64_rest();
        if s > 0 {
            lemma_pow2_strictly_increases((55 - s) as nat, 55);
        }
        lemma_u64_shl_is_mul(1u64, (55 - s) as u64);
        lemma_pow2_adds((55 - s) as nat, s as nat);
    }
    if m1 >= bound {
        proof {
            assert(m1 * pow2(s as nat) >= pow2((55 - s) as nat) * pow2(s as nat)) by (nonlinear_arith)
                requires
                    m1 >= pow2((55 - s) as nat),
                    pow2(s as nat) > 0,
            ;
        }
        return 2;
    }
    proof {
        assert(m1 * pow2(s as nat) <= (pow2((55 - s) as nat) - 1) * pow2(s as nat)) by (nonlinear_arith)
            requires
                m1 <= pow2((55 - s) as nat) - 1,
                pow2(s as nat) > 0,
        ;
        assert((pow2((55 - s) as nat) - 1) * pow2(s as nat) == pow2(55) - pow2(s as nat)) by (nonlinear_arith)
            requires
                pow2((55 - s) as nat) * pow2(s as nat) == pow2(55),
        ;
        lemma_u64_shl_is_mul(m1, s as u64);
    }
    let l = m1 << (s as u64);
    if l < m2 {
        0
    } else if l == m2 {
        1
    } else {
        2
    }
}

/// Two multiples of `g` are never strictly within `g` of each other.
proof fn lemma_multiple_gap(x: int, t: int, g: int)
    requires
        g > 0,
        x % g == 0,
        t % g == 0,
    ensures
        x > t ==> x >= t + g,
        x < t ==> x + g <= t,
{
    lemma_fundamental_div_mod(x, g);
    lemma_fundamental_div_mod(t, g);
    assert((x > t ==> x >= t + g) && (x < t ==> x + g <= t)) by (nonlinear_arith)
        requires
            g > 0,
            x == g * (x / g),
            t == g * (t / g),
    ;
}

/// When two finite scalars are far apart in scale, the smaller one moves
/// the exact difference by less than the distance from the dominating
/// magnitude `x` to the nearest possible cutoff `t`, so the comparison is
/// decided by `x` alone, strictly.
proof fn lemma_far_compare(x: int, r: int, t: int, ph: nat, pe: nat, c: int)
    requires
        ph >= 4,
        x % (pow2((ph - 4) as nat) as int) == 0,
        x >= pow2((ph + 24) as nat),
        0 < r < pow2((ph - 4) as nat),
        t == c * pow2(pe),
        0 < c < pow2(25),
    ensures
        x <= t ==> x - r < t,
        x > t ==> x - r > t,
        x < t ==> x + r < t,
        x >= t ==> x + r > t,
{
    let g = pow2((ph - 4) as nat) as int;
    lemma_pow2_pos((ph - 4) as nat);
    if pe >= ph - 4 {
        lemma_pow2_adds((pe - (ph - 4)) as nat, (ph - 4) as nat);
        assert(t == (c * pow2((pe - (ph - 4)) as nat)) * g) by (nonlinear_arith)
            requires
                t == c * pow2(pe),
                pow2(pe) == pow2((pe - (ph - 4)) as nat) * pow2((ph - 4) as nat),
                g == pow2((ph - 4) as nat),
        ;
        lemma_mod_multiples_basic(c * pow2((pe - (ph - 4)) as nat) as int, g);
        lemma_multiple_gap(x, t, g);
    } else {
        // the cutoff is too small to be reached at all
        lemma2_to64();
        lemma_pow2_pos(pe);
        lemma_pow2_adds(25, (ph - 5) as nat);
        lemma_pow2_adds(4, (ph + 20) as nat);
        if pe < ph - 5 {
            lemma_pow2_strictly_increases(pe, (ph - 5) as nat);
        }
        assert(t < pow2(25) * pow2((ph - 5) as nat)) by (nonlinear_arith)
            requires
                t == c * pow2(pe),
                0 < c < pow2(25),
                pow2(pe) <= pow2((ph - 5) as nat),
                pow2(pe) > 0,
        ;
        lemma_pow2_strictly_increases((ph - 4) as nat, (ph + 20) as nat);
        assert(pow2((ph + 24) as nat) == 16 * pow2((ph + 20) as nat));
        assert(x - r > t && x > t);
    }
}

/// Three-way comparison of `m1 * 2^p1` with `m2 * 2^p2`.
fn cmp_scaled(m1: u64, p1: u32, m2: u64, p2: u32) -> (r: u8)
    requires
        m1 < 0x80_0000_0000_0000,
        m2 < 0x80_0000_0000_0000,
    ensures
        (r == 0) == (m1 * pow2(p1 as nat) < m2 * pow2(p2 as nat)),
        (r == 1) == (m1 * pow2(p1 as nat) == m2 * pow2(p2 as nat)),
        (r == 2) == (m1 * pow2(p1 as nat) > m2 * pow2(p2 as nat)),
{
    if p1 >= p2 {
        cmp_scaled_ge(m1, p1, m2, p2)
    } else {
        let c = cmp_scaled_ge(m2, p2, m1, p1);
        if c == 0 {
            2
        } else if c == 1 {
            1
        } else {
            0
        }
    }
}

proof fn lemma_mag2_zero(x: u32)
    ensures
        (mag2(x) == 0) == (x & 0x7fff_ffff == 0),
{
    lemma_pow2_pos(pexp(x));
    assert((2 * mantissa(x) * (pow2(pexp(x)) as int) == 0) == (mantissa(x) == 0))
        by (nonlinear_arith)
        requires
            pow2(pexp(x)) > 0,
    ;
    assert(((x >> 23) & 0xff == 0 && x & 0x7f_ffff == 0) == (x & 0x7fff_ffff == 0))
        by (bit_vector);
}

/// Absolute-difference comparison of two scalars given as bit patterns:
/// exactly the binary32 computation `|a - b| <= epsilon`, decided by
/// integer arithmetic on the patterns.
pub fn scalar_abs_diff_eq(a: u32, b: u32, epsilon: u32) -> (r: bool)
    ensures
        r == spec_abs_diff_eq(a, b, epsilon),
{
    let e = epsilon;
    if nan_bits(a) || nan_bits(b) || nan_bits(e) {
        return false;
    }
    if inf_bits(a) || inf_bits(b) {
        if inf_bits(a) && inf_bits(b) && sign_of(a) == sign_of(b) {
            return false;
        }
        return e == INFINITY_BITS;
    }
    proof {
        lemma_mag2_zero(e);
    }
    if sign_of(e) && e & 0x7fff_ffff != 0 {
        return false;
    }
    if inf_bits(e) {
        return true;
    }
    let sa = sign_of(a);
    let sb = sign_of(b);
    let same = sa == sb;
    let (ma, pa) = decompose(a);
    let (mb, pb) = decompose(b);
    let (me, pe) = decompose(e);
    let ce: u64 = 2 * (me as u64) + 1;
    let (mh, ph, ml, pl) = if pa >= pb {
        (ma, pa, mb, pb)
    } else {
        (mb, pb, ma, pa)
    };
    let ghost hsrc: u32 = if pa >= pb { a } else { b };
    let ghost lsrc: u32 = if pa >= pb { b } else { a };
    let ghost xh: int = mag2(hsrc);
    let ghost xl: int = mag2(lsrc);
    proof {
        assert(diff2(a, b) == if same { abs(xh - xl) as int } else { xh + xl });
        assert(cutoff2(e) == ce * pow2(pe as nat));
        lemma2_to64();
    }
    let dx = ph - pl;
    if dx <= 28 {
        proof {
            if dx < 28 {
                lemma_pow2_strictly_increases(dx as nat, 28);
            }
            assert((mh as u64) * pow2(dx as nat) <= 0xffffff * 0x1000_0000) by (nonlinear_arith)
                requires
                    mh <= 0xffffff,
                    pow2(dx as nat) <= 0x1000_0000,
            ;
            lemma_u64_shl_is_mul(mh as u64, dx as u64);
        }
        let hi: u64 = (mh as u64) << (dx as u64);
        let lo: u64 = ml as u64;
        let d: u64 = if same {
            if hi >= lo {
                hi - lo
            } else {
                lo - hi
            }
        } else {
            hi + lo
        };
        let d2: u64 = 2 * d;
        proof {
            lemma_pow2_adds(dx as nat, pl as nat);
            assert(xh == 2 * (hi as int) * pow2(pl as nat)) by (nonlinear_arith)
                requires
                    xh == 2 * (mh as int) * pow2(ph as nat),
                    (hi as int) == (mh as int) * pow2(dx as nat),
                    pow2(ph as nat) == pow2(dx as nat) * pow2(pl as nat),
            ;
            lemma_pow2_pos(pl as nat);
            assert((d2 as int) * pow2(pl as nat) == if same { abs(xh - xl) as int } else { xh + xl })
                by (nonlinear_arith)
                requires
                    xh == 2 * (hi as int) * pow2(pl as nat),
                    xl == 2 * (ml as int) * pow2(pl as nat),
                    lo == ml,
                    d2 == 2 * (if same { if hi >= lo { (hi - lo) as int } else { (lo - hi) as int } } else { hi + lo }),
                    pow2(pl as nat) > 0,
            ;
        }
        let cres = cmp_scaled(d2, pl, ce, pe);
        if cres == 0 {
            true
        } else if cres == 1 {
            e % 2 == 0
        } else {
            false
        }
    } else {
        let m2h: u64 = 2 * (mh as u64);
        proof {
            // the larger scale comes from a normal value
            assert(mh >= 0x80_0000);
            assert(xh == (m2h as int) * pow2(ph as nat));
            lemma_pow2_pos(ph as nat);
            lemma_pow2_adds(24, ph as nat);
            assert(xh >= pow2(24) * pow2(ph as nat)) by (nonlinear_arith)
                requires
                    xh == 2 * (mh as int) * pow2(ph as nat),
                    2 * (mh as int) >= pow2(24),
                    pow2(ph as nat) > 0,
            ;
            lemma_pow2_pos(ph as nat);
        }
        let cres = cmp_scaled(m2h, ph, ce, pe);
        if ml == 0 {
            proof {
                assert(xl == 0) by (nonlinear_arith)
                    requires
                        xl == 2 * 0 * pow2(pl as nat),
                ;
                assert(xh >= 0);
            }
            if cres == 0 {
                true
            } else if cres == 1 {
                e % 2 == 0
            } else {
                false
            }
        } else {
            proof {
                lemma_pow2_pos(pl as nat);
                lemma_pow2_adds(25, pl as nat);
                lemma_pow2_adds(4, (ph - 4) as nat);
                if pl + 25 < ph - 4 {
                    lemma_pow2_strictly_increases((pl + 25) as nat, (ph - 4) as nat);
                }
                assert(0 < xl < pow2((pl + 25) as nat)) by (nonlinear_arith)
                    requires
                        xl == 2 * (ml as int) * pow2(pl as nat),
                        0 < ml < 0x100_0000,
                        pow2(pl as nat) > 0,
                        pow2((pl + 25) as nat) == pow2(25) * pow2(pl as nat),
                        pow2(25) == 0x200_0000,
                ;
                assert(xh == (32 * (mh as int)) * pow2((ph - 4) as nat)) by (nonlinear_arith)
                    requires
                        xh == 2 * (mh as int) * pow2(ph as nat),
                        pow2(ph as nat) == pow2(4) * pow2((ph - 4) as nat),
                        pow2(4) == 16,
                ;
                lemma_pow2_pos((ph - 4) as nat);
                lemma_mod_multiples_basic(32 * (mh as int), pow2((ph - 4) as nat) as int);
                lemma_far_compare(
                    xh,
                    xl,
                    cutoff2(e),
                    ph as nat,
                    pe as nat,
                    ce as int,
                );
                lemma_pow2_strictly_increases((ph - 4) as nat, (ph + 24) as nat);
            }
            if same {
                cres != 2
            } else {
                cres == 0
            }
        }
    }
}

/// ULPs comparison of two scalars given as bit patterns: exactly the
/// binary32 computation "within `epsilon` absolute difference, or of the
/// same sign and at most `max_ulps` representable steps apart".
pub fn scalar_ulps_eq(a: u32, b: u32, epsilon: u32, max_ulps: u32) -> (r: bool)
    ensures
        r == spec_ulps_eq(a, b, epsilon, max_ulps),
{
    if scalar_abs_diff_eq(a, b, epsilon) {
        return true;
    }
    if nan_bits(a) || nan_bits(b) {
        return false;
    }
    if sign_of(a) != sign_of(b) {
        return false;
    }
    let d = if a >= b {
        a - b
    } else {
        b - a
    };
    d <= max_ulps
}

proof fn lemma_mag2_nonneg(x: u32)
    ensures
        mag2(x) >= 0,
{
    lemma_pow2_pos(pexp(x));
    assert(2 * mantissa(x) * (pow2(pexp(x)) as int) >= 0) by (nonlinear_arith)
        requires
            mantissa(x) >= 0,
            pow2(pexp(x)) > 0,
    ;
}

proof fn lemma_mag2_finite_bound(x: u32)
    requires
        is_finite(x),
    ensures
        mag2(x) < pow2(278),
{
    assert(x & 0x7f_ffff <= 0x7f_ffff && (x >> 23) & 0xff <= 0xff) by (bit_vector);
    lemma_pow2_pos(pexp(x));
    lemma2_to64();
    lemma_pow2_adds(25, pexp(x));
    if pexp(x) < 253 {
        lemma_pow2_strictly_increases((pexp(x) + 25) as nat, 278);
    }
    assert(2 * mantissa(x) * (pow2(pexp(x)) as int) < pow2(25) * pow2(pexp(x)))
        by (nonlinear_arith)
        requires
            mantissa(x) < 0x100_0000,
            pow2(pexp(x)) > 0,
            pow2(25) == 0x200_0000,
    ;
}

proof fn lemma_pos_inf_bits(x: u32)
    requires
        is_infinite(x),
        !sign_bit(x),
    ensures
        x == INFINITY_BITS,
{
    assert(((x >> 23) & 0xff == 0xff && x & 0x7f_ffff == 0 && x & 0x8000_0000 == 0)
        ==> x == 0x7f80_0000) by (bit_vector);
}

proof fn lemma_inf_mag2()
    ensures
        is_infinite(INFINITY_BITS),
        !sign_bit(INFINITY_BITS),
        mag2(INFINITY_BITS) == pow2(278),
{
    assert((0x7f80_0000u32 >> 23) & 0xff == 0xff && 0x7f80_0000u32 & 0x7f_ffff == 0
        && 0x7f80_0000u32 & 0x8000_0000 == 0) by (bit_vector);
    lemma2_to64();
    lemma_pow2_adds(24, 254);
    assert(2 * 0x80_0000 * (pow2(254) as int) == pow2(24) * pow2(254)) by (nonlinear_arith)
        requires
            pow2(24) == 0x100_0000,
    ;
}

proof fn lemma_pexp_mono(x: u32, y: u32)
    requires
        mag2(x) <= mag2(y),
    ensures
        pexp(x) <= pexp(y),
{
    if pexp(x) > pexp(y) {
        assert(y & 0x7f_ffff <= 0x7f_ffff) by (bit_vector);
        lemma2_to64();
        lemma_pow2_pos(pexp(x));
        lemma_pow2_pos(pexp(y));
        lemma_pow2_adds(24, pexp(x));
        lemma_pow2_adds(25, pexp(y));
        assert(mantissa(x) >= 0x80_0000);
        assert(mag2(x) >= pow2(24) * pow2(pexp(x))) by (nonlinear_arith)
            requires
                mag2(x) == 2 * mantissa(x) * (pow2(pexp(x)) as int),
                2 * mantissa(x) >= pow2(24),
                pow2(pexp(x)) > 0,
                pow2(24) == 0x100_0000,
                mantissa(x) >= 0x80_0000,
        ;
        assert(mag2(y) < pow2(25) * pow2(pexp(y))) by (nonlinear_arith)
            requires
                mag2(y) == 2 * mantissa(y) * (pow2(pexp(y)) as int),
                mantissa(y) < 0x100_0000,
                pow2(pexp(y)) > 0,
                pow2(25) == 0x200_0000,
        ;
        lemma_pow2_strictly_increases((pexp(y) + 25) as nat, (pexp(x) + 24) as nat);
        assert(false);
    }
}

proof fn lemma_cutoff_split(x: u32)
    ensures
        cutoff2(x) == mag2(x) + pow2(pexp(x)),
{
    assert((2 * mantissa(x) + 1) * (pow2(pexp(x)) as int)
        == 2 * mantissa(x) * (pow2(pexp(x)) as int) + pow2(pexp(x))) by (nonlinear_arith);
}

proof fn lemma_cutoff_mono(x: u32, y: u32)
    requires
        mag2(x) <= mag2(y),
    ensures
        cutoff2(x) <= cutoff2(y),
        cutoff2(x) == cutoff2(y) ==> x % 2 == y % 2,
{
    lemma_pexp_mono(x, y);
    lemma_cutoff_split(x);
    lemma_cutoff_split(y);
    if pexp(x) < pexp(y) {
        lemma_pow2_strictly_increases(pexp(x), pexp(y));
    }
    if cutoff2(x) == cutoff2(y) {
        lemma_pow2_pos(pexp(x));
        assert(mantissa(x) == mantissa(y)) by (nonlinear_arith)
            requires
                2 * mantissa(x) * (pow2(pexp(x)) as int) == 2 * mantissa(y) * (pow2(pexp(x)) as int),
                pow2(pexp(x)) > 0,
        ;
        let xv = x;
        let yv = y;
        assert((xv & 0x7f_ffff) % 2 == xv % 2) by (bit_vector);
        assert((yv & 0x7f_ffff) % 2 == yv % 2) by (bit_vector);
    }
}

/// Reflexivity: a finite scalar is within any nonnegative tolerance of
/// itself.
pub proof fn lemma_scalar_abs_diff_refl(a: u32, epsilon: u32)
    requires
        is_finite(a),
        is_nonneg(epsilon),
    ensures
        spec_abs_diff_eq(a, a, epsilon),
{
    lemma_pow2_pos(pexp(epsilon));
    if !is_infinite(epsilon) {
        assert(cutoff2(epsilon) >= 1) by (nonlinear_arith)
            requires
                cutoff2(epsilon) == (2 * mantissa(epsilon) + 1) * (pow2(pexp(epsilon)) as int),
                mantissa(epsilon) >= 0,
                pow2(pexp(epsilon)) >= 1,
        ;
    }
}

/// Reflexivity of the ULPs comparison: any non-NaN scalar is within any
/// step bound of itself, whatever the absolute tolerance.
pub proof fn lemma_scalar_ulps_refl(a: u32, epsilon: u32, max_ulps: u32)
    requires
        !is_nan(a),
    ensures
        spec_ulps_eq(a, a, epsilon, max_ulps),
{
}

/// Symmetry of both comparisons.
pub proof fn lemma_scalar_sym(a: u32, b: u32, epsilon: u32, max_ulps: u32)
    ensures
        spec_abs_diff_eq(a, b, epsilon) == spec_abs_diff_eq(b, a, epsilon),
        spec_ulps_eq(a, b, epsilon, max_ulps) == spec_ulps_eq(b, a, epsilon, max_ulps),
{
    assert(diff2(a, b) == diff2(b, a));
    assert(ulp_diff(a, b) == ulp_diff(b, a));
}

/// Monotonicity in the absolute tolerance: growing `epsilon` (in the
/// standard scalar order) preserves a positive comparison.
pub proof fn lemma_scalar_abs_diff_mono(a: u32, b: u32, e1: u32, e2: u32)
    requires
        spec_abs_diff_eq(a, b, e1),
        scalar_le(e1, e2),
    ensures
        spec_abs_diff_eq(a, b, e2),
{
    lemma_mag2_nonneg(e1);
    lemma_mag2_nonneg(e2);
    lemma_inf_mag2();
    lemma_pow2_pos(278);
    if is_infinite(a) || is_infinite(b) {
        // a positive result here forces e1, and in turn e2, to be +infinity
        assert(e1 == INFINITY_BITS);
        assert(!sign_bit(e2));
        if is_finite(e2) {
            lemma_mag2_finite_bound(e2);
            assert(false);
        }
        lemma_pos_inf_bits(e2);
    } else if is_infinite(e1) {
        // a and b are finite, so the premise took the +infinity branch
        lemma_pow2_pos(pexp(e1));
        assert(mag2(e1) > 0) by (nonlinear_arith)
            requires
                mag2(e1) == 2 * mantissa(e1) * (pow2(pexp(e1)) as int),
                mantissa(e1) >= 0x80_0000,
                pow2(pexp(e1)) > 0,
        ;
        assert(!sign_bit(e1));
        lemma_pos_inf_bits(e1);
        assert(!sign_bit(e2));
        if is_finite(e2) {
            lemma_mag2_finite_bound(e2);
            assert(false);
        }
        lemma_pos_inf_bits(e2);
    } else {
        // a, b and e1 are finite and e1 is not strictly negative
        assert(signed_mag2(e1) == mag2(e1));
        if sign_bit(e2) {
            assert(mag2(e2) == 0);
        }
        if !is_infinite(e2) {
            lemma_cutoff_mono(e1, e2);
        }
    }
}

/// Monotonicity in the step bound.
pub proof fn lemma_scalar_ulps_mono(a: u32, b: u32, epsilon: u32, m1: u32, m2: u32)
    requires
        spec_ulps_eq(a, b, epsilon, m1),
        m1 <= m2,
    ensures
        spec_ulps_eq(a, b, epsilon, m2),
{
}

/// A NaN operand makes both comparisons negative.
pub proof fn lemma_scalar_nan(a: u32, b: u32, epsilon: u32, max_ulps: u32)
    requires
        is_nan(a) || is_nan(b),
    ensures
        !spec_abs_diff_eq(a, b, epsilon),
        !spec_ulps_eq(a, b, epsilon, max_ulps),
{
}

} // verus!

