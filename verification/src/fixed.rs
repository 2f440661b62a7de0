//! Fixed-point scalars: signed 64-bit integers scaled by 2^16.
//!
//! A raw value `x: i64` stands for the real number `x / 65536`.  Products and
//! quotients are rounded toward zero, which keeps them symmetric under
//! negation; every executable operation's contract states its result exactly
//! as an integer expression over the raw values.

use vstd::prelude::*;

verus! {

use vstd::arithmetic::div_mod::lemma_div_is_ordered;

/// The raw representation of 1.0.
pub const ONE: i64 = 65536;

/// Offset used to nudge ray origins off surfaces (about 1.2e-4).
pub const EPS: i64 = 8;

/// Largest magnitude accepted for the narrow factor of `fx_mul`.
pub const MUL_NARROW: i64 = 0x2_0000_0000;

/// Largest magnitude accepted for the wide factor of `fx_mul`.
pub const MUL_WIDE: i64 = 0x2000_0000_0000;

/// Largest magnitude accepted for both factors of `fx_mul` when neither
/// fits the narrow bound.
pub const MUL_MID: i64 = 0x80_0000_0000;

/// Largest magnitude accepted for the numerator of `fx_div`.
pub const DIV_NUM: i64 = 0x4000_0000_0000;

/// Saturation bound for radiance arithmetic (about 1.1e9 in real units).
pub const RAD_CAP: i64 = 0x4000_0000_0000;

/// `x` lies in the closed interval `[-b, b]`.
pub open spec fn in_range(x: int, b: int) -> bool {
    -b <= x <= b
}

/// Division truncated toward zero (the machine convention), for a positive
/// divisor.
pub open spec fn div_tz(a: int, b: int) -> int {
    if a >= 0 {
        a / b
    } else {
        -((-a) / b)
    }
}

/// The exact meaning of a fixed-point product of raw values `a` and `b`.
pub open spec fn mul_fx(a: int, b: int) -> int {
    div_tz(a * b, ONE as int)
}

/// The exact meaning of a fixed-point quotient of raw values `a` and `b`.
pub open spec fn div_fx(a: int, b: int) -> int {
    if b >= 0 {
        div_tz(a * ONE, b)
    } else {
        div_tz(-(a * ONE), -b)
    }
}

/// A fixed-point product saturated at `RAD_CAP`, used for radiance values.
pub open spec fn rad_mul_fx(a: int, b: int) -> int {
    if mul_fx(a, b) > RAD_CAP {
        RAD_CAP as int
    } else {
        mul_fx(a, b)
    }
}

/// Integer square root, rounded down.
pub open spec fn isqrt(n: nat) -> nat
    decreases n,
{
    if n == 0 {
        0
    } else {
        let r = 2 * isqrt(n / 4);
        if (r + 1) * (r + 1) <= n {
            r + 1
        } else {
            r
        }
    }
}

/// The exact meaning of a fixed-point square root of a nonnegative raw value.
pub open spec fn sqrt_fx(a: int) -> int {
    isqrt((a * ONE) as nat) as int
}

/// `isqrt` is the rounded-down square root.
#[verifier::rlimit(50)]
#[verifier::spinoff_prover]
pub proof fn lemma_isqrt(n: nat)
    ensures
        isqrt(n) * isqrt(n) <= n,
        n < (isqrt(n) + 1) * (isqrt(n) + 1),
    decreases n,
{
    if n == 0 {
        assert(isqrt(n) == 0);
        assert((isqrt(n) + 1) * (isqrt(n) + 1) == 1) by (nonlinear_arith)
            requires isqrt(n) == 0;
    } else {
        assert(n / 4 < n);
        lemma_isqrt(n / 4);
        let m = isqrt(n / 4);
        let q = n / 4;
        assert(4 * q <= n && n <= 4 * q + 3) by {
            vstd::arithmetic::div_mod::lemma_fundamental_div_mod(n as int, 4);
            vstd::arithmetic::div_mod::lemma_mod_bound(n as int, 4);
        }
        assert((2 * m) * (2 * m) == 4 * (m * m)) by (nonlinear_arith);
        assert((2 * m + 2) * (2 * m + 2) == 4 * ((m + 1) * (m + 1))) by (nonlinear_arith);
        assert(m * m <= q && q < (m + 1) * (m + 1));
        assert(4 * (m * m) <= 4 * q);
        assert(n < 4 * ((m + 1) * (m + 1)));
        let r = 2 * m;
        if (r + 1) * (r + 1) <= n {
            assert(isqrt(n) == r + 1);
            assert(n < (r + 2) * (r + 2));
        } else {
            assert(isqrt(n) == r);
            assert(r * r <= n);
        }
    }
}

/// Truncating division is odd in its numerator.
pub proof fn lemma_div_tz_neg(a: int, b: int)
    requires
        b > 0,
    ensures
        div_tz(-a, b) == -div_tz(a, b),
{
}

/// Truncating division of an exact multiple recovers the factor.
pub proof fn lemma_div_tz_exact(k: int, b: int)
    requires
        b > 0,
    ensures
        div_tz(k * b, b) == k,
{
    if k >= 0 {
        assert((k * b) / b == k) by (nonlinear_arith)
            requires b > 0;
    } else {
        assert(-(k * b) == (-k) * b) by (nonlinear_arith);
        assert(((-k) * b) / b == -k) by (nonlinear_arith)
            requires b > 0;
    }
}

/// The magnitude of a truncating quotient is the quotient of magnitudes.
pub proof fn lemma_div_tz_abs(a: int, b: int)
    requires
        b > 0,
    ensures
        abs_i(div_tz(a, b)) == abs_i(a) / b,
        abs_i(div_tz(a, b)) <= abs_i(a),
{
    if a >= 0 {
        assert(a / b >= 0) by (nonlinear_arith)
            requires a >= 0 && b > 0;
        assert(a / b <= a) by (nonlinear_arith)
            requires a >= 0 && b > 0;
    } else {
        assert((-a) / b >= 0) by (nonlinear_arith)
            requires -a >= 0 && b > 0;
        assert((-a) / b <= -a) by (nonlinear_arith)
            requires -a >= 0 && b > 0;
    }
}

/// Magnitude of an integer, as an `int`.
pub open spec fn abs_i(x: int) -> int {
    if x >= 0 {
        x
    } else {
        -x
    }
}

/// Magnitudes multiply.
pub proof fn lemma_abs_mul(a: int, b: int)
    by (nonlinear_arith)
    ensures
        abs_i(a * b) == abs_i(a) * abs_i(b),
{
}

/// A product splits into its sign and the product of magnitudes.
pub proof fn lemma_mul_sign(a: int, b: int)
    by (nonlinear_arith)
    ensures
        a * b == if (a < 0) != (b < 0) {
            -(abs_i(a) * abs_i(b))
        } else {
            abs_i(a) * abs_i(b)
        },
{
}

/// A bound on both factors bounds the fixed-point product.
pub proof fn lemma_mul_fx_bound(a: int, b: int, ba: int, bb: int)
    requires
        in_range(a, ba),
        in_range(b, bb),
        0 <= ba,
        0 <= bb,
    ensures
        in_range(mul_fx(a, b), (ba * bb) / (ONE as int)),
{
    lemma_abs_mul(a, b);
    assert(abs_i(a) * abs_i(b) <= ba * bb) by (nonlinear_arith)
        requires 0 <= abs_i(a) <= ba && 0 <= abs_i(b) <= bb;
    lemma_div_tz_abs(a * b, ONE as int);
    lemma_div_is_ordered(abs_i(a * b), ba * bb, ONE as int);
}

/// A lower bound on the divisor's magnitude bounds the fixed-point quotient.
pub proof fn lemma_div_fx_bound(a: int, b: int, bl: int)
    requires
        abs_i(b) >= bl,
        bl >= 1,
    ensures
        abs_i(div_fx(a, b)) <= (abs_i(a) * (ONE as int)) / bl,
{
    lemma_abs_mul(a, ONE as int);
    if b >= 0 {
        lemma_div_tz_abs(a * (ONE as int), b);
        vstd::arithmetic::div_mod::lemma_div_is_ordered_by_denominator(
            abs_i(a) * (ONE as int),
            bl,
            b,
        );
    } else {
        lemma_div_tz_abs(-(a * (ONE as int)), -b);
        assert(abs_i(-(a * (ONE as int))) == abs_i(a) * (ONE as int));
        vstd::arithmetic::div_mod::lemma_div_is_ordered_by_denominator(
            abs_i(a) * (ONE as int),
            bl,
            -b,
        );
    }
}

/// A bound on the radicand bounds the fixed-point square root.
pub proof fn lemma_sqrt_fx_le(a: int, b: int)
    requires
        0 <= a,
        0 <= b,
        a * ONE <= b * b,
    ensures
        0 <= sqrt_fx(a) <= b,
{
    lemma_isqrt((a * ONE) as nat);
    let r = isqrt((a * ONE) as nat);
    assert(r <= b) by (nonlinear_arith)
        requires
            r * r <= a * ONE <= b * b,
            0 <= b,
    ;
}

/// Splits a signed scalar into its magnitude, for the unsigned kernels below.
fn mag_of(a: i64) -> (m: u128)
    ensures
        m == abs_i(a as int),
{
    if a >= 0 {
        a as u128
    } else {
        let w: i128 = -(a as i128);
        w as u128
    }
}

/// Fixed-point multiplication, exact per `mul_fx`.
pub fn fx_mul(a: i64, b: i64) -> (r: i64)
    requires
        (in_range(a as int, MUL_WIDE as int) && in_range(b as int, MUL_NARROW as int)) || (
        in_range(a as int, MUL_MID as int) && in_range(b as int, MUL_MID as int)),
    ensures
        r == mul_fx(a as int, b as int),
{
    let neg = (a < 0) != (b < 0);
    let ma = mag_of(a);
    let mb = mag_of(b);
    proof {
        lemma_abs_mul(a as int, b as int);
        lemma_mul_sign(a as int, b as int);
        assert(ma * mb <= 0x4000_0000_0000_0000_0000) by (nonlinear_arith)
            requires
                0 <= ma && 0 <= mb && ((ma <= 0x2000_0000_0000 && mb <= 0x2_0000_0000) || (ma
                    <= 0x80_0000_0000 && mb <= 0x80_0000_0000));
        lemma_div_is_ordered((ma * mb) as int, 0x4000_0000_0000_0000_0000, ONE as int);
    }
    let p: u128 = ma * mb;
    let q: u128 = p / 65536;
    proof {
        if neg {
            lemma_div_tz_neg((ma * mb) as int, ONE as int);
        }
    }
    if neg {
        -(q as i64)
    } else {
        q as i64
    }
}

/// Fixed-point multiplication saturated at `RAD_CAP`; needs no magnitude
/// bounds because the unsigned kernel cannot overflow.
pub fn rad_mul(a: i64, b: i64) -> (r: i64)
    requires
        0 <= a,
        0 <= b,
    ensures
        r == rad_mul_fx(a as int, b as int),
        0 <= r <= RAD_CAP,
{
    proof {
        assert((a as int) * (b as int) < 0x4000_0000_0000_0000_0000_0000_0000_0000) by (nonlinear_arith)
            requires
                0 <= a as int <= 0x8000_0000_0000_0000,
                0 <= b as int <= 0x8000_0000_0000_0000;
        assert((a as int) * (b as int) >= 0) by (nonlinear_arith)
            requires
                0 <= a as int,
                0 <= b as int;
    }
    let p: u128 = (a as u128) * (b as u128);
    let q: u128 = p / 65536;
    if q > 0x4000_0000_0000 {
        RAD_CAP
    } else {
        q as i64
    }
}

/// Fixed-point division, exact per `div_fx`; truncates toward zero.
pub fn fx_div(a: i64, b: i64) -> (r: i64)
    requires
        b != 0,
        in_range(a as int, DIV_NUM as int),
    ensures
        r == div_fx(a as int, b as int),
{
    proof {
        lemma_abs_mul(a as int, ONE as int);
        lemma_div_tz_abs((a as int) * (ONE as int), abs_i(b as int));
        lemma_div_is_ordered(abs_i(a as int) * (ONE as int), (DIV_NUM as int) * (ONE as int), abs_i(b as int));
        assert(abs_i(a as int) * (ONE as int) <= (DIV_NUM as int) * (ONE as int)) by (nonlinear_arith)
            requires 0 <= abs_i(a as int) <= DIV_NUM as int;
        assert((DIV_NUM as int) * (ONE as int) / 1 >= (DIV_NUM as int) * (ONE as int) / abs_i(b as int)) by {
            lemma_div_is_ordered_by_den((DIV_NUM as int) * (ONE as int), abs_i(b as int));
        }
        if b as int >= 0 {
            assert(div_fx(a as int, b as int) == div_tz((a as int) * (ONE as int), b as int));
        } else {
            assert(div_fx(a as int, b as int) == div_tz(-((a as int) * (ONE as int)), -(b as int)));
        }
    }
    let neg = (a < 0) != (b < 0);
    let p: u128 = mag_of(a) * 65536;
    let q: u128 = p / mag_of(b);
    if neg {
        -(q as i64)
    } else {
        q as i64
    }
}

proof fn lemma_div_is_ordered_by_den(x: int, b: int)
    requires
        0 <= x,
        1 <= b,
    ensures
        x / b <= x / 1,
{
    vstd::arithmetic::div_mod::lemma_div_is_ordered_by_denominator(x, 1, b);
}

/// Integer square root on `u128`, by the classical base-4 recursion.
pub fn isqrt_u128(n: u128) -> (r: u128)
    requires
        n < 0x4000_0000_0000_0000_0000_0000_0000_0000,
    ensures
        r == isqrt(n as nat),
    decreases n,
{
    if n == 0 {
        0
    } else {
        let m = isqrt_u128(n / 4);
        proof {
            lemma_isqrt((n / 4) as nat);
            assert(m <= 0x4000_0000_0000_0000) by (nonlinear_arith)
                requires
                    m * m <= n / 4,
                    n / 4 < 0x1000_0000_0000_0000_0000_0000_0000_0000;
        }
        let c = 2 * m + 1;
        proof {
            assert((c as int) * (c as int) <= 0x4000_0000_0000_0001_0000_0000_0000_0001int) by (nonlinear_arith)
                requires
                    0 < c as int <= 0x8000_0000_0000_0001int;
        }
        if c * c <= n {
            c
        } else {
            2 * m
        }
    }
}

/// Fixed-point square root of a nonnegative raw value, exact per `sqrt_fx`.
pub fn fx_sqrt(a: i64) -> (r: i64)
    requires
        0 <= a,
    ensures
        r == sqrt_fx(a as int),
        0 <= r,
{
    let n: u128 = (a as u128) * 65536;
    let r = isqrt_u128(n);
    proof {
        lemma_isqrt(n as nat);
        assert(isqrt(n as nat) < 0x10_0000_0000_0000) by (nonlinear_arith)
            requires
                isqrt(n as nat) * isqrt(n as nat) <= n as nat,
                n as nat <= 0x8000_0000_0000_0000_0000_0000;
    }
    r as i64
}

/// The product of two values in `[0, 1]` stays in `[0, 1]`.
pub proof fn lemma_unit_mul(a: int, b: int)
    requires
        0 <= a <= ONE,
        0 <= b <= ONE,
    ensures
        0 <= mul_fx(a, b) <= ONE,
        mul_fx(a, b) <= a,
        mul_fx(a, b) <= b,
{
    assert(0 <= a * b <= a * (ONE as int)) by (nonlinear_arith)
        requires
            0 <= a && 0 <= b <= ONE as int,
    ;
    assert(a * b <= b * (ONE as int)) by (nonlinear_arith)
        requires
            0 <= b && 0 <= a <= ONE as int,
    ;
    lemma_div_is_ordered(a * b, a * (ONE as int), ONE as int);
    lemma_div_is_ordered(a * b, b * (ONE as int), ONE as int);
    lemma_div_tz_exact(a, ONE as int);
    lemma_div_tz_exact(b, ONE as int);
    vstd::arithmetic::div_mod::lemma_div_pos_is_pos(a * b, ONE as int);
}

/// The exact meaning of a fixed-point power of a raw value.
pub open spec fn pow_fx(b: int, e: nat) -> int
    decreases e,
{
    if e == 0 {
        ONE as int
    } else {
        mul_fx(b, pow_fx(b, (e - 1) as nat))
    }
}

/// `pow_fx` of a value in `[0, 1]` stays in `[0, 1]`.
pub proof fn lemma_pow_fx_unit(b: int, e: nat)
    requires
        0 <= b <= ONE,
    ensures
        0 <= pow_fx(b, e) <= ONE,
    decreases e,
{
    if e == 0 {
    } else {
        lemma_pow_fx_unit(b, (e - 1) as nat);
        lemma_unit_mul(b, pow_fx(b, (e - 1) as nat));
    }
}

/// Fixed-point power of a value in the unit interval, exact per `pow_fx`.
pub fn fx_pow(b: i64, e: u32) -> (r: i64)
    requires
        0 <= b <= ONE,
    ensures
        r == pow_fx(b as int, e as nat),
        0 <= r <= ONE,
{
    proof {
        lemma_pow_fx_unit(b as int, e as nat);
    }
    let mut acc: i64 = ONE;
    let mut i: u32 = 0;
    while i < e
        invariant
            0 <= i <= e,
            0 <= b <= ONE,
            acc == pow_fx(b as int, i as nat),
            0 <= acc <= ONE,
        decreases e - i,
    {
        proof {
            lemma_unit_mul(b as int, acc as int);
            lemma_pow_fx_unit(b as int, (i + 1) as nat);
        }
        acc = fx_mul(b, acc);
        i = i + 1;
    }
    acc
}

/// The natural logarithm of 2, in fixed point.
pub const LN2: i64 = 45426;

/// The range-reduction loop of the mantissa logarithm: halve until below
/// two, counting the halvings, at most 32 of them.
pub open spec fn ln_reduce(w: int, k: int) -> (int, int)
    decreases 32 - k,
{
    if w >= 2 * ONE && k < 32 {
        ln_reduce(mul_fx(w, 32768), k + 1)
    } else {
        (w, k)
    }
}

/// The exact value computed for `-ln(1 - u)`: reduce `1/(1-u)` to
/// `2^k` times a mantissa below two, then apply the alternating series
/// `t - t^2/2 + t^3/3` to the clamped mantissa offset.
pub open spec fn neg_ln_fx(u: int) -> int {
    let red = ln_reduce(div_fx(ONE as int, ONE - u), 0);
    let w = red.0;
    let k = red.1;
    let t = if w >= ONE {
        w - ONE
    } else {
        0
    };
    let tc = if t > ONE {
        ONE as int
    } else {
        t
    };
    let t2 = mul_fx(tc, tc);
    k * LN2 + tc - mul_fx(32768, t2) + div_fx(mul_fx(t2, tc), 196608)
}

/// `-ln(1 - u)` for `u` in `[0, 1)`: the free-path transform of a uniform
/// sample, exact per `neg_ln_fx`.
pub fn fx_neg_ln_one_minus(u: i64) -> (r: i64)
    requires
        0 <= u < ONE,
    ensures
        r == neg_ln_fx(u as int),
        0 <= r <= 0x20_0000,
        u == 0 ==> r == 0,
{
    let w0 = fx_div(ONE, ONE - u);
    proof {
        lemma_div_fx_bound(ONE as int, (ONE - u) as int, 1);
        vstd::arithmetic::div_mod::lemma_div_pos_is_pos((ONE as int) * (ONE as int), (ONE - u) as int);
        if u == 0 {
            lemma_div_tz_exact(ONE as int, ONE as int);
            assert((ONE as int) * (ONE as int) == (ONE as int) * (ONE as int));
        }
    }
    let mut w = w0;
    let mut k: i64 = 0;
    while w >= 2 * ONE && k < 32
        invariant
            0 <= w <= 0x1_0000_0000,
            0 <= k <= 32,
            w0 == ONE ==> w == ONE && k == 0,
            ln_reduce(w0 as int, 0) == ln_reduce(w as int, k as int),
        decreases w,
    {
        proof {
            assert(ln_reduce(w as int, k as int) == ln_reduce(
                mul_fx(w as int, 32768),
                k as int + 1,
            ));
        }
        proof {
            lemma_div_tz_abs((w as int) * 32768, ONE as int);
            lemma_abs_mul(w as int, 32768);
            assert((w as int) * 32768 >= 0) by (nonlinear_arith)
                requires w >= 0;
            assert((w as int) * 32768 == ((w as int) * 32768 / 2) * 2) by (nonlinear_arith);
            assert(mul_fx(w as int, 32768) == (w as int) / 2) by {
                assert((w as int) * 32768 / (ONE as int) == (w as int) / 2) by (nonlinear_arith);
            }
            assert((w as int) / 2 < w as int) by (nonlinear_arith)
                requires w as int >= 1;
        }
        w = fx_mul(w, 32768);
        k = k + 1;
    }
    proof {
        assert(ln_reduce(w as int, k as int) == (w as int, k as int));
    }
    let t = if w >= ONE {
        w - ONE
    } else {
        0
    };
    let tc = if t > ONE {
        ONE
    } else {
        t
    };
    let t2 = fx_mul(tc, tc);
    proof {
        lemma_unit_mul(tc as int, tc as int);
        lemma_unit_mul(32768, mul_fx(tc as int, tc as int));
        lemma_unit_mul(mul_fx(tc as int, tc as int), tc as int);
    }
    let half_t2 = fx_mul(32768, t2);
    let t3 = fx_mul(t2, tc);
    let third = fx_div(t3, 196608);
    proof {
        lemma_div_fx_bound(t3 as int, 196608, 196608);
        vstd::arithmetic::div_mod::lemma_div_pos_is_pos((t3 as int) * (ONE as int), 196608);
        assert(half_t2 <= t2 && t2 <= tc) by {
            lemma_unit_mul(32768, t2 as int);
            lemma_unit_mul(tc as int, tc as int);
        }
        assert((t3 as int) * (ONE as int) <= (ONE as int) * (ONE as int)) by (nonlinear_arith)
            requires 0 <= t3 as int <= ONE as int;
        vstd::arithmetic::div_mod::lemma_div_is_ordered(
            (t3 as int) * (ONE as int),
            (ONE as int) * (ONE as int),
            196608,
        );
    }
    k * LN2 + tc - half_t2 + third
}

/// Larger of a raw value and zero.
pub fn fx_max0(a: i64) -> (r: i64)
    ensures
        r == vstd::math::max(a as int, 0),
{
    if a >= 0 {
        a
    } else {
        0
    }
}

/// Magnitude of a raw value.
pub fn fx_abs(a: i64) -> (r: i64)
    requires
        a != i64::MIN,
    ensures
        r == abs_i(a as int),
{
    if a >= 0 {
        a
    } else {
        -a
    }
}

} // verus!
