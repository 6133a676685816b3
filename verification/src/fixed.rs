//! Fixed-point scalar arithmetic.
//!
//! A scalar is an `i64` counting billionths of a unit ([`SCALE`] steps per
//! whole). Multiplication and division rescale and round toward negative
//! infinity; the spec functions [`fx_mul_spec`] and [`fx_div_spec`] give the
//! exact value of every operation, so contracts built on them are exact.

use vstd::arithmetic::div_mod::{
    lemma_div_is_ordered, lemma_div_is_ordered_by_denominator, lemma_div_multiples_vanish,
    lemma_div_nonincreasing, lemma_div_pos_is_pos, lemma_fundamental_div_mod,
    lemma_fundamental_div_mod_converse, lemma_mod_bound,
};
use vstd::math::abs;
use vstd::prelude::*;

verus! {

/// Half pi in fixed-point steps, rounded to the nearest step.
pub const HALF_PI: i64 = 1_570_796_327;

/// Pi in fixed-point steps; exactly `2 * HALF_PI`, so that angle reduction
/// is exact at quadrant boundaries.
pub const PI: i64 = 3_141_592_654;

/// Two pi in fixed-point steps; exactly `4 * HALF_PI`.
pub const TWO_PI: i64 = 6_283_185_308;

/// Quarter pi in fixed-point steps; exactly `HALF_PI / 2` rounded down.
pub const QUARTER_PI: i64 = 785_398_163;

/// Fixed-point steps per whole unit: every scalar counts billionths.
pub const SCALE: i64 = 1_000_000_000;

/// Whether a mathematical integer fits in an `i64`.
pub open spec fn in_i64(v: int) -> bool {
    i64::MIN <= v <= i64::MAX
}

/// Exact value of fixed-point multiplication: the product rescaled by
/// [`SCALE`], rounded toward negative infinity.
pub open spec fn fx_mul_spec(a: int, b: int) -> int {
    (a * b) / (SCALE as int)
}

/// Exact value of fixed-point division: the quotient rescaled by [`SCALE`],
/// rounded toward negative infinity.
pub open spec fn fx_div_spec(a: int, b: int) -> int
    recommends
        b != 0,
{
    if b < 0 {
        ((-a) * (SCALE as int)) / (-b)
    } else {
        (a * (SCALE as int)) / b
    }
}

/// Divides `p` by a positive `d`, rounding toward negative infinity, which is
/// what `/` means on `int` for a positive divisor.
pub fn floor_div_i128(p: i128, d: i128) -> (q: i128)
    requires
        0 < d,
        i128::MIN < p,
    ensures
        q as int == p as int / d as int,
{
    if p >= 0 {
        let pu: u128 = p as u128;
        let du: u128 = d as u128;
        let q0: u128 = pu / du;
        proof {
            lemma_div_nonincreasing(pu as int, du as int);
        }
        q0 as i128
    } else {
        let m: u128 = (-p) as u128;
        let du: u128 = d as u128;
        let q0: u128 = m / du;
        let r: u128 = m % du;
        proof {
            lemma_div_nonincreasing(m as int, du as int);
            lemma_fundamental_div_mod(m as int, du as int);
            lemma_mod_bound(m as int, du as int);
            if r == 0 {
                assert((-(q0 as int)) * (du as int) == -((du as int) * (q0 as int)))
                    by (nonlinear_arith);
                lemma_fundamental_div_mod_converse(-(m as int), du as int, -(q0 as int), 0);
            } else {
                assert(du >= 2) by {
                    if du == 1 {
                        assert(m as int % 1int == 0) by (nonlinear_arith);
                    }
                }
                assert(2 * (q0 as int) <= (du as int) * (q0 as int)) by (nonlinear_arith)
                    requires
                        du as int >= 2,
                        q0 as int >= 0,
                ;
                assert((-(q0 as int) - 1) * (du as int) == -((du as int) * (q0 as int)) - (
                du as int)) by (nonlinear_arith);
                lemma_fundamental_div_mod_converse(
                    -(m as int),
                    du as int,
                    -(q0 as int) - 1,
                    (du - r) as int,
                );
            }
        }
        if r == 0 {
            -(q0 as i128)
        } else {
            -(q0 as i128) - 1
        }
    }
}

/// Fixed-point multiplication; the result is exactly [`fx_mul_spec`].
pub fn fx_mul(a: i64, b: i64) -> (r: i64)
    requires
        in_i64(fx_mul_spec(a as int, b as int)),
    ensures
        r as int == fx_mul_spec(a as int, b as int),
{
    proof {
        assert(i128::MIN < (a as int) * (b as int) <= i128::MAX) by (nonlinear_arith)
            requires
                -0x8000_0000_0000_0000 <= a as int <= 0x7FFF_FFFF_FFFF_FFFF,
                -0x8000_0000_0000_0000 <= b as int <= 0x7FFF_FFFF_FFFF_FFFF,
        ;
    }
    let p: i128 = (a as i128) * (b as i128);
    let q: i128 = floor_div_i128(p, SCALE as i128);
    q as i64
}

/// Fixed-point division; the result is exactly [`fx_div_spec`].
pub fn fx_div(a: i64, b: i64) -> (r: i64)
    requires
        b != 0,
        in_i64(fx_div_spec(a as int, b as int)),
    ensures
        r as int == fx_div_spec(a as int, b as int),
{
    let p: i128 = (a as i128) * 1_000_000_000;
    proof {
        assert(p as int == (a as int) * (SCALE as int));
    }
    if b < 0 {
        let q: i128 = floor_div_i128(-p, -(b as i128));
        q as i64
    } else {
        let q: i128 = floor_div_i128(p, b as i128);
        q as i64
    }
}

/// Whether `r` is the integer square root of `n`: the unique nonnegative
/// integer whose square is at most `n` while the next square exceeds it.
pub open spec fn is_sqrt_of(n: int, r: int) -> bool {
    0 <= r && r * r <= n && n < (r + 1) * (r + 1)
}

/// The integer square root of a nonnegative `n`.
pub open spec fn int_sqrt(n: int) -> int
    recommends
        0 <= n,
{
    choose|r: int| is_sqrt_of(n, r)
}

/// Two integer square roots of the same number are equal.
pub proof fn lemma_sqrt_unique(n: int, a: int, b: int)
    by (nonlinear_arith)
    requires
        0 <= a,
        0 <= b,
        a * a <= n,
        n < (a + 1) * (a + 1),
        b * b <= n,
        n < (b + 1) * (b + 1),
    ensures
        a == b,
{
}

/// A witness satisfying [`is_sqrt_of`] pins down [`int_sqrt`].
pub proof fn lemma_int_sqrt_is(n: int, r: int)
    requires
        is_sqrt_of(n, r),
    ensures
        int_sqrt(n) == r,
{
    let c = choose|x: int| is_sqrt_of(n, x);
    assert(is_sqrt_of(n, c));
    lemma_sqrt_unique(n, c, r);
}

/// Constructs an integer square root witness for any nonnegative number, by
/// induction.
proof fn lemma_sqrt_witness(n: int) -> (r: int)
    requires
        0 <= n,
    ensures
        is_sqrt_of(n, r),
    decreases n,
{
    if n == 0 {
        assert(is_sqrt_of(0, 0)) by (nonlinear_arith);
        0
    } else {
        let p = lemma_sqrt_witness(n - 1);
        if (p + 1) * (p + 1) <= n {
            assert(is_sqrt_of(n, p + 1)) by (nonlinear_arith)
                requires
                    0 <= p,
                    n - 1 < (p + 1) * (p + 1),
                    (p + 1) * (p + 1) <= n,
            ;
            p + 1
        } else {
            p
        }
    }
}

/// Every nonnegative number has an integer square root, so [`int_sqrt`]
/// satisfies [`is_sqrt_of`].
pub proof fn lemma_int_sqrt_exists(n: int)
    requires
        0 <= n,
    ensures
        is_sqrt_of(n, int_sqrt(n)),
{
    let r = lemma_sqrt_witness(n);
    lemma_int_sqrt_is(n, r);
}

/// Binary search for the integer square root of a `u128`.
fn isqrt_u128(n: u128) -> (r: u128)
    ensures
        is_sqrt_of(n as int, r as int),
        r as int == int_sqrt(n as int),
{
    let mut lo: u128 = 0;
    let mut hi: u128 = 0x1_0000_0000_0000_0000;
    while hi - lo > 1
        invariant
            lo < hi <= 0x1_0000_0000_0000_0000u128,
            (lo as int) * (lo as int) <= n as int,
            (n as int) < (hi as int) * (hi as int),
        decreases hi - lo,
    {
        let mid: u128 = lo + (hi - lo) / 2;
        proof {
            assert((mid as int) * (mid as int) <= u128::MAX) by (nonlinear_arith)
                requires
                    0 <= mid as int <= 0xFFFF_FFFF_FFFF_FFFF,
            ;
        }
        let sq: u128 = mid * mid;
        if sq <= n {
            lo = mid;
        } else {
            hi = mid;
        }
    }
    proof {
        lemma_int_sqrt_is(n as int, lo as int);
    }
    lo
}

/// Fixed-point square root: the integer square root of `v * SCALE`, which is
/// the fixed-point rendering of the real square root of `v / SCALE`, rounded
/// down.
pub fn fx_sqrt(v: i64) -> (r: i64)
    requires
        0 <= v,
    ensures
        r as int == int_sqrt(v as int * SCALE as int),
        is_sqrt_of(v as int * SCALE as int, r as int),
        0 <= r,
{
    let n: u128 = (v as u128) * 1_000_000_000;
    proof {
        assert(n as int == (v as int) * (SCALE as int));
    }
    let r: u128 = isqrt_u128(n);
    proof {
        assert((r as int) < 0x1_0000_0000_0000) by (nonlinear_arith)
            requires
                0 <= r as int,
                (r as int) * (r as int) <= n as int,
                n as int <= 0x7FFF_FFFF_FFFF_FFFF * 1_000_000_000,
        ;
    }
    r as i64
}

/// Integer square root of `x * x + y * y`, the fixed-point Euclidean norm of
/// the vector `(x, y)`.
pub fn fx_hypot(x: i64, y: i64) -> (r: i64)
    requires
        (x as int) * (x as int) + (y as int) * (y as int) <= (i64::MAX as int) * (
        i64::MAX as int),
    ensures
        r as int == int_sqrt((x as int) * (x as int) + (y as int) * (y as int)),
        is_sqrt_of((x as int) * (x as int) + (y as int) * (y as int), r as int),
        0 <= r,
{
    proof {
        assert(0 <= (x as int) * (x as int) && 0 <= (y as int) * (y as int)) by (nonlinear_arith);
        assert((x as int) * (x as int) <= u128::MAX && (y as int) * (y as int) <= u128::MAX)
            by (nonlinear_arith)
            requires
                -0x8000_0000_0000_0000 <= x as int <= 0x7FFF_FFFF_FFFF_FFFF,
                -0x8000_0000_0000_0000 <= y as int <= 0x7FFF_FFFF_FFFF_FFFF,
        ;
    }
    let xa: u128 = if x >= 0 { x as u128 } else { (-(x as i128)) as u128 };
    let ya: u128 = if y >= 0 { y as u128 } else { (-(y as i128)) as u128 };
    proof {
        assert(xa as int * xa as int == x as int * x as int) by (nonlinear_arith)
            requires
                xa as int == if x as int >= 0 { x as int } else { -(x as int) },
        ;
        assert(ya as int * ya as int == y as int * y as int) by (nonlinear_arith)
            requires
                ya as int == if y as int >= 0 { y as int } else { -(y as int) },
        ;
        assert(xa as int * xa as int <= 0x8000_0000_0000_0000 * 0x8000_0000_0000_0000
            && ya as int * ya as int <= 0x8000_0000_0000_0000 * 0x8000_0000_0000_0000)
            by (nonlinear_arith)
            requires
                0 <= xa as int <= 0x8000_0000_0000_0000,
                0 <= ya as int <= 0x8000_0000_0000_0000,
        ;
    }
    let n: u128 = xa * xa + ya * ya;
    let r: u128 = isqrt_u128(n);
    proof {
        assert(r as int <= i64::MAX as int) by (nonlinear_arith)
            requires
                0 <= r as int,
                (r as int) * (r as int) <= n as int,
                n as int <= (i64::MAX as int) * (i64::MAX as int),
        ;
    }
    r as i64
}

/// A fixed-point product with a factor of at most `k` whole units in
/// magnitude is at most `k` times the magnitude of the other operand.
pub proof fn lemma_fx_mul_le_factor(a: int, b: int, k: int)
    requires
        0 <= k,
        -(k * (SCALE as int)) <= b <= k * (SCALE as int),
    ensures
        -(k * abs(a)) <= fx_mul_spec(a, b) <= k * abs(a),
{
    let m = abs(a) as int;
    assert(-((k * m) * (SCALE as int)) <= a * b <= (k * m) * (SCALE as int)) by (nonlinear_arith)
        requires
            0 <= k,
            -(k * (SCALE as int)) <= b <= k * (SCALE as int),
            m == (if a < 0 { -a } else { a }),
    ;
    lemma_div_is_ordered(a * b, (k * m) * (SCALE as int), SCALE as int);
    lemma_div_is_ordered(-((k * m) * (SCALE as int)), a * b, SCALE as int);
    assert((k * m) * (SCALE as int) == (SCALE as int) * (k * m)) by (nonlinear_arith);
    assert(-((k * m) * (SCALE as int)) == (SCALE as int) * (-(k * m))) by (nonlinear_arith);
    lemma_div_multiples_vanish(k * m, SCALE as int);
    lemma_div_multiples_vanish(-(k * m), SCALE as int);
}

/// Euclidean division of a negated nonnegative number by a positive divisor.
pub proof fn lemma_neg_div(m: int, d: int)
    requires
        0 <= m,
        0 < d,
    ensures
        (-m) / d == if m % d == 0 {
            -(m / d)
        } else {
            -(m / d) - 1
        },
{
    let q = m / d;
    let r = m % d;
    lemma_fundamental_div_mod(m, d);
    lemma_mod_bound(m, d);
    if r == 0 {
        assert((-q) * d == -(d * q)) by (nonlinear_arith);
        lemma_fundamental_div_mod_converse(-m, d, -q, 0);
    } else {
        assert((-q - 1) * d == -(d * q) - d) by (nonlinear_arith);
        lemma_fundamental_div_mod_converse(-m, d, -q - 1, d - r);
    }
}

/// Magnitude bound of a fixed-point quotient.
pub proof fn lemma_fx_div_bound(a: int, b: int)
    requires
        b != 0,
    ensures
        -((abs(a) * (SCALE as int)) / abs(b) as int) - 1 <= fx_div_spec(a, b),
        fx_div_spec(a, b) <= (abs(a) * (SCALE as int)) / abs(b) as int,
{
    let m = abs(a) as int;
    let d = abs(b) as int;
    let n = if b < 0 {
        (-a) * (SCALE as int)
    } else {
        a * (SCALE as int)
    };
    assert(fx_div_spec(a, b) == n / d);
    assert(-(m * (SCALE as int)) <= n <= m * (SCALE as int));
    lemma_div_is_ordered(n, m * (SCALE as int), d);
    lemma_div_is_ordered(-(m * (SCALE as int)), n, d);
    lemma_neg_div(m * (SCALE as int), d);
}

/// The fixed-point quotient stays within `bound` whenever a magnitude bound
/// on the numerator and a positive lower bound on the denominator keep the
/// scaled ratio under it.
pub proof fn lemma_fx_div_le(a: int, b: int, abound: int, bmin: int, bound: int)
    requires
        b != 0,
        abs(a) <= abound,
        0 < bmin <= abs(b),
        (abound * (SCALE as int)) / bmin + 1 <= bound,
    ensures
        -bound <= fx_div_spec(a, b) <= bound,
{
    lemma_fx_div_bound(a, b);
    let m = abs(a) as int;
    let d = abs(b) as int;
    lemma_div_is_ordered(m * (SCALE as int), abound * (SCALE as int), d);
    lemma_div_is_ordered_by_denominator(abound * (SCALE as int), bmin, d);
}

/// A fixed-point quotient by a divisor of at least one whole unit stays
/// within the magnitude of the numerator, and so within `i64`.
pub proof fn lemma_fx_div_big_den(a: int, b: int)
    requires
        abs(a) <= i64::MAX,
        abs(b) >= SCALE as int,
    ensures
        -(abs(a) as int) - 1 <= fx_div_spec(a, b) <= abs(a) as int,
        in_i64(fx_div_spec(a, b)),
{
    let m = abs(a) as int;
    lemma_fx_div_bound(a, b);
    lemma_div_is_ordered_by_denominator(m * (SCALE as int), SCALE as int, abs(b) as int);
    assert(m * (SCALE as int) == (SCALE as int) * m) by (nonlinear_arith);
    lemma_div_multiples_vanish(m, SCALE as int);
}

/// Floor division of an `i64` by a positive divisor; the result is exactly
/// `/` on `int`.
pub fn div_floor_i64(a: i64, b: i64) -> (q: i64)
    requires
        0 < b,
        i64::MIN < a,
    ensures
        q as int == a as int / b as int,
{
    let qq: i128 = floor_div_i128(a as i128, b as i128);
    proof {
        if a >= 0 {
            lemma_div_pos_is_pos(a as int, b as int);
            lemma_div_nonincreasing(a as int, b as int);
        } else {
            let m = -(a as int);
            lemma_neg_div(m, b as int);
            lemma_div_pos_is_pos(m, b as int);
            lemma_div_nonincreasing(m, b as int);
        }
    }
    qq as i64
}

/// Each coordinate of a vector is bounded in magnitude by the integer square
/// root of any number its square is below.
pub proof fn lemma_component_le_sqrt(x: int, n: int, r: int)
    requires
        x * x <= n,
        is_sqrt_of(n, r),
    ensures
        -r <= x <= r,
{
    assert(-r <= x <= r) by (nonlinear_arith)
        requires
            x * x <= n,
            0 <= r,
            n < (r + 1) * (r + 1),
    ;
}

/// Scaling a nonnegative `y` by a factor `t` of at most one whole unit keeps
/// the rescaled product between `0` and `y`.
proof fn lemma_scale_le(y: int, t: int)
    requires
        0 <= y,
        0 <= t <= SCALE as int,
    ensures
        0 <= y * t <= y * (SCALE as int),
        0 <= (y * t) / (SCALE as int) <= y,
{
    assert(0 <= y * t && y * t <= y * (SCALE as int)) by (nonlinear_arith)
        requires
            0 <= y,
            0 <= t <= SCALE as int,
    ;
    lemma_div_pos_is_pos(y * t, SCALE as int);
    lemma_div_is_ordered(y * t, y * (SCALE as int), SCALE as int);
    assert(y * (SCALE as int) == (SCALE as int) * y) by (nonlinear_arith);
    lemma_div_multiples_vanish(y, SCALE as int);
}

/// Degree-eleven Taylor polynomial for sine on `[0, QUARTER_PI]`, written as
/// the exact fixed-point Horner form that the executable code computes.
pub open spec fn sin_poly_spec(u: int) -> int {
    let y = (u * u) / (SCALE as int);
    let t5 = (SCALE as int) - y / 110;
    let t4 = (SCALE as int) - ((y * t5) / (SCALE as int)) / 72;
    let t3 = (SCALE as int) - ((y * t4) / (SCALE as int)) / 42;
    let t2 = (SCALE as int) - ((y * t3) / (SCALE as int)) / 20;
    let t1 = (SCALE as int) - ((y * t2) / (SCALE as int)) / 6;
    (u * t1) / (SCALE as int)
}

/// Degree-ten Taylor polynomial for cosine on `[0, QUARTER_PI]`, written as
/// the exact fixed-point Horner form that the executable code computes.
pub open spec fn cos_poly_spec(u: int) -> int {
    let y = (u * u) / (SCALE as int);
    let s5 = (SCALE as int) - y / 90;
    let s4 = (SCALE as int) - ((y * s5) / (SCALE as int)) / 56;
    let s3 = (SCALE as int) - ((y * s4) / (SCALE as int)) / 30;
    let s2 = (SCALE as int) - ((y * s3) / (SCALE as int)) / 12;
    (SCALE as int) - ((y * s2) / (SCALE as int)) / 2
}

fn sin_poly(u: u64) -> (r: u64)
    requires
        u <= 785_398_163,
    ensures
        r as int == sin_poly_spec(u as int),
        r <= u,
{
    proof {
        assert(u as int * u as int <= 785_398_163 * 785_398_163) by (nonlinear_arith)
            requires
                0 <= u as int <= 785_398_163,
        ;
        lemma_div_is_ordered(u as int * u as int, 785_398_163int * 785_398_163, 1_000_000_000);
        lemma_div_pos_is_pos(u as int * u as int, 1_000_000_000);
    }
    let y: u64 = (u * u) / 1_000_000_000;
    let t5: u64 = 1_000_000_000 - y / 110;
    proof {
        lemma_scale_le(y as int, t5 as int);
    }
    let t4: u64 = 1_000_000_000 - (y * t5 / 1_000_000_000) / 72;
    proof {
        lemma_scale_le(y as int, t4 as int);
    }
    let t3: u64 = 1_000_000_000 - (y * t4 / 1_000_000_000) / 42;
    proof {
        lemma_scale_le(y as int, t3 as int);
    }
    let t2: u64 = 1_000_000_000 - (y * t3 / 1_000_000_000) / 20;
    proof {
        lemma_scale_le(y as int, t2 as int);
    }
    let t1: u64 = 1_000_000_000 - (y * t2 / 1_000_000_000) / 6;
    proof {
        lemma_scale_le(u as int, t1 as int);
    }
    u * t1 / 1_000_000_000
}

fn cos_poly(u: u64) -> (r: u64)
    requires
        u <= 785_398_163,
    ensures
        r as int == cos_poly_spec(u as int),
        r <= 1_000_000_000,
{
    proof {
        assert(u as int * u as int <= 785_398_163 * 785_398_163) by (nonlinear_arith)
            requires
                0 <= u as int <= 785_398_163,
        ;
        lemma_div_is_ordered(u as int * u as int, 785_398_163int * 785_398_163, 1_000_000_000);
        lemma_div_pos_is_pos(u as int * u as int, 1_000_000_000);
    }
    let y: u64 = (u * u) / 1_000_000_000;
    let s5: u64 = 1_000_000_000 - y / 90;
    proof {
        lemma_scale_le(y as int, s5 as int);
    }
    let s4: u64 = 1_000_000_000 - (y * s5 / 1_000_000_000) / 56;
    proof {
        lemma_scale_le(y as int, s4 as int);
    }
    let s3: u64 = 1_000_000_000 - (y * s4 / 1_000_000_000) / 30;
    proof {
        lemma_scale_le(y as int, s3 as int);
    }
    let s2: u64 = 1_000_000_000 - (y * s3 / 1_000_000_000) / 12;
    proof {
        lemma_scale_le(y as int, s2 as int);
    }
    1_000_000_000 - (y * s2 / 1_000_000_000) / 2
}

/// Number of whole half-pi steps removed from a nonnegative angle during
/// range reduction.
pub open spec fn reduce_k(x: int) -> int {
    (x + QUARTER_PI as int) / (HALF_PI as int)
}

/// Residual of a nonnegative angle after range reduction; it lies in
/// `[-QUARTER_PI, QUARTER_PI]`.
pub open spec fn reduce_r(x: int) -> int {
    x - reduce_k(x) * (HALF_PI as int)
}

/// Sine of a nonnegative fixed-point angle: range reduction into a quadrant
/// followed by the Taylor polynomials on the residual.
pub open spec fn sin_nn_spec(x: int) -> int {
    let r = reduce_r(x);
    let sr = if r < 0 {
        -sin_poly_spec(-r)
    } else {
        sin_poly_spec(r)
    };
    let cr = cos_poly_spec(if r < 0 { -r } else { r });
    let q = reduce_k(x) % 4;
    if q == 0 {
        sr
    } else if q == 1 {
        cr
    } else if q == 2 {
        -sr
    } else {
        -cr
    }
}

/// Cosine of a nonnegative fixed-point angle.
pub open spec fn cos_nn_spec(x: int) -> int {
    let r = reduce_r(x);
    let sr = if r < 0 {
        -sin_poly_spec(-r)
    } else {
        sin_poly_spec(r)
    };
    let cr = cos_poly_spec(if r < 0 { -r } else { r });
    let q = reduce_k(x) % 4;
    if q == 0 {
        cr
    } else if q == 1 {
        -sr
    } else if q == 2 {
        -cr
    } else {
        sr
    }
}

/// The sine of a fixed-point angle, extended to negative angles by odd
/// symmetry.
pub open spec fn sin_spec(x: int) -> int {
    if x < 0 {
        -sin_nn_spec(-x)
    } else {
        sin_nn_spec(x)
    }
}

/// The cosine of a fixed-point angle, extended to negative angles by even
/// symmetry.
pub open spec fn cos_spec(x: int) -> int {
    if x < 0 {
        cos_nn_spec(-x)
    } else {
        cos_nn_spec(x)
    }
}

fn sin_cos_core(x: u64) -> (sc: (i64, i64))
    requires
        x <= 0x7FFF_FFFF_FFFF_FFFF,
    ensures
        sc.0 as int == sin_nn_spec(x as int),
        sc.1 as int == cos_nn_spec(x as int),
        -1_000_000_000 <= sc.0 <= 1_000_000_000,
        -1_000_000_000 <= sc.1 <= 1_000_000_000,
{
    let k: u64 = (x + 785_398_163) / 1_570_796_327;
    proof {
        lemma_fundamental_div_mod(x as int + 785_398_163, 1_570_796_327);
        lemma_mod_bound(x as int + 785_398_163, 1_570_796_327);
        assert(1_570_796_327 * (k as int) == (k as int) * 1_570_796_327) by (nonlinear_arith);
    }
    let m: u64 = k * 1_570_796_327;
    let (rr, rneg): (u64, bool) = if m <= x {
        (x - m, false)
    } else {
        (m - x, true)
    };
    let sp: u64 = sin_poly(rr);
    let cp: u64 = cos_poly(rr);
    let sr: i64 = if rneg {
        -(sp as i64)
    } else {
        sp as i64
    };
    let cr: i64 = cp as i64;
    let q: u64 = k % 4;
    proof {
        assert(reduce_k(x as int) == k as int);
        assert(reduce_r(x as int) == x as int - m as int);
    }
    if q == 0 {
        (sr, cr)
    } else if q == 1 {
        (cr, -sr)
    } else if q == 2 {
        (-sr, -cr)
    } else {
        (-cr, sr)
    }
}

/// Fixed-point sine and cosine of an angle: exactly [`sin_spec`] and
/// [`cos_spec`], each within one whole unit of zero.
pub fn fx_sin_cos(x: i64) -> (sc: (i64, i64))
    requires
        i64::MIN < x,
    ensures
        sc.0 as int == sin_spec(x as int),
        sc.1 as int == cos_spec(x as int),
        -1_000_000_000 <= sc.0 <= 1_000_000_000,
        -1_000_000_000 <= sc.1 <= 1_000_000_000,
{
    if x < 0 {
        let sc: (i64, i64) = sin_cos_core((-x) as u64);
        (-sc.0, sc.1)
    } else {
        sin_cos_core(x as u64)
    }
}

/// Inverse cosine by bisection over the fixed-point cosine: an angle in
/// `[0, PI)` at which the cosine crosses `c`, so that the cosine of the
/// angle is at least `c` while the cosine one step later is at most `c`.
pub fn fx_acos(c: i64) -> (r: i64)
    requires
        -SCALE <= c <= SCALE,
    ensures
        0 <= r < PI,
        cos_spec(r as int) >= c as int,
        cos_spec(r as int + 1) <= c as int,
{
    proof {
        lemma_trig_anchors();
    }
    let mut lo: i64 = 0;
    let mut hi: i64 = PI;
    while hi - lo > 1
        invariant
            0 <= lo < hi <= PI,
            cos_spec(lo as int) >= c as int,
            cos_spec(hi as int) <= c as int,
            -SCALE <= c <= SCALE,
        decreases hi - lo,
    {
        let half: i64 = ((hi - lo) as u64 / 2) as i64;
        let mid: i64 = lo + half;
        let sc: (i64, i64) = fx_sin_cos(mid);
        if sc.1 >= c {
            lo = mid;
        } else {
            hi = mid;
        }
    }
    lo
}

/// The fixed-point sine and cosine at every quadrant boundary: the angle
/// constants are exact multiples of `HALF_PI`, so range reduction leaves a
/// zero residual there and the polynomials collapse to exact values.
pub proof fn lemma_trig_anchors()
    ensures
        sin_spec(0) == 0,
        cos_spec(0) == SCALE as int,
        sin_spec(HALF_PI as int) == SCALE as int,
        cos_spec(HALF_PI as int) == 0,
        sin_spec(PI as int) == 0,
        cos_spec(PI as int) == -(SCALE as int),
        sin_spec(TWO_PI as int) == 0,
        cos_spec(TWO_PI as int) == SCALE as int,
        sin_spec(-(HALF_PI as int)) == -(SCALE as int),
        cos_spec(-(HALF_PI as int)) == 0,
        sin_spec(-(PI as int)) == 0,
        cos_spec(-(PI as int)) == -(SCALE as int),
{
    lemma_fundamental_div_mod_converse(785_398_163, 1_570_796_327, 0, 785_398_163);
    lemma_fundamental_div_mod_converse(2_356_194_490, 1_570_796_327, 1, 785_398_163);
    lemma_fundamental_div_mod_converse(3_926_990_817, 1_570_796_327, 2, 785_398_163);
    lemma_fundamental_div_mod_converse(7_068_583_471, 1_570_796_327, 4, 785_398_163);
    assert(reduce_k(0) == 0 && reduce_r(0) == 0);
    assert(reduce_k(HALF_PI as int) == 1 && reduce_r(HALF_PI as int) == 0);
    assert(reduce_k(PI as int) == 2 && reduce_r(PI as int) == 0);
    assert(reduce_k(TWO_PI as int) == 4 && reduce_r(TWO_PI as int) == 0);
    assert(sin_poly_spec(0) == 0);
    assert(cos_poly_spec(0) == SCALE as int);
}

} // verus!
