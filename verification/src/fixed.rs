//! Sub-pixel fixed-point arithmetic.
//!
//! Every length and coordinate in the engine is an `i64` counting units of
//! `1 / FP_ONE` of a pixel, so that ray marching, fisheye correction and
//! texture-coordinate derivation are exact integer computations. Division
//! always rounds toward negative infinity (floor), which for a positive
//! divisor coincides with Euclidean division and so with `/` in
//! specifications.

use vstd::prelude::*;
use vstd::arithmetic::div_mod::lemma_fundamental_div_mod;
use vstd::arithmetic::div_mod::lemma_fundamental_div_mod_converse;

verus! {

/// One pixel, in fixed-point units.
pub const FP_ONE: i64 = 1024;

/// Largest magnitude accepted by [`floor_div`]'s dividend.
pub const DIV_BOUND: i64 = 0x4000_0000_0000_0000;

/// Largest magnitude accepted by [`fp_mul`]'s factors.
pub const FACTOR_BOUND: i64 = 0x7FFF_FFFF;

/// The fixed-point product: `a * b` scaled back down by `FP_ONE`,
/// rounded toward negative infinity.
pub open spec fn fp_mul_spec(a: int, b: int) -> int {
    (a * b) / (FP_ONE as int)
}

/// Floor division by a positive divisor.
///
/// For a positive divisor, Euclidean division (spec `/`) rounds toward
/// negative infinity, so the postcondition ties the result directly to
/// the specification-level quotient.
pub fn floor_div(a: i64, b: i64) -> (q: i64)
    requires
        1 <= b <= 0x1_0000_0000,
        -DIV_BOUND <= a <= DIV_BOUND,
    ensures
        q == a as int / b as int,
{
    if a >= 0 {
        a / b
    } else {
        let t: i64 = (-a + b - 1) / b;
        proof {
            let ai = a as int;
            let bi = b as int;
            let q1 = (-ai) / bi;
            let r1 = (-ai) % bi;
            lemma_fundamental_div_mod(-ai, bi);
            assert(-ai == bi * q1 + r1);
            if r1 == 0 {
                assert(-ai + bi - 1 == q1 * bi + (bi - 1)) by (nonlinear_arith)
                    requires -ai == bi * q1 + r1 && r1 == 0;
                lemma_fundamental_div_mod_converse(-ai + bi - 1, bi, q1, bi - 1);
                assert(ai == (-q1) * bi + 0) by (nonlinear_arith)
                    requires -ai == bi * q1 + r1 && r1 == 0;
                lemma_fundamental_div_mod_converse(ai, bi, -q1, 0);
            } else {
                assert(-ai + bi - 1 == (q1 + 1) * bi + (r1 - 1)) by (nonlinear_arith)
                    requires -ai == bi * q1 + r1;
                lemma_fundamental_div_mod_converse(-ai + bi - 1, bi, q1 + 1, r1 - 1);
                assert(ai == (-q1 - 1) * bi + (bi - r1)) by (nonlinear_arith)
                    requires -ai == bi * q1 + r1;
                lemma_fundamental_div_mod_converse(ai, bi, -q1 - 1, bi - r1);
            }
        }
        -t
    }
}

/// Fixed-point multiplication: `(a * b) / FP_ONE`, rounded toward
/// negative infinity.
pub fn fp_mul(a: i64, b: i64) -> (r: i64)
    requires
        -FACTOR_BOUND <= a <= FACTOR_BOUND,
        -FACTOR_BOUND <= b <= FACTOR_BOUND,
    ensures
        r == fp_mul_spec(a as int, b as int),
        -DIV_BOUND <= r <= DIV_BOUND,
{
    proof {
        assert(-DIV_BOUND <= a as int * b as int <= DIV_BOUND) by (nonlinear_arith)
            requires
                -FACTOR_BOUND as int <= a as int <= FACTOR_BOUND as int,
                -FACTOR_BOUND as int <= b as int <= FACTOR_BOUND as int;
    }
    let p: i64 = a * b;
    let r = floor_div(p, FP_ONE);
    proof {
        vstd::arithmetic::div_mod::lemma_div_is_ordered(
            -DIV_BOUND as int,
            p as int,
            FP_ONE as int,
        );
        vstd::arithmetic::div_mod::lemma_div_is_ordered(
            p as int,
            DIV_BOUND as int,
            FP_ONE as int,
        );
    }
    r
}

/// Floor modulus by a positive divisor: the representative in `[0, b)`,
/// matching `%` in specifications.
pub fn floor_mod(a: i64, b: i64) -> (r: i64)
    requires
        1 <= b <= 0x1_0000_0000,
        -DIV_BOUND <= a <= DIV_BOUND,
    ensures
        r == a as int % b as int,
        0 <= r < b,
{
    let q = floor_div(a, b);
    proof {
        lemma_fundamental_div_mod(a as int, b as int);
        assert(q as int * b as int == b as int * q as int) by (nonlinear_arith);
    }
    a - q * b
}

/// A coordinate lies in a cell's half-open span exactly when floor
/// division by the cell size lands on that cell.
pub proof fn lemma_floor_div_range(a: int, c: int, b: int)
    requires
        0 < b,
    ensures
        (c * b <= a < (c + 1) * b) <==> (a / b == c),
{
    assert((c + 1) * b == c * b + b) by (nonlinear_arith);
    if c * b <= a < (c + 1) * b {
        lemma_fundamental_div_mod_converse(a, b, c, a - c * b);
    }
    if a / b == c {
        lemma_fundamental_div_mod(a, b);
        assert(b * (a / b) == (a / b) * b) by (nonlinear_arith);
    }
}

/// Scaling a non-negative quantity by a fixed-point factor of magnitude at
/// most one cannot grow it.
pub proof fn lemma_fp_mul_bounded(d: int, dir: int)
    requires
        0 <= d,
        -FP_ONE <= dir <= FP_ONE,
    ensures
        -d <= fp_mul_spec(d, dir) <= d,
{
    assert(-(d * FP_ONE) <= d * dir <= d * FP_ONE) by (nonlinear_arith)
        requires 0 <= d && -FP_ONE as int <= dir <= FP_ONE as int;
    lemma_fp_mul_one(d);
    lemma_fp_mul_one(-d);
    vstd::arithmetic::div_mod::lemma_div_is_ordered(-(d * FP_ONE), d * dir, FP_ONE as int);
    vstd::arithmetic::div_mod::lemma_div_is_ordered(d * dir, d * FP_ONE, FP_ONE as int);
}

/// Multiplying a quantity by the fixed-point representation of one
/// changes nothing: no fisheye correction is applied to a ray cast
/// exactly along the viewer's heading.
pub proof fn lemma_fp_mul_one(a: int)
    ensures
        fp_mul_spec(a, FP_ONE as int) == a,
{
    lemma_fundamental_div_mod_converse(a * (FP_ONE as int), FP_ONE as int, a, 0);
}

} // verus!
