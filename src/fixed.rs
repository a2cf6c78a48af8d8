//! Fixed-point helpers shared by the signal-processing stages.

use vstd::prelude::*;

use crate::UNIT;

verus! {

/// Largest magnitude accepted by `mul_unit`: products stay within `i64`.
pub const MUL_LIMIT: i64 = 2147483648;

/// Product of two Q24 numbers, truncated toward zero.
pub open spec fn mul_q(a: int, b: int) -> int {
    let p = a * b;
    if p >= 0 {
        p / (UNIT as int)
    } else {
        -((-p) / (UNIT as int))
    }
}

/// Multiplies two Q24 numbers, truncating toward zero.
pub fn mul_unit(a: i64, b: i64) -> (r: i64)
    requires
        -MUL_LIMIT <= a <= MUL_LIMIT,
        -MUL_LIMIT <= b <= MUL_LIMIT,
    ensures
        r == mul_q(a as int, b as int),
{
    proof {
        assert(-MUL_LIMIT * MUL_LIMIT <= a * b <= MUL_LIMIT * MUL_LIMIT) by (nonlinear_arith)
            requires -MUL_LIMIT <= a <= MUL_LIMIT, -MUL_LIMIT <= b <= MUL_LIMIT;
    }
    let p = a * b;
    if p >= 0 {
        p / UNIT
    } else {
        -((-p) / UNIT)
    }
}

/// `mul_q` by a factor within `[0, UNIT]` never grows a magnitude.
pub proof fn lemma_mul_q_shrinks(a: int, b: int)
    requires
        0 <= b <= UNIT,
    ensures
        a >= 0 ==> 0 <= mul_q(a, b) <= a,
        a < 0 ==> a <= mul_q(a, b) <= 0,
{
    let u = UNIT as int;
    if a >= 0 {
        assert(0 <= a * b <= a * u) by (nonlinear_arith)
            requires a >= 0, 0 <= b <= u;
        assert((a * b) / u <= (a * u) / u) by (nonlinear_arith)
            requires 0 <= a * b <= a * u, u > 0;
        assert((a * u) / u == a) by (nonlinear_arith)
            requires u > 0;
    } else {
        let na = -a;
        assert(0 <= na * b <= na * u) by (nonlinear_arith)
            requires na >= 0, 0 <= b <= u;
        assert(-(a * b) == na * b) by (nonlinear_arith)
            requires na == -a;
        assert((na * b) / u <= (na * u) / u) by (nonlinear_arith)
            requires 0 <= na * b <= na * u, u > 0;
        assert((na * u) / u == na) by (nonlinear_arith)
            requires u > 0;
        if a * b == 0 {
        } else {
            assert(a * b < 0);
        }
    }
}

/// `|a·b| ≤ ma·mb` carries over to the truncated Q24 product.
pub proof fn lemma_mul_q_magnitude(a: int, b: int, ma: int, mb: int)
    requires
        -ma <= a <= ma,
        -mb <= b <= mb,
    ensures
        -(ma * mb / (UNIT as int)) <= mul_q(a, b) <= ma * mb / (UNIT as int),
{
    let u = UNIT as int;
    let p = a * b;
    assert(-(ma * mb) <= p <= ma * mb) by (nonlinear_arith)
        requires -ma <= a <= ma, -mb <= b <= mb, p == a * b;
    if p >= 0 {
        assert(p / u <= (ma * mb) / u) by (nonlinear_arith)
            requires 0 <= p <= ma * mb, u > 0;
        assert(p / u >= 0) by (nonlinear_arith)
            requires p >= 0, u > 0;
    } else {
        assert((-p) / u <= (ma * mb) / u) by (nonlinear_arith)
            requires 0 <= -p <= ma * mb, u > 0;
        assert((-p) / u >= 0) by (nonlinear_arith)
            requires -p >= 0, u > 0;
    }
}

} // verus!
