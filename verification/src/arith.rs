//! Integer arithmetic shared by the modules.

use vstd::prelude::*;

verus! {

/// `a / b`, rounded up.
pub open spec fn spec_ceil_div(a: int, b: int) -> int {
    (a + b - 1) / b
}

/// `a / b`, rounded up.
pub fn ceil_div(a: usize, b: usize) -> (q: usize)
    requires
        b > 0,
    ensures
        q == spec_ceil_div(a as int, b as int),
        q * b >= a,
        q * b < a + b,
{
    let q: usize = a / b;
    let r: usize = a % b;
    proof {
        lemma_ceil_div(a as int, b as int);
        assert(r > 0 ==> q < a) by (nonlinear_arith)
            requires
                q == a as int / b as int,
                r == a as int % b as int,
                b > 0,
                a >= 0,
        ;
    }
    if r == 0 {
        q
    } else {
        q + 1
    }
}

/// The rounded-up quotient is the least multiple count that covers `a`.
pub proof fn lemma_ceil_div(a: int, b: int)
    requires
        a >= 0,
        b > 0,
    ensures
        spec_ceil_div(a, b) == if a % b == 0 {
            a / b
        } else {
            a / b + 1
        },
        0 <= a <= spec_ceil_div(a, b) * b < a + b,
        0 <= spec_ceil_div(a, b),
{
    let q = spec_ceil_div(a, b);
    assert(a <= q * b < a + b && 0 <= q) by (nonlinear_arith)
        requires
            q == (a + b - 1) / b,
            a >= 0,
            b > 0,
    ;
    let f = a / b;
    let r = a % b;
    assert(a == f * b + r && 0 <= r < b) by (nonlinear_arith)
        requires
            f == a / b,
            r == a % b,
            b > 0,
    ;
    if r == 0 {
        assert(q == f) by (nonlinear_arith)
            requires
                a <= q * b < a + b,
                a == f * b,
                b > 0,
        ;
    } else {
        assert(q == f + 1) by (nonlinear_arith)
            requires
                a <= q * b < a + b,
                a == f * b + r,
                0 < r < b,
        ;
    }
}

} // verus!
