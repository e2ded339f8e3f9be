//! Integer arithmetic helpers: floor division, integer square roots and
//! truncated scaling. All simulation geometry is exact integer arithmetic
//! built from these.

use vstd::prelude::*;

verus! {

use vstd::arithmetic::div_mod::{
    lemma_fundamental_div_mod,
    lemma_fundamental_div_mod_converse,
    lemma_div_is_ordered,
};

/// Largest `r` with `r * r <= n`.
pub open spec fn sqrt_floor(n: nat) -> nat
    decreases n,
{
    if n == 0 {
        0
    } else {
        let p = sqrt_floor((n - 1) as nat);
        if (p + 1) * (p + 1) <= n {
            p + 1
        } else {
            p
        }
    }
}

/// Smallest `r` with `n <= r * r`.
pub open spec fn sqrt_ceil(n: nat) -> nat {
    let p = sqrt_floor(n);
    if p * p == n {
        p
    } else {
        p + 1
    }
}

/// `sqrt_floor(n)` is indeed the floor of the square root of `n`.
pub proof fn lemma_sqrt_floor_bounds(n: nat)
    ensures
        sqrt_floor(n) * sqrt_floor(n) <= n,
        n < (sqrt_floor(n) + 1) * (sqrt_floor(n) + 1),
    decreases n,
{
    if n == 0 {
        assert(sqrt_floor(0) == 0);
        let z = sqrt_floor(n);
        assert((z + 1) * (z + 1) == 1) by (nonlinear_arith)
            requires
                z == 0,
        ;
    } else {
        lemma_sqrt_floor_bounds((n - 1) as nat);
        let p = sqrt_floor((n - 1) as nat);
        assert(sqrt_floor(n) == if (p + 1) * (p + 1) <= n {
            p + 1
        } else {
            p
        });
        if (p + 1) * (p + 1) <= n {
            assert(sqrt_floor(n) == p + 1);
            assert(n <= (p + 1) * (p + 1)) by {
                assert(n - 1 < (p + 1) * (p + 1));
            }
            assert((p + 1) * (p + 1) < ((p + 1) + 1) * ((p + 1) + 1)) by (nonlinear_arith);
            assert(n < (sqrt_floor(n) + 1) * (sqrt_floor(n) + 1));
        } else {
            assert(sqrt_floor(n) == p);
            assert(p * p <= n - 1);
            assert(n < (sqrt_floor(n) + 1) * (sqrt_floor(n) + 1));
        }
    }
}

/// Two integers whose squares bracket `n` the same way are equal.
pub proof fn lemma_sqrt_unique(n: nat, r: nat, s: nat)
    by (nonlinear_arith)
    requires
        r * r <= n < (r + 1) * (r + 1),
        s * s <= n < (s + 1) * (s + 1),
    ensures
        r == s,
{
}

/// The ceiling root squared reaches `n`, and nothing smaller does.
pub proof fn lemma_sqrt_ceil_bounds(n: nat)
    ensures
        n <= sqrt_ceil(n) * sqrt_ceil(n),
        sqrt_ceil(n) > 0 ==> (sqrt_ceil(n) - 1) * (sqrt_ceil(n) - 1) < n,
        n > 0 ==> sqrt_ceil(n) > 0,
{
    lemma_sqrt_floor_bounds(n);
    let p = sqrt_floor(n);
    if p * p == n {
        if p > 0 {
            assert((p - 1) * (p - 1) < p * p) by (nonlinear_arith)
                requires
                    p > 0,
            ;
        }
    } else {
        assert(p * p < n);
    }
}

/// Floor of the real square root, by binary search.
pub fn isqrt(n: u64) -> (r: u64)
    requires
        n < 0x8000_0000_0000_0000,
    ensures
        r == sqrt_floor(n as nat),
        r * r <= n,
        n < (r + 1) * (r + 1),
{
    proof {
        lemma_sqrt_floor_bounds(n as nat);
    }
    let mut lo: u64 = 0;
    let mut hi: u64 = 3_037_000_500;
    assert(n < hi * hi);
    while lo + 1 < hi
        invariant
            lo < hi <= 3_037_000_500,
            lo * lo <= n,
            n < hi * hi,
        decreases hi - lo,
    {
        let mid = lo + (hi - lo) / 2;
        proof {
            assert(mid as int * mid as int <= 3_037_000_500 * 3_037_000_500) by (nonlinear_arith)
                requires
                    0 <= mid as int <= 3_037_000_500,
            ;
        }
        if mid * mid <= n {
            lo = mid;
        } else {
            hi = mid;
        }
    }
    proof {
        lemma_sqrt_unique(n as nat, lo as nat, sqrt_floor(n as nat));
    }
    lo
}

/// Ceiling of the real square root.
pub fn isqrt_up(n: u64) -> (r: u64)
    requires
        n < 0x8000_0000_0000_0000,
    ensures
        r == sqrt_ceil(n as nat),
        n <= r * r,
        n > 0 ==> r > 0,
{
    let p = isqrt(n);
    proof {
        lemma_sqrt_ceil_bounds(n as nat);
        assert(p as int <= 3_037_000_500) by (nonlinear_arith)
            requires
                (p as int) * (p as int) <= n as int,
                (n as int) < 0x8000_0000_0000_0000,
                0 <= (p as int),
        ;
    }
    if p * p == n {
        p
    } else {
        p + 1
    }
}

/// Floor division of `a` by a positive `b`; agrees with the mathematical
/// (Euclidean) quotient also for negative `a`.
pub fn floor_div(a: i64, b: i64) -> (q: i64)
    requires
        1 <= b,
        -0x2000_0000_0000_0000 <= a <= 0x2000_0000_0000_0000,
    ensures
        q == a as int / b as int,
        b * q <= a < b * (q + 1),
{
    let q: i64 = if a >= 0 {
        ((a as u64) / (b as u64)) as i64
    } else {
        let na: u64 = (-a) as u64;
        let d: u64 = na / (b as u64);
        let m: u64 = na % (b as u64);
        if m == 0 {
            -(d as i64)
        } else {
            -(d as i64) - 1
        }
    };
    proof {
        let ai = a as int;
        let bi = b as int;
        if a >= 0 {
            assert(q == ai / bi);
        } else {
            let na = -ai;
            lemma_fundamental_div_mod(na, bi);
            let d = na / bi;
            let m = na % bi;
            if m == 0 {
                assert(ai == (-d) * bi + 0) by (nonlinear_arith)
                    requires
                        na == bi * d + m,
                        m == 0,
                        na == -ai,
                ;
                lemma_fundamental_div_mod_converse(ai, bi, -d, 0);
            } else {
                assert(ai == (-d - 1) * bi + (bi - m)) by (nonlinear_arith)
                    requires
                        na == bi * d + m,
                        na == -ai,
                ;
                lemma_fundamental_div_mod_converse(ai, bi, -d - 1, bi - m);
            }
        }
        lemma_fundamental_div_mod(ai, bi);
        assert(bi * q <= ai < bi * (q + 1)) by (nonlinear_arith)
            requires
                bi >= 1,
                q == ai / bi,
                ai == bi * (ai / bi) + ai % bi,
                0 <= ai % bi < bi,
        ;
    }
    q
}

/// Floor division is monotone in the dividend.
pub proof fn lemma_floor_div_ordered(a: int, b: int, d: int)
    requires
        1 <= d,
        a <= b,
    ensures
        a / d <= b / d,
{
    lemma_div_is_ordered(a, b, d);
}

/// The quotient of a bounded dividend by a positive divisor stays within
/// the dividend's bound.
pub proof fn lemma_div_small_bounds(a: int, b: int)
    requires
        1 <= b,
        -2_100_000_000 <= a <= 2_100_000_000,
    ensures
        -2_100_000_001 <= a / b <= 2_100_000_000,
{
    lemma_fundamental_div_mod(a, b);
    lemma_div_small_bounds_helper(a, b, a / b, a % b);
}

/// Helper for [`lemma_div_small_bounds`], over the quotient and remainder
/// as free variables.
proof fn lemma_div_small_bounds_helper(a: int, b: int, q: int, r: int)
    by (nonlinear_arith)
    requires
        1 <= b,
        -2_100_000_000 <= a <= 2_100_000_000,
        a == b * q + r,
        0 <= r < b,
    ensures
        -2_100_000_001 <= q <= 2_100_000_000,
{
    if q >= 1 {
        assert(b * q >= q);
    }
    if q <= -2_100_000_002 {
        assert(b * (q + 1) <= q + 1);
    }
}

/// `a * m / d`, truncated toward zero, for nonnegative `m` and positive `d`.
pub open spec fn mul_div_trunc_spec(a: int, m: int, d: int) -> int {
    if a >= 0 {
        (a * m) / d
    } else {
        -((-a * m) / d)
    }
}

/// Truncated scaling of a possibly negative `a` by the ratio `m / d`.
pub fn mul_div_trunc(a: i64, m: i64, d: i64) -> (r: i64)
    requires
        0 <= m,
        1 <= d,
        -0x4000_0000_0000_0000 <= a * m <= 0x4000_0000_0000_0000,
        -0x4000_0000_0000_0000 <= a <= 0x4000_0000_0000_0000,
    ensures
        r == mul_div_trunc_spec(a as int, m as int, d as int),
{
    if a >= 0 {
        proof {
            assert(a * m >= 0) by (nonlinear_arith)
                requires
                    a >= 0,
                    m >= 0,
            ;
            assert(a as u64 * m as u64 == a * m) by (nonlinear_arith)
                requires
                    a as u64 == a as int,
                    m as u64 == m as int,
            ;
            vstd::arithmetic::div_mod::lemma_div_pos_is_pos(a as int * m as int, d as int);
            vstd::arithmetic::div_mod::lemma_div_is_ordered(
                a as int * m as int,
                0x4000_0000_0000_0000,
                d as int,
            );
            vstd::arithmetic::div_mod::lemma_div_nonincreasing(0x4000_0000_0000_0000, d as int);
        }
        let p: u64 = (a as u64) * (m as u64);
        ((p / (d as u64)) as i64)
    } else {
        proof {
            assert((-a) * m >= 0 && (-a) * m == -(a * m)) by (nonlinear_arith)
                requires
                    a < 0,
                    m >= 0,
            ;
            assert((-a) as u64 * m as u64 == (-a) * m) by (nonlinear_arith)
                requires
                    (-a) as u64 == -a as int,
                    m as u64 == m as int,
            ;
            vstd::arithmetic::div_mod::lemma_div_pos_is_pos((-a) as int * m as int, d as int);
            vstd::arithmetic::div_mod::lemma_div_is_ordered(
                (-a) as int * m as int,
                0x4000_0000_0000_0000,
                d as int,
            );
            vstd::arithmetic::div_mod::lemma_div_nonincreasing(0x4000_0000_0000_0000, d as int);
        }
        let p: u64 = ((-a) as u64) * (m as u64);
        -((p / (d as u64)) as i64)
    }
}

/// Truncated scaling never grows the magnitude of the numerator product:
/// `|r| * d <= |a| * m` and the sign of `r` follows the sign of `a`.
pub proof fn lemma_mul_div_trunc_bounds(a: int, m: int, d: int)
    requires
        0 <= m,
        1 <= d,
    ensures
        a >= 0 ==> 0 <= mul_div_trunc_spec(a, m, d) && mul_div_trunc_spec(a, m, d) * d <= a * m,
        a < 0 ==> mul_div_trunc_spec(a, m, d) <= 0 && (-mul_div_trunc_spec(a, m, d)) * d <= -(a
            * m),
{
    if a >= 0 {
        let p = a * m;
        assert(a * m >= 0) by (nonlinear_arith)
            requires
                a >= 0,
                m >= 0,
        ;
        lemma_fundamental_div_mod(p, d);
        vstd::arithmetic::div_mod::lemma_div_pos_is_pos(p, d);
        let q = p / d;
        let r = p % d;
        assert(q * d <= p) by (nonlinear_arith)
            requires
                p == d * q + r,
                r >= 0,
        ;
    } else {
        let p = -a * m;
        assert(-a * m >= 0 && -a * m == -(a * m)) by (nonlinear_arith)
            requires
                a < 0,
                m >= 0,
        ;
        lemma_fundamental_div_mod(p, d);
        vstd::arithmetic::div_mod::lemma_div_pos_is_pos(p, d);
        let q = p / d;
        let r = p % d;
        assert(q * d <= p) by (nonlinear_arith)
            requires
                p == d * q + r,
                r >= 0,
        ;
    }
}

} // verus!
