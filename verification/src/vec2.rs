//! Integer 2D vectors: squared distances and magnitude capping. A velocity is
//! never normalised through floating point; instead a vector is rescaled by
//! the ceiling of its integer length, which keeps the capped magnitude exact.

use vstd::prelude::*;

verus! {

use crate::COORD_LIMIT;
use crate::TRAIT_LIMIT;
use crate::math::{
    sqrt_ceil,
    isqrt_up,
    mul_div_trunc,
    mul_div_trunc_spec,
    lemma_mul_div_trunc_bounds,
};

/// A point or displacement of the plane, in milli-units.
#[derive(Clone, Copy, Debug, PartialEq, Eq, Structural)]
pub struct Vec2i {
    pub x: i64,
    pub y: i64,
}

/// Squared Euclidean magnitude.
pub open spec fn norm_sq(v: Vec2i) -> int {
    v.x * v.x + v.y * v.y
}

/// Squared Euclidean distance between two points.
pub open spec fn dist_sq_spec(a: Vec2i, b: Vec2i) -> int {
    (a.x - b.x) * (a.x - b.x) + (a.y - b.y) * (a.y - b.y)
}

/// Both coordinates within the world's machine bound.
pub open spec fn in_world(v: Vec2i) -> bool {
    &&& -COORD_LIMIT <= v.x <= COORD_LIMIT
    &&& -COORD_LIMIT <= v.y <= COORD_LIMIT
}

/// Components no larger than roughly twice the world bound; intermediate
/// displacements and perturbed velocities stay inside it.
pub open spec fn small_vec(v: Vec2i) -> bool {
    &&& -2_100_000_000 <= v.x <= 2_100_000_000
    &&& -2_100_000_000 <= v.y <= 2_100_000_000
}

/// Squared distance between two in-world points.
pub fn dist_sq(a: Vec2i, b: Vec2i) -> (r: i64)
    requires
        in_world(a),
        in_world(b),
    ensures
        r == dist_sq_spec(a, b),
        0 <= r <= 8_000_000_000_000_000_000,
{
    let dx: i64 = a.x - b.x;
    let dy: i64 = a.y - b.y;
    proof {
        lemma_square_bound(dx as int, 2_000_000_000);
        lemma_square_bound(dy as int, 2_000_000_000);
    }
    dx * dx + dy * dy
}

/// The square of a number bounded by `b` is at most `b * b`, and nonnegative.
pub proof fn lemma_square_bound(a: int, b: int)
    by (nonlinear_arith)
    requires
        -b <= a <= b,
        0 <= b,
    ensures
        0 <= a * a <= b * b,
{
}

/// Rescaling the components of a vector of length at most `d` by `cap / d`
/// leaves a vector of length at most `cap`.
proof fn lemma_cap_norm(ax: int, ay: int, d: int, cap: int, aqx: int, aqy: int)
    by (nonlinear_arith)
    requires
        1 <= d,
        0 <= cap,
        0 <= ax,
        0 <= ay,
        0 <= aqx,
        0 <= aqy,
        ax * ax + ay * ay <= d * d,
        aqx * d <= ax * cap,
        aqy * d <= ay * cap,
    ensures
        aqx * aqx + aqy * aqy <= cap * cap,
        aqx <= cap,
        aqy <= cap,
{
    assert(ax <= d && ay <= d);
    assert(aqx <= cap && aqy <= cap);
    assert((aqx * d) * (aqx * d) <= (ax * cap) * (ax * cap));
    assert((aqy * d) * (aqy * d) <= (ay * cap) * (ay * cap));
    assert((aqx * aqx + aqy * aqy) * (d * d) <= (ax * ax + ay * ay) * (cap * cap));
}

/// The vector `v` rescaled so that its magnitude is at most `cap`; the
/// direction is kept, each component truncated toward zero.
pub open spec fn rescaled_component(a: int, cap: int, ns: int) -> int {
    mul_div_trunc_spec(a, cap, sqrt_ceil(ns as nat) as int)
}

/// Rescales `v` by `cap` over the ceiling of its length. For the zero vector
/// the result is zero; otherwise the magnitude comes out at most `cap`.
fn rescale(v: Vec2i, cap: i64) -> (w: Vec2i)
    requires
        small_vec(v),
        0 <= cap <= TRAIT_LIMIT,
    ensures
        norm_sq(w) <= cap * cap,
        v.x == 0 && v.y == 0 ==> w.x == 0 && w.y == 0,
        !(v.x == 0 && v.y == 0) ==> w.x == rescaled_component(v.x as int, cap as int, norm_sq(v))
            && w.y == rescaled_component(v.y as int, cap as int, norm_sq(v)),
        -TRAIT_LIMIT <= w.x <= TRAIT_LIMIT,
        -TRAIT_LIMIT <= w.y <= TRAIT_LIMIT,
{
    proof {
        lemma_square_bound(v.x as int, 2_100_000_000);
        lemma_square_bound(v.y as int, 2_100_000_000);
    }
    let ns: i64 = v.x * v.x + v.y * v.y;
    if ns == 0 {
        proof {
            if v.x != 0 {
                lemma_square_pos(v.x as int);
                lemma_square_bound(v.y as int, 2_100_000_000);
            }
            if v.y != 0 {
                lemma_square_pos(v.y as int);
                lemma_square_bound(v.x as int, 2_100_000_000);
            }
        }
        return Vec2i { x: 0, y: 0 };
    }
    let d_u: u64 = isqrt_up(ns as u64);
    proof {
        if v.x == 0 && v.y == 0 {
            assert(v.x * v.x == 0 && v.y * v.y == 0) by (nonlinear_arith)
                requires
                    v.x as int == 0,
                    v.y as int == 0,
            ;
        }
        crate::math::lemma_sqrt_ceil_bounds(ns as nat);
        assert(d_u as int <= 3_100_000_000) by (nonlinear_arith)
            requires
                0 < (d_u as int),
                ((d_u as int) - 1) * ((d_u as int) - 1) < 0x8000_0000_0000_0000,
        ;
    }
    let d: i64 = d_u as i64;
    proof {
        lemma_mul_bound(v.x as int, 2_100_000_000, cap as int, TRAIT_LIMIT as int);
        lemma_mul_bound(v.y as int, 2_100_000_000, cap as int, TRAIT_LIMIT as int);
    }
    let qx: i64 = mul_div_trunc(v.x, cap, d);
    let qy: i64 = mul_div_trunc(v.y, cap, d);
    proof {
        lemma_mul_div_trunc_bounds(v.x as int, cap as int, d as int);
        lemma_mul_div_trunc_bounds(v.y as int, cap as int, d as int);
        lemma_neg_square(v.x as int);
        lemma_neg_square(v.y as int);
        lemma_neg_square(qx as int);
        lemma_neg_square(qy as int);
        lemma_neg_mul(v.x as int, cap as int);
        lemma_neg_mul(v.y as int, cap as int);
        let ax = if v.x >= 0 { v.x as int } else { -(v.x as int) };
        let ay = if v.y >= 0 { v.y as int } else { -(v.y as int) };
        let aqx = if v.x >= 0 { qx as int } else { -(qx as int) };
        let aqy = if v.y >= 0 { qy as int } else { -(qy as int) };
        lemma_cap_norm(ax, ay, d as int, cap as int, aqx, aqy);
    }
    Vec2i { x: qx, y: qy }
}

/// Negating one factor negates the product.
proof fn lemma_neg_mul(a: int, b: int)
    by (nonlinear_arith)
    ensures
        (-a) * b == -(a * b),
{
}

/// Negation does not change a square.
proof fn lemma_neg_square(a: int)
    by (nonlinear_arith)
    ensures
        (-a) * (-a) == a * a,
{
}

/// The product of two bounded factors is bounded by the product of the
/// bounds.
pub proof fn lemma_mul_bound(a: int, ab: int, b: int, bb: int)
    by (nonlinear_arith)
    requires
        -ab <= a <= ab,
        0 <= b <= bb,
        0 <= ab,
    ensures
        -(ab * bb) <= a * b <= ab * bb,
{
}

/// A nonzero number has a positive square.
proof fn lemma_square_pos(a: int)
    by (nonlinear_arith)
    requires
        a != 0,
    ensures
        a * a > 0,
{
}

/// Caps a velocity at magnitude `cap`: a vector already inside the cap is
/// returned unchanged, a longer one is rescaled onto the cap.
pub fn clamp_to_cap(v: Vec2i, cap: i64) -> (w: Vec2i)
    requires
        small_vec(v),
        0 <= cap <= TRAIT_LIMIT,
    ensures
        norm_sq(w) <= cap * cap,
        norm_sq(v) <= cap * cap ==> w == v,
        norm_sq(v) > cap * cap ==> w.x == rescaled_component(v.x as int, cap as int, norm_sq(v))
            && w.y == rescaled_component(v.y as int, cap as int, norm_sq(v)),
        -TRAIT_LIMIT <= w.x <= TRAIT_LIMIT,
        -TRAIT_LIMIT <= w.y <= TRAIT_LIMIT,
{
    proof {
        lemma_square_bound(v.x as int, 2_100_000_000);
        lemma_square_bound(v.y as int, 2_100_000_000);
    }
    let ns: i64 = v.x * v.x + v.y * v.y;
    proof {
        lemma_square_bound(cap as int, TRAIT_LIMIT as int);
    }
    if ns <= cap * cap {
        proof {
            lemma_component_within(v.x as int, v.y as int, cap as int);
        }
        v
    } else {
        rescale(v, cap)
    }
}

/// If a vector's squared magnitude is at most `cap * cap`, each component is
/// bounded by `cap`.
pub proof fn lemma_component_within(x: int, y: int, cap: int)
    by (nonlinear_arith)
    requires
        0 <= cap,
        x * x + y * y <= cap * cap,
    ensures
        -cap <= x <= cap,
        -cap <= y <= cap,
{
}

/// Points a velocity of magnitude at most `cap` along the displacement `v`;
/// the zero displacement gives the zero velocity.
pub fn aim(v: Vec2i, cap: i64) -> (w: Vec2i)
    requires
        small_vec(v),
        0 <= cap <= TRAIT_LIMIT,
    ensures
        norm_sq(w) <= cap * cap,
        v.x == 0 && v.y == 0 ==> w.x == 0 && w.y == 0,
        !(v.x == 0 && v.y == 0) ==> w.x == rescaled_component(v.x as int, cap as int, norm_sq(v))
            && w.y == rescaled_component(v.y as int, cap as int, norm_sq(v)),
        -TRAIT_LIMIT <= w.x <= TRAIT_LIMIT,
        -TRAIT_LIMIT <= w.y <= TRAIT_LIMIT,
{
    rescale(v, cap)
}

} // verus!
