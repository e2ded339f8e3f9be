//! Per-agent foraging decision: a bounded random wander, the speed cap, and
//! the override that points a hungry agent at the last food it saw among
//! the spatial-index candidates.

use vstd::prelude::*;

verus! {

use crate::{SCALE, TRAIT_LIMIT, TIME_LIMIT};
use crate::math::{mul_div_trunc, mul_div_trunc_spec, lemma_mul_div_trunc_bounds};
use crate::vec2::{
    Vec2i,
    norm_sq,
    dist_sq_spec,
    in_world,
    small_vec,
    rescaled_component,
    clamp_to_cap,
    aim,
    dist_sq,
    lemma_square_bound,
    lemma_mul_bound,
};
use crate::entities::{Food, wf_food};

/// The velocity `vel` nudged by the drawn acceleration `(ox, oy)` over the
/// elapsed time.
pub open spec fn perturbed_of(vel: Vec2i, ox: int, oy: int, e: int) -> Vec2i {
    Vec2i {
        x: (vel.x + mul_div_trunc_spec(ox, e, SCALE as int)) as i64,
        y: (vel.y + mul_div_trunc_spec(oy, e, SCALE as int)) as i64,
    }
}

/// `w` is `v` capped at magnitude `cap`: unchanged inside the cap, rescaled
/// onto it outside.
pub open spec fn is_capped_of(w: Vec2i, v: Vec2i, cap: int) -> bool {
    if norm_sq(v) <= cap * cap {
        w == v
    } else {
        w.x == rescaled_component(v.x as int, cap, norm_sq(v)) && w.y == rescaled_component(
            v.y as int,
            cap,
            norm_sq(v),
        )
    }
}

/// `w` points along the displacement `d` with magnitude at most `cap`
/// (zero for the zero displacement).
pub open spec fn is_aim_of(w: Vec2i, d: Vec2i, cap: int) -> bool {
    if d.x == 0 && d.y == 0 {
        w.x == 0 && w.y == 0
    } else {
        w.x == rescaled_component(d.x as int, cap, norm_sq(d)) && w.y == rescaled_component(
            d.y as int,
            cap,
            norm_sq(d),
        )
    }
}

/// The last candidate, in iteration order, whose deposit lies strictly
/// within the vision radius of `pos`; `None` when no candidate does.
pub open spec fn last_target(cands: Seq<usize>, foods: Seq<Food>, pos: Vec2i, vision: int) -> Option<
    usize,
>
    decreases cands.len(),
{
    if cands.len() == 0 {
        None
    } else {
        let j = cands.last();
        if (j as int) < foods.len() && dist_sq_spec(foods[j as int].pos, pos) < vision * vision {
            Some(j)
        } else {
            last_target(cands.drop_last(), foods, pos, vision)
        }
    }
}

/// What `last_target` returns is a valid candidate strictly within the
/// vision radius.
pub proof fn lemma_last_target_props(cands: Seq<usize>, foods: Seq<Food>, pos: Vec2i, vision: int)
    ensures
        last_target(cands, foods, pos, vision) matches Some(j) ==> ((j as int) < foods.len()
            && dist_sq_spec(foods[j as int].pos, pos) < vision * vision && cands.contains(j)),
    decreases cands.len(),
{
    if cands.len() == 0 {
    } else {
        let j = cands.last();
        if (j as int) < foods.len() && dist_sq_spec(foods[j as int].pos, pos) < vision * vision {
            assert(cands[cands.len() - 1] == j);
        } else {
            lemma_last_target_props(cands.drop_last(), foods, pos, vision);
            match last_target(cands.drop_last(), foods, pos, vision) {
                Some(jj) => {
                    let k = choose|k: int|
                        0 <= k < cands.drop_last().len() && cands.drop_last()[k] == jj;
                    assert(cands[k] == jj);
                },
                None => {
                },
            }
        }
    }
}

/// If any candidate's deposit lies strictly within the vision radius, the
/// scan finds a target.
pub proof fn lemma_last_target_found(
    cands: Seq<usize>,
    foods: Seq<Food>,
    pos: Vec2i,
    vision: int,
    j: usize,
)
    requires
        cands.contains(j),
        (j as int) < foods.len(),
        dist_sq_spec(foods[j as int].pos, pos) < vision * vision,
    ensures
        last_target(cands, foods, pos, vision) is Some,
    decreases cands.len(),
{
    let l = cands.last();
    if (l as int) < foods.len() && dist_sq_spec(foods[l as int].pos, pos) < vision * vision {
    } else {
        let k = choose|k: int| 0 <= k < cands.len() && cands[k] == j;
        assert(k < cands.len() - 1);
        assert(cands.drop_last()[k] == j);
        lemma_last_target_found(cands.drop_last(), foods, pos, vision, j);
    }
}

/// One agent's steering decision. The wander perturbation capped at the
/// agent's speed is the default; a hungry agent overrides it and heads
/// straight for the last in-sight deposit among the candidates.
pub fn steer(
    pos: Vec2i,
    vel: Vec2i,
    speed: i64,
    vision: i64,
    hungry: bool,
    ox: i64,
    oy: i64,
    elapsed: i64,
    foods: &Vec<Food>,
    cands: &Vec<usize>,
) -> (v: Vec2i)
    requires
        in_world(pos),
        -TRAIT_LIMIT <= vel.x <= TRAIT_LIMIT,
        -TRAIT_LIMIT <= vel.y <= TRAIT_LIMIT,
        1 <= speed <= TRAIT_LIMIT,
        1 <= vision <= TRAIT_LIMIT,
        -TRAIT_LIMIT <= ox <= TRAIT_LIMIT,
        -TRAIT_LIMIT <= oy <= TRAIT_LIMIT,
        0 <= elapsed <= TIME_LIMIT,
        forall|i: int| 0 <= i < foods@.len() ==> wf_food(#[trigger] foods@[i]),
        forall|k: int| 0 <= k < cands@.len() ==> #[trigger] cands@[k] < foods@.len(),
    ensures
        norm_sq(v) <= speed * speed,
        -TRAIT_LIMIT <= v.x <= TRAIT_LIMIT,
        -TRAIT_LIMIT <= v.y <= TRAIT_LIMIT,
        (!hungry || last_target(cands@, foods@, pos, vision as int) is None) ==> is_capped_of(
            v,
            perturbed_of(vel, ox as int, oy as int, elapsed as int),
            speed as int,
        ),
        hungry ==> (last_target(cands@, foods@, pos, vision as int) matches Some(j) ==> is_aim_of(
            v,
            (Vec2i {
                x: (foods@[j as int].pos.x - pos.x) as i64,
                y: (foods@[j as int].pos.y - pos.y) as i64,
            }),
            speed as int,
        )),
{
    proof {
        lemma_mul_bound(ox as int, TRAIT_LIMIT as int, elapsed as int, TIME_LIMIT as int);
        lemma_mul_bound(oy as int, TRAIT_LIMIT as int, elapsed as int, TIME_LIMIT as int);
        lemma_mul_div_trunc_bounds(ox as int, elapsed as int, SCALE as int);
        lemma_mul_div_trunc_bounds(oy as int, elapsed as int, SCALE as int);
    }
    let dvx = mul_div_trunc(ox, elapsed, SCALE);
    let dvy = mul_div_trunc(oy, elapsed, SCALE);
    let pv = Vec2i { x: vel.x + dvx, y: vel.y + dvy };
    let mut v = clamp_to_cap(pv, speed);
    assert(pv == perturbed_of(vel, ox as int, oy as int, elapsed as int));
    if hungry {
        proof {
            lemma_square_bound(vision as int, TRAIT_LIMIT as int);
        }
        let vision_sq: i64 = vision * vision;
        let mut found = false;
        let mut delta = Vec2i { x: 0, y: 0 };
        let ghost mut target: usize = 0usize;
        let n = cands.len();
        let mut k: usize = 0;
        while k < n
            invariant
                n == cands@.len(),
                k <= n,
                in_world(pos),
                1 <= vision <= TRAIT_LIMIT,
                vision_sq == vision * vision,
                forall|i: int| 0 <= i < foods@.len() ==> wf_food(#[trigger] foods@[i]),
                forall|kk: int| 0 <= kk < cands@.len() ==> #[trigger] cands@[kk] < foods@.len(),
                found <==> last_target(
                    cands@.subrange(0, k as int),
                    foods@,
                    pos,
                    vision as int,
                ) is Some,
                found ==> last_target(cands@.subrange(0, k as int), foods@, pos, vision as int)
                    == Some(target),
                found ==> ((target as int) < foods@.len() && delta.x == foods@[
                    target as int
                ].pos.x - pos.x && delta.y == foods@[target as int].pos.y - pos.y),
            decreases n - k,
        {
            let j = cands[k];
            let f_pos = foods[j].pos;
            let d2 = dist_sq(f_pos, pos);
            proof {
                assert(cands@.subrange(0, k as int + 1).drop_last() =~= cands@.subrange(
                    0,
                    k as int,
                ));
                assert(cands@.subrange(0, k as int + 1).last() == cands@[k as int]);
            }
            if d2 < vision_sq {
                found = true;
                delta = Vec2i { x: f_pos.x - pos.x, y: f_pos.y - pos.y };
                proof {
                    target = j;
                }
            }
            k = k + 1;
        }
        proof {
            assert(cands@.subrange(0, n as int) =~= cands@);
        }
        if found {
            v = aim(delta, speed);
        }
    }
    v
}


/// When the candidates come in grid scan order, `last_target` is the scan-
/// maximal in-sight candidate: every other in-sight candidate is visited
/// before it.
pub proof fn lemma_last_target_is_max(
    cands: Seq<usize>,
    foods: Seq<Food>,
    pos: Vec2i,
    vision: int,
    cs: int,
    t: usize,
    j: usize,
)
    requires
        forall|k1: int, k2: int|
            0 <= k1 < k2 < cands.len() ==> crate::grid::scan_before(
                crate::grid::key_of_pos(foods[#[trigger] cands[k1] as int].pos, cs),
                cands[k1],
                crate::grid::key_of_pos(foods[#[trigger] cands[k2] as int].pos, cs),
                cands[k2],
            ),
        forall|k: int| 0 <= k < cands.len() ==> #[trigger] cands[k] < foods.len(),
        last_target(cands, foods, pos, vision) == Some(t),
        cands.contains(j),
        (j as int) < foods.len(),
        dist_sq_spec(foods[j as int].pos, pos) < vision * vision,
    ensures
        j == t || crate::grid::scan_before(
            crate::grid::key_of_pos(foods[j as int].pos, cs),
            j,
            crate::grid::key_of_pos(foods[t as int].pos, cs),
            t,
        ),
    decreases cands.len(),
{
    let l = cands.last();
    let kj = choose|kj: int| 0 <= kj < cands.len() && cands[kj] == j;
    if (l as int) < foods.len() && dist_sq_spec(foods[l as int].pos, pos) < vision * vision {
        assert(t == l);
        if kj < cands.len() - 1 {
            assert(cands[cands.len() - 1] == l);
        } else {
            assert(j == l);
        }
    } else {
        assert(kj < cands.len() - 1);
        let rest = cands.drop_last();
        assert(rest[kj] == j);
        assert(rest.contains(j));
        assert forall|k1: int, k2: int| 0 <= k1 < k2 < rest.len() implies crate::grid::scan_before(
            crate::grid::key_of_pos(foods[#[trigger] rest[k1] as int].pos, cs),
            rest[k1],
            crate::grid::key_of_pos(foods[#[trigger] rest[k2] as int].pos, cs),
            rest[k2],
        ) by {
            assert(rest[k1] == cands[k1] && rest[k2] == cands[k2]);
        }
        assert(forall|k: int| 0 <= k < rest.len() ==> #[trigger] rest[k] < foods.len()) by {
            assert(forall|k: int|
                0 <= k < rest.len() ==> rest[k] == cands[k] && #[trigger] cands[k]
                    < foods.len());
        }
        lemma_last_target_is_max(rest, foods, pos, vision, cs, t, j);
    }
}

} // verus!
