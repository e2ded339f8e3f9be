//! The simulation's entities: agents ("ants"), food deposits, nests and
//! pheromone markers, together with the exact feeding transfer and the
//! clamped trait mutation used at reproduction.

use vstd::prelude::*;

verus! {

use crate::{clamp_spec, STAT_LIMIT, TRAIT_LIMIT};
use crate::vec2::{Vec2i, in_world, norm_sq};

/// Hunger store of an agent: `current` decays with time, feeding refills it.
#[derive(Clone, Copy, Debug, PartialEq, Eq, Structural)]
pub struct Hunger {
    pub current: i64,
    pub max: i64,
}

/// A hunger store is well formed when the level sits inside its capacity.
pub open spec fn wf_hunger(h: Hunger) -> bool {
    &&& 0 <= h.current <= h.max
    &&& 1 <= h.max <= STAT_LIMIT
}

/// An agent hungry at or below four fifths of its capacity forages and eats.
pub open spec fn is_hungry(h: Hunger) -> bool {
    5 * h.current <= 4 * h.max
}

impl Hunger {
    /// A full store of capacity `max`.
    pub fn new(max: i64) -> (h: Hunger)
        requires
            1 <= max <= STAT_LIMIT,
        ensures
            h.current == max,
            h.max == max,
            wf_hunger(h),
    {
        Hunger { current: max, max }
    }

    /// Fill level in per-mille, rounded down: 0 is empty, 1000 is full.
    pub fn percentage(&self) -> (r: i64)
        requires
            wf_hunger(*self),
        ensures
            r == self.current * 1000 / (self.max as int),
            0 <= r <= 1000,
    {
        let r: u64 = (self.current as u64) * 1000 / (self.max as u64);
        proof {
            vstd::arithmetic::div_mod::lemma_div_pos_is_pos(self.current * 1000, self.max as int);
            vstd::arithmetic::div_mod::lemma_div_is_ordered(
                self.current * 1000,
                self.max * 1000,
                self.max as int,
            );
            vstd::arithmetic::div_mod::lemma_div_multiples_vanish(1000, self.max as int);
        }
        r as i64
    }

    /// How much feeding it would take to fill the store.
    pub fn needed(&self) -> (r: i64)
        requires
            wf_hunger(*self),
        ensures
            r == self.max - self.current,
    {
        self.max - self.current
    }

    /// Whether the agent is hungry enough to forage and eat (at or below
    /// four fifths of capacity).
    pub fn hungry(&self) -> (r: bool)
        requires
            wf_hunger(*self),
        ensures
            r == is_hungry(*self),
    {
        5 * self.current <= 4 * self.max
    }
}

/// A food deposit: a position and a remaining mass within a capacity.
#[derive(Clone, Copy, Debug, PartialEq, Eq, Structural)]
pub struct Food {
    pub pos: Vec2i,
    pub current: i64,
    pub max: i64,
}

/// A food deposit is well formed when its mass sits inside its capacity and
/// it lies in the world.
pub open spec fn wf_food(f: Food) -> bool {
    &&& 0 <= f.current <= f.max
    &&& 1 <= f.max <= STAT_LIMIT
    &&& in_world(f.pos)
}

impl Food {
    /// A full deposit of capacity `max` at `pos`.
    pub fn new(pos: Vec2i, max: i64) -> (f: Food)
        requires
            1 <= max <= STAT_LIMIT,
            in_world(pos),
        ensures
            f.pos == pos,
            f.current == max,
            f.max == max,
            wf_food(f),
    {
        Food { pos, current: max, max }
    }

    /// Remaining mass in per-mille of the capacity, rounded down.
    pub fn percentage(&self) -> (r: i64)
        requires
            wf_food(*self),
        ensures
            r == self.current * 1000 / (self.max as int),
            0 <= r <= 1000,
    {
        let r: u64 = (self.current as u64) * 1000 / (self.max as u64);
        proof {
            vstd::arithmetic::div_mod::lemma_div_pos_is_pos(self.current * 1000, self.max as int);
            vstd::arithmetic::div_mod::lemma_div_is_ordered(
                self.current * 1000,
                self.max * 1000,
                self.max as int,
            );
            vstd::arithmetic::div_mod::lemma_div_multiples_vanish(1000, self.max as int);
        }
        r as i64
    }

    /// Mass missing from a full deposit.
    pub fn needed(&self) -> (r: i64)
        requires
            wf_food(*self),
        ensures
            r == self.max - self.current,
    {
        self.max - self.current
    }
}

/// Moves mass from a food deposit into a hunger store. Exactly
/// `min(mass available, capacity missing)` changes hands: the deposit can
/// never be overdrawn and the store can never overflow.
pub fn feed(h: &mut Hunger, f: &mut Food) -> (taken: i64)
    requires
        wf_hunger(*old(h)),
        wf_food(*old(f)),
    ensures
        taken == if old(f).current <= old(h).max - old(h).current {
            old(f).current as int
        } else {
            old(h).max - old(h).current
        },
        0 <= taken,
        taken <= old(f).current,
        taken <= old(h).max - old(h).current,
        final(f).current == old(f).current - taken,
        final(h).current == old(h).current + taken,
        final(f).max == old(f).max,
        final(f).pos == old(f).pos,
        final(h).max == old(h).max,
        wf_hunger(*final(h)),
        wf_food(*final(f)),
{
    let lack: i64 = h.max - h.current;
    let taken: i64 = if f.current < lack {
        f.current
    } else {
        lack
    };
    f.current = f.current - taken;
    h.current = h.current + taken;
    taken
}

/// A mutated offspring trait: the parent's value shifted by the drawn
/// offset, clamped to stay at or above the floor `lo` (and within the
/// machine bound on traits).
pub fn mutate_trait(parent: i64, off: i64, lo: i64) -> (r: i64)
    requires
        1 <= lo <= TRAIT_LIMIT,
        -TRAIT_LIMIT <= off <= TRAIT_LIMIT,
        0 <= parent <= TRAIT_LIMIT,
    ensures
        r == clamp_spec(parent + off, lo as int, TRAIT_LIMIT as int),
        lo <= r <= TRAIT_LIMIT,
{
    crate::clamp_i64(parent + off, lo, TRAIT_LIMIT)
}

/// Whatever offset a mutation draws, the clamped offspring trait never falls
/// under the floor: reproduction cannot produce a degenerate agent.
pub proof fn lemma_mutation_respects_floor(parent: int, off: int, lo: int)
    requires
        1 <= lo <= TRAIT_LIMIT,
    ensures
        clamp_spec(parent + off, lo, TRAIT_LIMIT as int) >= lo,
{
}

/// A nest: an immutable anchor position for agents spawned from it.
#[derive(Clone, Copy, Debug, PartialEq, Eq, Structural)]
pub struct AntNest {
    pub pos: Vec2i,
}

/// A nest is well formed when it lies in the world.
pub open spec fn wf_nest(n: AntNest) -> bool {
    in_world(n.pos)
}

/// The kind of a pheromone marker: dropped on the way from the nest or on
/// the way from food.
#[derive(Clone, Copy, Debug, PartialEq, Eq, Structural)]
pub enum AntPheromone {
    FromBase,
    FromFood,
}

/// A decaying pheromone marker.
#[derive(Clone, Copy, Debug, PartialEq, Eq, Structural)]
pub struct Pheromone {
    pub pos: Vec2i,
    pub kind: AntPheromone,
    pub remaining: i64,
}

/// A pheromone is well formed when it lies in the world and its remaining
/// lifetime is within bounds.
pub open spec fn wf_pheromone(p: Pheromone) -> bool {
    &&& in_world(p.pos)
    &&& 0 <= p.remaining <= STAT_LIMIT
}

/// A foraging agent.
#[derive(Clone, Copy, Debug, PartialEq, Eq, Structural)]
pub struct Ant {
    /// Position on the plane.
    pub pos: Vec2i,
    /// Velocity, capped by `speed` in magnitude.
    pub vel: Vec2i,
    /// Heritable top speed; mutable only through reproduction.
    pub speed: i64,
    /// Heritable sensing radius; mutable only through reproduction.
    pub vision: i64,
    /// Hunger store; the agent dies when it runs out.
    pub hunger: Hunger,
    /// Count of feeding events, gating reproduction; never decreases.
    pub evolution: u64,
    /// Index of the owning nest, fixed at spawn.
    pub nest: Option<usize>,
    /// Time since the last pheromone emission.
    pub pheromone_timer: i64,
}

/// An agent is well formed when it lies in the world, its traits are
/// positive and bounded, its velocity respects its speed and its hunger
/// store is sound.
pub open spec fn wf_ant(a: Ant) -> bool {
    &&& in_world(a.pos)
    &&& 1 <= a.speed <= TRAIT_LIMIT
    &&& 1 <= a.vision <= TRAIT_LIMIT
    &&& norm_sq(a.vel) <= a.speed * a.speed
    &&& -TRAIT_LIMIT <= a.vel.x <= TRAIT_LIMIT
    &&& -TRAIT_LIMIT <= a.vel.y <= TRAIT_LIMIT
    &&& wf_hunger(a.hunger)
    &&& 0 <= a.pheromone_timer
}

impl Ant {
    /// A newly spawned agent: at rest, with a full hunger store and a fresh
    /// feeding counter.
    pub fn new(pos: Vec2i, speed: i64, vision: i64, hunger_max: i64, nest: Option<usize>) -> (a:
        Ant)
        requires
            in_world(pos),
            1 <= speed <= TRAIT_LIMIT,
            1 <= vision <= TRAIT_LIMIT,
            1 <= hunger_max <= STAT_LIMIT,
        ensures
            a == (Ant {
                pos,
                vel: Vec2i { x: 0, y: 0 },
                speed,
                vision,
                hunger: Hunger { current: hunger_max, max: hunger_max },
                evolution: 0,
                nest,
                pheromone_timer: 0,
            }),
            wf_ant(a),
    {
        let a = Ant {
            pos,
            vel: Vec2i { x: 0, y: 0 },
            speed,
            vision,
            hunger: Hunger::new(hunger_max),
            evolution: 0,
            nest,
            pheromone_timer: 0,
        };
        proof {
            crate::vec2::lemma_square_bound(0, 0);
            crate::vec2::lemma_square_bound(speed as int, TRAIT_LIMIT as int);
        }
        a
    }
}

} // verus!
