//! The entity store and the tick pipeline. One `World` owns every live
//! entity; each tick runs clock, index rebuild, foraging, integration,
//! exchange and lifecycle in a fixed order, and the contracts of the phases
//! add up to the tick's own.

use vstd::prelude::*;

verus! {

broadcast use vstd::set::group_set_axioms;

use crate::{clamp_spec, COORD_LIMIT, SCALE, STAT_LIMIT, TIME_LIMIT, TRAIT_LIMIT};
use crate::clock::SimulationClock;
use crate::config::{SimConfig, wf_config};
use crate::entities::{
    Ant,
    AntNest,
    AntPheromone,
    Food,
    Hunger,
    Pheromone,
    wf_ant,
    wf_food,
    wf_hunger,
    wf_nest,
    wf_pheromone,
};
use crate::vec2::{Vec2i, in_world, norm_sq};

/// An agent as the world holds it: well formed in itself, with its
/// emission timer under the configured interval and its nest reference
/// inside the nest store.
pub open spec fn wf_agent_of(a: Ant, c: SimConfig, nests: int) -> bool {
    &&& wf_ant(a)
    &&& a.pheromone_timer < c.pheromone_interval
    &&& (a.nest matches Some(k) ==> k < nests)
}

/// The simulation's entity store. Entities refer to one another by index,
/// never by aliased access; the pseudorandom generator is owned here and
/// threaded through the tick.
pub struct World {
    /// Parameters of the run, immutable per tick.
    pub config: SimConfig,
    /// Live agents.
    pub agents: Vec<Ant>,
    /// Live food deposits.
    pub foods: Vec<Food>,
    /// Nests founded so far; never removed.
    pub nests: Vec<AntNest>,
    /// Live pheromone markers.
    pub pheromones: Vec<Pheromone>,
    /// The run's seeded pseudorandom generator, threaded through the tick.
    pub rng: rand::rngs::StdRng,
}

impl World {
    /// Every entity of the store is well formed and every cross-reference
    /// lands inside its target store.
    pub open spec fn wf(&self) -> bool {
        &&& wf_config(self.config)
        &&& forall|i: int|
            0 <= i < self.agents@.len() ==> wf_agent_of(
                #[trigger] self.agents@[i],
                self.config,
                self.nests@.len() as int,
            )
        &&& forall|i: int| 0 <= i < self.foods@.len() ==> wf_food(#[trigger] self.foods@[i])
        &&& forall|i: int| 0 <= i < self.nests@.len() ==> wf_nest(#[trigger] self.nests@[i])
        &&& forall|i: int|
            0 <= i < self.pheromones@.len() ==> wf_pheromone(#[trigger] self.pheromones@[i])
    }

    /// An empty world with the given parameters, whose random stream is a
    /// function of `seed` alone.
    pub fn new(config: SimConfig, seed: u64) -> (w: World)
        requires
            wf_config(config),
        ensures
            w.wf(),
            w.config == config,
            w.agents@.len() == 0,
            w.foods@.len() == 0,
            w.nests@.len() == 0,
            w.pheromones@.len() == 0,
    {
        World {
            config,
            agents: Vec::new(),
            foods: Vec::new(),
            nests: Vec::new(),
            pheromones: Vec::new(),
            rng: crate::rng::rng_from_seed(seed),
        }
    }

    /// Spawns one agent at `pos` with the given traits, at rest and with a
    /// full hunger store.
    pub fn spawn_ant(&mut self, pos: Vec2i, speed: i64, vision: i64, nest: Option<usize>)
        requires
            old(self).wf(),
            in_world(pos),
            1 <= speed <= TRAIT_LIMIT,
            1 <= vision <= TRAIT_LIMIT,
            (nest matches Some(k) ==> k < old(self).nests@.len()),
        ensures
            final(self).wf(),
            final(self).config == old(self).config,
            final(self).foods@ == old(self).foods@,
            final(self).nests@ == old(self).nests@,
            final(self).pheromones@ == old(self).pheromones@,
            final(self).agents@ == old(self).agents@.push(
                Ant {
                    pos,
                    vel: Vec2i { x: 0, y: 0 },
                    speed,
                    vision,
                    hunger: Hunger {
                        current: old(self).config.hunger_start,
                        max: old(self).config.hunger_start,
                    },
                    evolution: 0,
                    nest,
                    pheromone_timer: 0,
                },
            ),
    {
        let a = Ant::new(pos, speed, vision, self.config.hunger_start, nest);
        self.agents.push(a);
    }

    /// Seeds one full food deposit of capacity `max` at `pos`.
    pub fn spawn_food(&mut self, pos: Vec2i, max: i64)
        requires
            old(self).wf(),
            in_world(pos),
            1 <= max <= STAT_LIMIT,
        ensures
            final(self).wf(),
            final(self).config == old(self).config,
            final(self).agents@ == old(self).agents@,
            final(self).nests@ == old(self).nests@,
            final(self).pheromones@ == old(self).pheromones@,
            final(self).foods@ == old(self).foods@.push(Food { pos, current: max, max }),
    {
        let f = Food::new(pos, max);
        self.foods.push(f);
    }

    /// Founds a nest at `pos` and returns its index; nests are never
    /// removed, so the index stays valid.
    pub fn spawn_ant_nest(&mut self, pos: Vec2i) -> (idx: usize)
        requires
            old(self).wf(),
            in_world(pos),
            old(self).nests@.len() < usize::MAX,
        ensures
            final(self).wf(),
            final(self).config == old(self).config,
            final(self).agents@ == old(self).agents@,
            final(self).foods@ == old(self).foods@,
            final(self).pheromones@ == old(self).pheromones@,
            final(self).nests@ == old(self).nests@.push(AntNest { pos }),
            idx as int == old(self).nests@.len(),
    {
        let idx = self.nests.len();
        self.nests.push(AntNest { pos });
        proof {
            assert forall|i: int|
                0 <= i < self.agents@.len() implies wf_agent_of(
                #[trigger] self.agents@[i],
                self.config,
                self.nests@.len() as int,
            ) by {
                assert(wf_agent_of(self.agents@[i], self.config, old(self).nests@.len() as int));
            }
        }
        idx
    }

    /// Drops a pheromone marker of the given kind at `pos`, with the
    /// configured initial lifetime.
    pub fn spawn_ant_pheromone(&mut self, pos: Vec2i, kind: AntPheromone)
        requires
            old(self).wf(),
            in_world(pos),
        ensures
            final(self).wf(),
            final(self).config == old(self).config,
            final(self).agents@ == old(self).agents@,
            final(self).foods@ == old(self).foods@,
            final(self).nests@ == old(self).nests@,
            final(self).pheromones@ == old(self).pheromones@.push(
                Pheromone { pos, kind, remaining: old(self).config.pheromone_lifetime },
            ),
    {
        let p = Pheromone { pos, kind, remaining: self.config.pheromone_lifetime };
        self.pheromones.push(p);
    }
}

/// An agent after time decay: its hunger drained by the elapsed time,
/// floored at empty.
pub open spec fn decay_agent(a: Ant, e: int) -> Ant {
    Ant {
        hunger: Hunger {
            current: (if a.hunger.current - e > 0 {
                a.hunger.current - e
            } else {
                0
            }) as i64,
            max: a.hunger.max,
        },
        ..a
    }
}

/// The subsequence of agents whose hunger store is not empty, in order.
pub open spec fn live_agents(s: Seq<Ant>) -> Seq<Ant>
    decreases s.len(),
{
    if s.len() == 0 {
        Seq::empty()
    } else if s.last().hunger.current > 0 {
        live_agents(s.drop_last()).push(s.last())
    } else {
        live_agents(s.drop_last())
    }
}

/// Every agent of the live subsequence has mass in its store, and comes
/// from the input sequence. Culling is monotone: an agent with an empty
/// store never appears in the live set.
pub proof fn lemma_live_agents(s: Seq<Ant>)
    ensures
        live_agents(s).len() <= s.len(),
        forall|j: int|
            0 <= j < live_agents(s).len() ==> (#[trigger] live_agents(s)[j]).hunger.current > 0,
        forall|j: int| 0 <= j < live_agents(s).len() ==> s.contains(#[trigger] live_agents(s)[j]),
    decreases s.len(),
{
    if s.len() == 0 {
    } else {
        lemma_live_agents(s.drop_last());
        let t = s.drop_last();
        assert forall|x: Ant| t.contains(x) implies s.contains(x) by {
            let k = choose|k: int| 0 <= k < t.len() && t[k] == x;
            assert(s[k] == x);
        }
        if s.last().hunger.current > 0 {
            assert(s[s.len() - 1] == s.last());
            assert(s.contains(s.last()));
        }
    }
}

/// The subsequence of deposits with mass left, in order.
pub open spec fn live_foods(s: Seq<Food>) -> Seq<Food>
    decreases s.len(),
{
    if s.len() == 0 {
        Seq::empty()
    } else if s.last().current > 0 {
        live_foods(s.drop_last()).push(s.last())
    } else {
        live_foods(s.drop_last())
    }
}

/// Every deposit of the live subsequence has mass left, and comes from the
/// input sequence.
pub proof fn lemma_live_foods(s: Seq<Food>)
    ensures
        live_foods(s).len() <= s.len(),
        forall|j: int| 0 <= j < live_foods(s).len() ==> (#[trigger] live_foods(s)[j]).current > 0,
        forall|j: int| 0 <= j < live_foods(s).len() ==> s.contains(#[trigger] live_foods(s)[j]),
    decreases s.len(),
{
    if s.len() == 0 {
    } else {
        lemma_live_foods(s.drop_last());
        let t = s.drop_last();
        assert forall|x: Food| t.contains(x) implies s.contains(x) by {
            let k = choose|k: int| 0 <= k < t.len() && t[k] == x;
            assert(s[k] == x);
        }
        if s.last().current > 0 {
            assert(s[s.len() - 1] == s.last());
        }
    }
}

/// A pheromone after time decay, its lifetime floored at zero.
pub open spec fn decay_pheromone(p: Pheromone, e: int) -> Pheromone {
    Pheromone {
        remaining: (if p.remaining - e > 0 {
            p.remaining - e
        } else {
            0
        }) as i64,
        ..p
    }
}

/// The subsequence of markers with lifetime left, in order.
pub open spec fn live_pheromones(s: Seq<Pheromone>) -> Seq<Pheromone>
    decreases s.len(),
{
    if s.len() == 0 {
        Seq::empty()
    } else if s.last().remaining > 0 {
        live_pheromones(s.drop_last()).push(s.last())
    } else {
        live_pheromones(s.drop_last())
    }
}

/// Every marker of the live subsequence has lifetime left, and comes from
/// the input sequence.
pub proof fn lemma_live_pheromones(s: Seq<Pheromone>)
    ensures
        live_pheromones(s).len() <= s.len(),
        forall|j: int|
            0 <= j < live_pheromones(s).len() ==> (#[trigger] live_pheromones(s)[j]).remaining
                > 0,
        forall|j: int|
            0 <= j < live_pheromones(s).len() ==> s.contains(#[trigger] live_pheromones(s)[j]),
    decreases s.len(),
{
    if s.len() == 0 {
    } else {
        lemma_live_pheromones(s.drop_last());
        let t = s.drop_last();
        assert forall|x: Pheromone| t.contains(x) implies s.contains(x) by {
            let k = choose|k: int| 0 <= k < t.len() && t[k] == x;
            assert(s[k] == x);
        }
        if s.last().remaining > 0 {
            assert(s[s.len() - 1] == s.last());
        }
    }
}

impl World {
    /// Aging: drains every agent's hunger store by the elapsed time,
    /// floored at empty. Every agent's store afterwards holds exactly
    /// `max(previous - elapsed, 0)`.
    pub fn hunger_system(&mut self, elapsed: i64)
        requires
            old(self).wf(),
            0 <= elapsed <= TIME_LIMIT,
        ensures
            final(self).wf(),
            final(self).config == old(self).config,
            final(self).foods@ == old(self).foods@,
            final(self).nests@ == old(self).nests@,
            final(self).pheromones@ == old(self).pheromones@,
            final(self).agents@.len() == old(self).agents@.len(),
            forall|i: int|
                0 <= i < old(self).agents@.len() ==> final(self).agents@[i] == decay_agent(
                    #[trigger] old(self).agents@[i],
                    elapsed as int,
                ),
    {
        let ghost orig = self.agents@;
        let n = self.agents.len();
        let mut i: usize = 0;
        while i < n
            invariant
                old(self).wf(),
                0 <= elapsed <= TIME_LIMIT,
                n == orig.len(),
                orig == old(self).agents@,
                self.agents@.len() == n,
                i <= n,
                self.config == old(self).config,
                self.foods@ == old(self).foods@,
                self.nests@ == old(self).nests@,
                self.pheromones@ == old(self).pheromones@,
                forall|j: int|
                    0 <= j < i ==> self.agents@[j] == decay_agent(
                        #[trigger] orig[j],
                        elapsed as int,
                    ),
                forall|j: int| i <= j < n ==> self.agents@[j] == orig[j],
            decreases n - i,
        {
            let a = self.agents[i];
            proof {
                assert(a == old(self).agents@[i as int]);
            }
            let hc = a.hunger.current;
            let nh: i64 = if hc - elapsed > 0 {
                hc - elapsed
            } else {
                0
            };
            self.agents[i] = Ant { hunger: Hunger { current: nh, max: a.hunger.max }, ..a };
            i = i + 1;
        }
        proof {
            assert forall|i2: int|
                0 <= i2 < self.agents@.len() implies wf_agent_of(
                #[trigger] self.agents@[i2],
                self.config,
                self.nests@.len() as int,
            ) by {
                assert(wf_agent_of(orig[i2], old(self).config, old(self).nests@.len() as int));
                assert(self.agents@[i2] == decay_agent(orig[i2], elapsed as int));
            }
        }
    }

    /// Culling: removes every agent whose hunger store ran empty. What
    /// remains is exactly the ordered subsequence of live agents.
    pub fn kill_system(&mut self)
        requires
            old(self).wf(),
        ensures
            final(self).wf(),
            final(self).config == old(self).config,
            final(self).foods@ == old(self).foods@,
            final(self).nests@ == old(self).nests@,
            final(self).pheromones@ == old(self).pheromones@,
            final(self).agents@ == live_agents(old(self).agents@),
            forall|j: int|
                0 <= j < final(self).agents@.len() ==> (#[trigger] final(self).agents@[j]).hunger.current > 0,
    {
        let ghost orig = self.agents@;
        let n = self.agents.len();
        let mut out: Vec<Ant> = Vec::new();
        let mut i: usize = 0;
        while i < n
            invariant
                n == orig.len(),
                orig == self.agents@,
                i <= n,
                out@ == live_agents(orig.subrange(0, i as int)),
            decreases n - i,
        {
            let a = self.agents[i];
            proof {
                assert(orig.subrange(0, i as int + 1).drop_last() =~= orig.subrange(0, i as int));
                assert(orig.subrange(0, i as int + 1).last() == orig[i as int]);
            }
            if a.hunger.current > 0 {
                out.push(a);
            }
            i = i + 1;
        }
        proof {
            assert(orig.subrange(0, n as int) =~= orig);
        }
        self.agents = out;
        proof {
            lemma_live_agents(orig);
            assert forall|i2: int|
                0 <= i2 < self.agents@.len() implies wf_agent_of(
                #[trigger] self.agents@[i2],
                self.config,
                self.nests@.len() as int,
            ) by {
                assert(orig.contains(self.agents@[i2]));
                let k = choose|k: int| 0 <= k < orig.len() && orig[k] == self.agents@[i2];
                assert(wf_agent_of(orig[k], old(self).config, old(self).nests@.len() as int));
            }
        }
    }

    /// Removes every depleted food deposit. What remains is exactly the
    /// ordered subsequence of deposits with mass left.
    pub fn despawn_food_system(&mut self)
        requires
            old(self).wf(),
        ensures
            final(self).wf(),
            final(self).config == old(self).config,
            final(self).agents@ == old(self).agents@,
            final(self).nests@ == old(self).nests@,
            final(self).pheromones@ == old(self).pheromones@,
            final(self).foods@ == live_foods(old(self).foods@),
            forall|j: int|
                0 <= j < final(self).foods@.len() ==> (#[trigger] final(self).foods@[j]).current
                    > 0,
    {
        let ghost orig = self.foods@;
        let n = self.foods.len();
        let mut out: Vec<Food> = Vec::new();
        let mut i: usize = 0;
        while i < n
            invariant
                n == orig.len(),
                orig == self.foods@,
                i <= n,
                out@ == live_foods(orig.subrange(0, i as int)),
            decreases n - i,
        {
            let f = self.foods[i];
            proof {
                assert(orig.subrange(0, i as int + 1).drop_last() =~= orig.subrange(0, i as int));
                assert(orig.subrange(0, i as int + 1).last() == orig[i as int]);
            }
            if f.current > 0 {
                out.push(f);
            }
            i = i + 1;
        }
        proof {
            assert(orig.subrange(0, n as int) =~= orig);
        }
        self.foods = out;
        proof {
            lemma_live_foods(orig);
            assert forall|i2: int|
                0 <= i2 < self.foods@.len() implies wf_food(#[trigger] self.foods@[i2]) by {
                assert(orig.contains(self.foods@[i2]));
                let k = choose|k: int| 0 <= k < orig.len() && orig[k] == self.foods@[i2];
                assert(wf_food(orig[k]));
            }
        }
    }

    /// Decays every pheromone marker by the elapsed time and removes the
    /// expired ones. What remains is exactly the ordered subsequence of
    /// decayed markers with lifetime left.
    pub fn lifetime_system(&mut self, elapsed: i64)
        requires
            old(self).wf(),
            0 <= elapsed <= TIME_LIMIT,
        ensures
            final(self).wf(),
            final(self).config == old(self).config,
            final(self).agents@ == old(self).agents@,
            final(self).nests@ == old(self).nests@,
            final(self).foods@ == old(self).foods@,
            final(self).pheromones@ == live_pheromones(
                old(self).pheromones@.map_values(
                    |p: Pheromone| decay_pheromone(p, elapsed as int),
                ),
            ),
            forall|j: int|
                0 <= j < final(self).pheromones@.len() ==> (#[trigger] final(self).pheromones@[j]).remaining > 0,
    {
        let ghost orig = self.pheromones@;
        let ghost f = |p: Pheromone| decay_pheromone(p, elapsed as int);
        let n = self.pheromones.len();
        let mut out: Vec<Pheromone> = Vec::new();
        let mut i: usize = 0;
        while i < n
            invariant
                old(self).wf(),
                orig == old(self).pheromones@,
                0 <= elapsed <= TIME_LIMIT,
                n == orig.len(),
                orig == self.pheromones@,
                i <= n,
                f == (|p: Pheromone| decay_pheromone(p, elapsed as int)),
                out@ == live_pheromones(orig.subrange(0, i as int).map_values(f)),
            decreases n - i,
        {
            let p = self.pheromones[i];
            proof {
                assert(p == old(self).pheromones@[i as int]);
                assert(wf_pheromone(old(self).pheromones@[i as int]));
            }
            let nr: i64 = if p.remaining - elapsed > 0 {
                p.remaining - elapsed
            } else {
                0
            };
            let np = Pheromone { remaining: nr, ..p };
            proof {
                assert(np == f(orig[i as int]));
                assert(orig.subrange(0, i as int + 1).map_values(f).drop_last() =~= orig.subrange(
                    0,
                    i as int,
                ).map_values(f));
                assert(orig.subrange(0, i as int + 1).map_values(f).last() == f(orig[i as int]));
            }
            if nr > 0 {
                out.push(np);
            }
            i = i + 1;
        }
        proof {
            assert(orig.subrange(0, n as int) =~= orig);
        }
        self.pheromones = out;
        proof {
            lemma_live_pheromones(orig.map_values(f));
            assert forall|i2: int|
                0 <= i2 < self.pheromones@.len() implies wf_pheromone(
                #[trigger] self.pheromones@[i2],
            ) by {
                let mapped = orig.map_values(f);
                assert(mapped.contains(self.pheromones@[i2]));
                let k = choose|k: int| 0 <= k < mapped.len() && mapped[k] == self.pheromones@[i2];
                assert(wf_pheromone(orig[k]));
                assert(mapped[k] == f(orig[k]));
            }
        }
    }
}


/// An agent with its emission timer advanced by the elapsed time, reset to
/// zero at the configured interval.
pub open spec fn timer_agent(a: Ant, e: int, interval: int) -> Ant {
    if a.pheromone_timer + e >= interval {
        Ant { pheromone_timer: 0, ..a }
    } else {
        Ant { pheromone_timer: (a.pheromone_timer + e) as i64, ..a }
    }
}

/// The pheromones emitted by a pass over `s`: one marker of nest kind, with
/// the configured lifetime, at the position of every agent whose timer
/// reaches the interval, in agent order.
pub open spec fn emitted_pheromones(s: Seq<Ant>, e: int, interval: int, lifetime: i64) -> Seq<
    Pheromone,
>
    decreases s.len(),
{
    if s.len() == 0 {
        Seq::empty()
    } else {
        let rest = emitted_pheromones(s.drop_last(), e, interval, lifetime);
        if s.last().pheromone_timer + e >= interval {
            rest.push(
                Pheromone { pos: s.last().pos, kind: AntPheromone::FromBase, remaining: lifetime },
            )
        } else {
            rest
        }
    }
}

/// An agent carried along its velocity for the elapsed time, the new
/// position saturated at the world bound.
pub open spec fn moved_agent(a: Ant, e: int) -> Ant {
    Ant {
        pos: Vec2i {
            x: clamp_spec(
                a.pos.x + crate::math::mul_div_trunc_spec(a.vel.x as int, e, SCALE as int),
                -COORD_LIMIT as int,
                COORD_LIMIT as int,
            ) as i64,
            y: clamp_spec(
                a.pos.y + crate::math::mul_div_trunc_spec(a.vel.y as int, e, SCALE as int),
                -COORD_LIMIT as int,
                COORD_LIMIT as int,
            ) as i64,
        },
        ..a
    }
}

impl World {
    /// Advances every agent's emission timer; an agent whose timer reaches
    /// the configured interval resets it and drops one nest-kind pheromone
    /// at its position. Exactly those markers are appended, in agent order.
    pub fn ant_pheromone_timer_system(&mut self, elapsed: i64)
        requires
            old(self).wf(),
            0 <= elapsed <= TIME_LIMIT,
        ensures
            final(self).wf(),
            final(self).config == old(self).config,
            final(self).foods@ == old(self).foods@,
            final(self).nests@ == old(self).nests@,
            final(self).agents@.len() == old(self).agents@.len(),
            forall|i: int|
                0 <= i < old(self).agents@.len() ==> final(self).agents@[i] == timer_agent(
                    #[trigger] old(self).agents@[i],
                    elapsed as int,
                    old(self).config.pheromone_interval as int,
                ),
            final(self).pheromones@ == old(self).pheromones@ + emitted_pheromones(
                old(self).agents@,
                elapsed as int,
                old(self).config.pheromone_interval as int,
                old(self).config.pheromone_lifetime,
            ),
    {
        let ghost orig = self.agents@;
        let ghost orig_p = self.pheromones@;
        let ghost e = elapsed as int;
        let ghost iv = self.config.pheromone_interval as int;
        let ghost lt = self.config.pheromone_lifetime;
        let n = self.agents.len();
        let mut i: usize = 0;
        while i < n
            invariant
                old(self).wf(),
                orig == old(self).agents@,
                orig_p == old(self).pheromones@,
                0 <= elapsed <= TIME_LIMIT,
                e == elapsed as int,
                iv == old(self).config.pheromone_interval as int,
                lt == old(self).config.pheromone_lifetime,
                n == orig.len(),
                self.agents@.len() == n,
                i <= n,
                self.config == old(self).config,
                self.foods@ == old(self).foods@,
                self.nests@ == old(self).nests@,
                forall|j: int|
                    0 <= j < i ==> self.agents@[j] == timer_agent(#[trigger] orig[j], e, iv),
                forall|j: int| i <= j < n ==> self.agents@[j] == orig[j],
                self.pheromones@ == orig_p + emitted_pheromones(orig.subrange(0, i as int), e, iv, lt),
            decreases n - i,
        {
            let a = self.agents[i];
            proof {
                assert(a == old(self).agents@[i as int]);
                assert(orig.subrange(0, i as int + 1).drop_last() =~= orig.subrange(0, i as int));
                assert(orig.subrange(0, i as int + 1).last() == orig[i as int]);
            }
            let nt: i64 = a.pheromone_timer + elapsed;
            if nt >= self.config.pheromone_interval {
                self.agents[i] = Ant { pheromone_timer: 0, ..a };
                let p = Pheromone {
                    pos: a.pos,
                    kind: AntPheromone::FromBase,
                    remaining: self.config.pheromone_lifetime,
                };
                self.pheromones.push(p);
            } else {
                self.agents[i] = Ant { pheromone_timer: nt, ..a };
            }
            i = i + 1;
        }
        proof {
            assert(orig.subrange(0, n as int) =~= orig);
            assert forall|i2: int|
                0 <= i2 < self.agents@.len() implies wf_agent_of(
                #[trigger] self.agents@[i2],
                self.config,
                self.nests@.len() as int,
            ) by {
                assert(wf_agent_of(orig[i2], old(self).config, old(self).nests@.len() as int));
                assert(self.agents@[i2] == timer_agent(orig[i2], e, iv));
            }
            assert forall|i2: int|
                0 <= i2 < self.pheromones@.len() implies wf_pheromone(
                #[trigger] self.pheromones@[i2],
            ) by {
                if i2 < orig_p.len() {
                    assert(self.pheromones@[i2] == orig_p[i2]);
                    assert(wf_pheromone(old(self).pheromones@[i2]));
                } else {
                    lemma_emitted_pheromones_wf(orig, e, iv, lt, old(self).config);
                    assert(self.pheromones@[i2] == emitted_pheromones(orig, e, iv, lt)[i2
                        - orig_p.len()]);
                }
            }
        }
    }

    /// Integration: carries every agent along its velocity for the elapsed
    /// time, saturating at the world bound.
    pub fn velocity_system(&mut self, elapsed: i64)
        requires
            old(self).wf(),
            0 <= elapsed <= TIME_LIMIT,
        ensures
            final(self).wf(),
            final(self).config == old(self).config,
            final(self).foods@ == old(self).foods@,
            final(self).nests@ == old(self).nests@,
            final(self).pheromones@ == old(self).pheromones@,
            final(self).agents@.len() == old(self).agents@.len(),
            forall|i: int|
                0 <= i < old(self).agents@.len() ==> final(self).agents@[i] == moved_agent(
                    #[trigger] old(self).agents@[i],
                    elapsed as int,
                ),
    {
        let ghost orig = self.agents@;
        let n = self.agents.len();
        let mut i: usize = 0;
        while i < n
            invariant
                old(self).wf(),
                orig == old(self).agents@,
                0 <= elapsed <= TIME_LIMIT,
                n == orig.len(),
                self.agents@.len() == n,
                i <= n,
                self.config == old(self).config,
                self.foods@ == old(self).foods@,
                self.nests@ == old(self).nests@,
                self.pheromones@ == old(self).pheromones@,
                forall|j: int|
                    0 <= j < i ==> self.agents@[j] == moved_agent(
                        #[trigger] orig[j],
                        elapsed as int,
                    ),
                forall|j: int| i <= j < n ==> self.agents@[j] == orig[j],
            decreases n - i,
        {
            let a = self.agents[i];
            proof {
                assert(a == old(self).agents@[i as int]);
                crate::vec2::lemma_mul_bound(
                    a.vel.x as int,
                    TRAIT_LIMIT as int,
                    elapsed as int,
                    TIME_LIMIT as int,
                );
                crate::vec2::lemma_mul_bound(
                    a.vel.y as int,
                    TRAIT_LIMIT as int,
                    elapsed as int,
                    TIME_LIMIT as int,
                );
                crate::math::lemma_mul_div_trunc_bounds(a.vel.x as int, elapsed as int, SCALE as int);
                crate::math::lemma_mul_div_trunc_bounds(a.vel.y as int, elapsed as int, SCALE as int);
            }
            let dx = crate::math::mul_div_trunc(a.vel.x, elapsed, SCALE);
            let dy = crate::math::mul_div_trunc(a.vel.y, elapsed, SCALE);
            let nx = crate::clamp_i64(a.pos.x + dx, -COORD_LIMIT, COORD_LIMIT);
            let ny = crate::clamp_i64(a.pos.y + dy, -COORD_LIMIT, COORD_LIMIT);
            self.agents[i] = Ant { pos: Vec2i { x: nx, y: ny }, ..a };
            i = i + 1;
        }
        proof {
            assert forall|i2: int|
                0 <= i2 < self.agents@.len() implies wf_agent_of(
                #[trigger] self.agents@[i2],
                self.config,
                self.nests@.len() as int,
            ) by {
                assert(wf_agent_of(orig[i2], old(self).config, old(self).nests@.len() as int));
                assert(self.agents@[i2] == moved_agent(orig[i2], elapsed as int));
            }
        }
    }

    /// The positions of all live food deposits, in store order; the
    /// sequence a spatial index over food is built from.
    pub fn food_positions(&self) -> (v: Vec<Vec2i>)
        ensures
            v@ == self.foods@.map_values(|f: Food| f.pos),
    {
        let mut v: Vec<Vec2i> = Vec::new();
        let n = self.foods.len();
        let mut i: usize = 0;
        while i < n
            invariant
                n == self.foods@.len(),
                i <= n,
                v@.len() == i,
                forall|j: int| 0 <= j < i ==> v@[j] == (#[trigger] self.foods@[j]).pos,
            decreases n - i,
        {
            v.push(self.foods[i].pos);
            i = i + 1;
        }
        proof {
            assert(v@ =~= self.foods@.map_values(|f: Food| f.pos));
        }
        v
    }

    /// Remaining lifetime of a pheromone marker in per-mille of the
    /// configured initial lifetime, rounded down; what a presentation
    /// layer reads to fade a marker out.
    pub fn pheromone_fraction(&self, i: usize) -> (r: i64)
        requires
            self.wf(),
            i < self.pheromones@.len(),
        ensures
            r == self.pheromones@[i as int].remaining * 1000 / (
            self.config.pheromone_lifetime as int),
            0 <= r,
    {
        let p = self.pheromones[i];
        proof {
            assert(wf_pheromone(self.pheromones@[i as int]));
            vstd::arithmetic::div_mod::lemma_div_pos_is_pos(
                p.remaining * 1000,
                self.config.pheromone_lifetime as int,
            );
            vstd::arithmetic::div_mod::lemma_div_nonincreasing(
                p.remaining * 1000,
                self.config.pheromone_lifetime as int,
            );
        }
        ((p.remaining as u64) * 1000 / (self.config.pheromone_lifetime as u64)) as i64
    }
}

/// Every emitted pheromone is well formed when the configuration is.
pub proof fn lemma_emitted_pheromones_wf(s: Seq<Ant>, e: int, iv: int, lt: i64, c: SimConfig)
    requires
        wf_config(c),
        lt == c.pheromone_lifetime,
        forall|i: int| 0 <= i < s.len() ==> wf_ant(#[trigger] s[i]),
    ensures
        forall|j: int|
            0 <= j < emitted_pheromones(s, e, iv, lt).len() ==> wf_pheromone(
                #[trigger] emitted_pheromones(s, e, iv, lt)[j],
            ),
    decreases s.len(),
{
    if s.len() == 0 {
    } else {
        assert(forall|i: int| 0 <= i < s.drop_last().len() ==> wf_ant(#[trigger] s.drop_last()[i]));
        lemma_emitted_pheromones_wf(s.drop_last(), e, iv, lt, c);
        assert(s[s.len() - 1] == s.last());
        assert(wf_ant(s.last()));
        let whole = emitted_pheromones(s, e, iv, lt);
        let rest = emitted_pheromones(s.drop_last(), e, iv, lt);
        assert forall|j: int| 0 <= j < whole.len() implies wf_pheromone(#[trigger] whole[j]) by {
            if j < rest.len() {
                assert(whole[j] == rest[j]);
            } else {
                assert(whole[j] == (Pheromone {
                    pos: s.last().pos,
                    kind: AntPheromone::FromBase,
                    remaining: lt,
                }));
            }
        }
    }
}


/// The deposit at `t` is the last one the grid scan meets among all
/// deposits strictly within `vision` of `pos`: every other in-sight deposit
/// is visited earlier in the scan order of cells of edge `cs`.
pub open spec fn last_seen_target(foods: Seq<Food>, pos: Vec2i, vision: int, cs: int, t: int) -> bool {
    &&& 0 <= t < foods.len()
    &&& crate::vec2::dist_sq_spec(foods[t].pos, pos) < vision * vision
    &&& forall|j: int|
        0 <= j < foods.len() && crate::vec2::dist_sq_spec((#[trigger] foods[j]).pos, pos) < vision
            * vision ==> (j == t || crate::grid::scan_before(
            crate::grid::key_of_pos(foods[j].pos, cs),
            j as usize,
            crate::grid::key_of_pos(foods[t].pos, cs),
            t as usize,
        ))
}

impl World {
    /// Foraging: perturbs every agent's velocity by a bounded random
    /// wander scaled by the elapsed time and caps it at the agent's speed;
    /// a hungry agent that can see food overrides the wander and heads
    /// straight for the last deposit in scan order within its vision.
    /// Mutates velocities only.
    pub fn ant_movement(&mut self, elapsed: i64, index: &crate::grid::SpatialIndex)
        requires
            old(self).wf(),
            0 <= elapsed <= TIME_LIMIT,
            index.wf(),
            index.spec_positions() == old(self).foods@.map_values(|f: Food| f.pos),
            index.spec_cell_size() == old(self).config.cell_size as int,
        ensures
            final(self).wf(),
            final(self).config == old(self).config,
            final(self).foods@ == old(self).foods@,
            final(self).nests@ == old(self).nests@,
            final(self).pheromones@ == old(self).pheromones@,
            final(self).agents@.len() == old(self).agents@.len(),
            forall|i: int|
                0 <= i < old(self).agents@.len() ==> {
                    let a0 = #[trigger] old(self).agents@[i];
                    let a1 = final(self).agents@[i];
                    &&& a1.pos == a0.pos
                    &&& a1.speed == a0.speed
                    &&& a1.vision == a0.vision
                    &&& a1.hunger == a0.hunger
                    &&& a1.evolution == a0.evolution
                    &&& a1.nest == a0.nest
                    &&& a1.pheromone_timer == a0.pheromone_timer
                    &&& norm_sq(a1.vel) <= a1.speed * a1.speed
                },
            forall|i: int|
                0 <= i < old(self).agents@.len() ==> {
                    let a0 = #[trigger] old(self).agents@[i];
                    let a1 = final(self).agents@[i];
                    (crate::entities::is_hungry(a0.hunger) && (exists|j: int|
                        0 <= j < old(self).foods@.len() && crate::vec2::dist_sq_spec(
                            (#[trigger] old(self).foods@[j]).pos,
                            a0.pos,
                        ) < a0.vision * a0.vision)) ==> (exists|t: int|
                        last_seen_target(
                            old(self).foods@,
                            a0.pos,
                            a0.vision as int,
                            old(self).config.cell_size as int,
                            t,
                        ) && crate::behavior::is_aim_of(
                            a1.vel,
                            (Vec2i {
                                x: (old(self).foods@[t].pos.x - a0.pos.x) as i64,
                                y: (old(self).foods@[t].pos.y - a0.pos.y) as i64,
                            }),
                            a0.speed as int,
                        ))
                },
            forall|i: int|
                0 <= i < old(self).agents@.len() ==> {
                    let a0 = #[trigger] old(self).agents@[i];
                    let a1 = final(self).agents@[i];
                    !(crate::entities::is_hungry(a0.hunger) && (exists|j: int|
                        0 <= j < old(self).foods@.len() && crate::vec2::dist_sq_spec(
                            (#[trigger] old(self).foods@[j]).pos,
                            a0.pos,
                        ) < a0.vision * a0.vision)) ==> (exists|ox: int, oy: int|
                        -old(self).config.wander_accel <= ox < old(self).config.wander_accel
                            && -old(self).config.wander_accel <= oy < old(self).config.wander_accel && crate::behavior::is_capped_of(
                            a1.vel,
                            crate::behavior::perturbed_of(a0.vel, ox, oy, elapsed as int),
                            a0.speed as int,
                        ))
                },
    {
        let ghost orig = self.agents@;
        let n = self.agents.len();
        let mut i: usize = 0;
        while i < n
            invariant
                old(self).wf(),
                orig == old(self).agents@,
                0 <= elapsed <= TIME_LIMIT,
                index.wf(),
                index.spec_positions() == old(self).foods@.map_values(|f: Food| f.pos),
                index.spec_cell_size() == old(self).config.cell_size as int,
                n == orig.len(),
                self.agents@.len() == n,
                i <= n,
                self.config == old(self).config,
                self.foods@ == old(self).foods@,
                self.nests@ == old(self).nests@,
                self.pheromones@ == old(self).pheromones@,
                forall|j: int| i <= j < n ==> self.agents@[j] == orig[j],
                forall|j: int|
                    0 <= j < i ==> {
                        let a0 = #[trigger] orig[j];
                        let a1 = self.agents@[j];
                        &&& a1.pos == a0.pos
                        &&& a1.speed == a0.speed
                        &&& a1.vision == a0.vision
                        &&& a1.hunger == a0.hunger
                        &&& a1.evolution == a0.evolution
                        &&& a1.nest == a0.nest
                        &&& a1.pheromone_timer == a0.pheromone_timer
                        &&& norm_sq(a1.vel) <= a1.speed * a1.speed
                    },
                forall|j: int|
                    0 <= j < i ==> {
                        let a0 = #[trigger] orig[j];
                        let a1 = self.agents@[j];
                        (crate::entities::is_hungry(a0.hunger) && (exists|jj: int|
                            0 <= jj < old(self).foods@.len() && crate::vec2::dist_sq_spec(
                                (#[trigger] old(self).foods@[jj]).pos,
                                a0.pos,
                            ) < a0.vision * a0.vision)) ==> (exists|t: int|
                            last_seen_target(
                                old(self).foods@,
                                a0.pos,
                                a0.vision as int,
                                old(self).config.cell_size as int,
                                t,
                            ) && crate::behavior::is_aim_of(
                                a1.vel,
                                (Vec2i {
                                    x: (old(self).foods@[t].pos.x - a0.pos.x) as i64,
                                    y: (old(self).foods@[t].pos.y - a0.pos.y) as i64,
                                }),
                                a0.speed as int,
                            ))
                    },
                forall|j: int|
                    0 <= j < i ==> {
                        let a0 = #[trigger] orig[j];
                        let a1 = self.agents@[j];
                        !(crate::entities::is_hungry(a0.hunger) && (exists|jj: int|
                            0 <= jj < old(self).foods@.len() && crate::vec2::dist_sq_spec(
                                (#[trigger] old(self).foods@[jj]).pos,
                                a0.pos,
                            ) < a0.vision * a0.vision)) ==> (exists|ox: int, oy: int|
                            -old(self).config.wander_accel <= ox < old(self).config.wander_accel
                                && -old(self).config.wander_accel <= oy < old(self).config.wander_accel && crate::behavior::is_capped_of(
                                a1.vel,
                                crate::behavior::perturbed_of(a0.vel, ox, oy, elapsed as int),
                                a0.speed as int,
                            ))
                    },
            decreases n - i,
        {
            let a = self.agents[i];
            proof {
                assert(a == old(self).agents@[i as int]);
            }
            let w = self.config.wander_accel;
            let ox = crate::rng::rng_range(&mut self.rng, -w, w);
            let oy = crate::rng::rng_range(&mut self.rng, -w, w);
            let hungry = a.hunger.hungry();
            let cands = index.query_radius(a.pos, a.vision);
            proof {
                assert forall|k: int| 0 <= k < cands@.len() implies #[trigger] cands@[k]
                    < self.foods@.len() by {
                    assert(cands@[k] < index.spec_positions().len());
                }
            }
            let v = crate::behavior::steer(
                a.pos,
                a.vel,
                a.speed,
                a.vision,
                hungry,
                ox,
                oy,
                elapsed,
                &self.foods,
                &cands,
            );
            self.agents[i] = Ant { vel: v, ..a };
            proof {
                let foods = old(self).foods@;
                if crate::entities::is_hungry(a.hunger) && (exists|jj: int|
                    0 <= jj < foods.len() && crate::vec2::dist_sq_spec(
                        (#[trigger] foods[jj]).pos,
                        a.pos,
                    ) < a.vision * a.vision) {
                    let jj = choose|jj: int|
                        0 <= jj < foods.len() && crate::vec2::dist_sq_spec(
                            (#[trigger] foods[jj]).pos,
                            a.pos,
                        ) < a.vision * a.vision;
                    let flen = vstd::std_specs::vec::spec_vec_len(&self.foods);
                    assert(flen == self.foods@.len());
                    assert(0 <= jj < usize::MAX);
                    assert((jj as usize) as int == jj);
                    assert(index.spec_positions()[jj] == foods[jj].pos);
                    crate::vec2::lemma_square_bound(a.vision as int, TRAIT_LIMIT as int);
                    assert(cands@.contains(jj as usize));
                    crate::behavior::lemma_last_target_found(
                        cands@,
                        foods,
                        a.pos,
                        a.vision as int,
                        jj as usize,
                    );
                    crate::behavior::lemma_last_target_props(cands@, foods, a.pos, a.vision as int);
                    let t = crate::behavior::last_target(cands@, foods, a.pos, a.vision as int);
                    match t {
                        Some(tj) => {
                            assert(crate::behavior::is_aim_of(
                                v,
                                (Vec2i {
                                    x: (foods[tj as int].pos.x - a.pos.x) as i64,
                                    y: (foods[tj as int].pos.y - a.pos.y) as i64,
                                }),
                                a.speed as int,
                            ));
                            let cs = old(self).config.cell_size as int;
                            assert forall|k1: int, k2: int|
                                0 <= k1 < k2 < cands@.len() implies crate::grid::scan_before(
                                crate::grid::key_of_pos(
                                    foods[#[trigger] cands@[k1] as int].pos,
                                    cs,
                                ),
                                cands@[k1],
                                crate::grid::key_of_pos(
                                    foods[#[trigger] cands@[k2] as int].pos,
                                    cs,
                                ),
                                cands@[k2],
                            ) by {
                                assert(index.spec_positions()[cands@[k1] as int]
                                    == foods[cands@[k1] as int].pos);
                                assert(index.spec_positions()[cands@[k2] as int]
                                    == foods[cands@[k2] as int].pos);
                            }
                            assert forall|j2: int|
                                0 <= j2 < foods.len() && crate::vec2::dist_sq_spec(
                                (#[trigger] foods[j2]).pos,
                                a.pos,
                            ) < a.vision * a.vision implies (j2 == tj as int
                                || crate::grid::scan_before(
                                crate::grid::key_of_pos(foods[j2].pos, cs),
                                j2 as usize,
                                crate::grid::key_of_pos(foods[tj as int].pos, cs),
                                tj,
                            )) by {
                                assert((j2 as usize) as int == j2);
                                assert(index.spec_positions()[j2] == foods[j2].pos);
                                assert(cands@.contains(j2 as usize));
                                crate::behavior::lemma_last_target_is_max(
                                    cands@,
                                    foods,
                                    a.pos,
                                    a.vision as int,
                                    cs,
                                    tj,
                                    j2 as usize,
                                );
                            }
                            assert(last_seen_target(foods, a.pos, a.vision as int, cs, tj as int));
                        },
                        None => {
                            assert(false);
                        },
                    }
                } else {
                    crate::behavior::lemma_last_target_props(cands@, foods, a.pos, a.vision as int);
                    match crate::behavior::last_target(cands@, foods, a.pos, a.vision as int) {
                        Some(tj) => {
                            if crate::entities::is_hungry(a.hunger) {
                                assert(crate::vec2::dist_sq_spec(foods[tj as int].pos, a.pos)
                                    < a.vision * a.vision);
                                assert(false);
                            }
                        },
                        None => {
                        },
                    }
                    assert(crate::behavior::is_capped_of(
                        v,
                        crate::behavior::perturbed_of(a.vel, ox as int, oy as int, elapsed as int),
                        a.speed as int,
                    ));
                    assert(-self.config.wander_accel <= ox < self.config.wander_accel);
                }
            }
            i = i + 1;
        }
        proof {
            assert forall|i2: int|
                0 <= i2 < self.agents@.len() implies wf_agent_of(
                #[trigger] self.agents@[i2],
                self.config,
                self.nests@.len() as int,
            ) by {
                assert(wf_agent_of(orig[i2], old(self).config, old(self).nests@.len() as int));
                let a0 = orig[i2];
                let a1 = self.agents@[i2];
                assert(a1.pos == a0.pos && a1.speed == a0.speed && a1.vision == a0.vision
                    && a1.hunger == a0.hunger && a1.nest == a0.nest && a1.pheromone_timer
                    == a0.pheromone_timer);
                assert(norm_sq(a1.vel) <= a1.speed * a1.speed);
                crate::vec2::lemma_component_within(
                    a1.vel.x as int,
                    a1.vel.y as int,
                    a1.speed as int,
                );
            }
        }
    }
}


/// Relation between an agent before and after one exchange pass: only the
/// hunger store (by exactly the fed amount) and the feeding counter may
/// change, and an agent that was not hungry is untouched.
pub open spec fn eaten_agent_ok(a0: Ant, a1: Ant, fedi: int) -> bool {
    &&& a1.pos == a0.pos
    &&& a1.vel == a0.vel
    &&& a1.speed == a0.speed
    &&& a1.vision == a0.vision
    &&& a1.nest == a0.nest
    &&& a1.pheromone_timer == a0.pheromone_timer
    &&& a1.hunger.max == a0.hunger.max
    &&& a1.hunger.current == a0.hunger.current + fedi
    &&& 0 <= fedi
    &&& a0.hunger.current + fedi <= a0.hunger.max
    &&& a1.evolution >= a0.evolution
    &&& (!crate::entities::is_hungry(a0.hunger) ==> a1 == a0 && fedi == 0)
}

/// A freshly spawned offspring of the exchange pass: at rest, full, with
/// mutated traits clamped at or above the floor, referencing a valid nest.
pub open spec fn offspring_ok(b: Ant, c: SimConfig, nests: int) -> bool {
    &&& wf_ant(b)
    &&& b.speed >= c.trait_floor
    &&& b.vision >= c.trait_floor
    &&& b.evolution == 0
    &&& b.hunger.current == c.hunger_start && b.hunger.max == c.hunger_start
    &&& b.vel == (Vec2i { x: 0, y: 0 })
    &&& b.pheromone_timer == 0
    &&& (b.nest matches Some(k) ==> k < nests)
}

/// A deposit after the exchange pass: in place, with its capacity kept and
/// its mass never grown.
pub open spec fn food_decreased(f0: Food, f1: Food) -> bool {
    &&& f1.pos == f0.pos
    &&& f1.max == f0.max
    &&& 0 <= f1.current <= f0.current
}


/// Total of a fed report.
#[verifier::opaque]
pub open spec fn sum_fed(s: Seq<i64>) -> int
    decreases s.len(),
{
    if s.len() == 0 {
        0
    } else {
        sum_fed(s.drop_last()) + s.last()
    }
}

/// Appending an entry adds exactly that entry to the total.
pub proof fn lemma_sum_fed_push(s: Seq<i64>, x: i64)
    ensures
        sum_fed(s.push(x)) == sum_fed(s) + x,
{
    reveal(sum_fed);
    assert(s.push(x).drop_last() =~= s);
    assert(s.push(x).last() == x);
}

/// Total mass held by a food store.
#[verifier::opaque]
pub open spec fn total_mass(s: Seq<Food>) -> int
    decreases s.len(),
{
    if s.len() == 0 {
        0
    } else {
        total_mass(s.drop_last()) + s.last().current
    }
}

/// Replacing one deposit changes the total by exactly that deposit's change.
pub proof fn lemma_total_mass_update(s: Seq<Food>, j: int, f: Food)
    requires
        0 <= j < s.len(),
    ensures
        total_mass(s.update(j, f)) == total_mass(s) + f.current - s[j].current,
    decreases s.len(),
{
    reveal(total_mass);
    let u = s.update(j, f);
    if j == s.len() - 1 {
        assert(u.drop_last() =~= s.drop_last());
        assert(u.last() == f);
    } else {
        assert(u.drop_last() =~= s.drop_last().update(j, f));
        assert(u.last() == s.last());
        lemma_total_mass_update(s.drop_last(), j, f);
    }
}

/// Number of deposits strictly within squared range `rsq` of `p`.
#[verifier::opaque]
pub open spec fn count_in_range(foods: Seq<Food>, p: Vec2i, rsq: int) -> nat
    decreases foods.len(),
{
    if foods.len() == 0 {
        0
    } else {
        count_in_range(foods.drop_last(), p, rsq) + (if crate::vec2::dist_sq_spec(
            foods.last().pos,
            p,
        ) < rsq {
            1nat
        } else {
            0nat
        })
    }
}

/// The indices of the deposits strictly within squared range `rsq` of `p`.
#[verifier::opaque]
pub open spec fn in_range_set(foods: Seq<Food>, p: Vec2i, rsq: int) -> Set<int> {
    Set::new(
        |j: int| 0 <= j < foods.len() && crate::vec2::dist_sq_spec(foods[j].pos, p) < rsq,
    )
}

/// The set of in-range indices is finite and counts what `count_in_range`
/// counts.
pub proof fn lemma_count_is_card(foods: Seq<Food>, p: Vec2i, rsq: int)
    ensures
        in_range_set(foods, p, rsq).finite(),
        in_range_set(foods, p, rsq).len() == count_in_range(foods, p, rsq),
    decreases foods.len(),
{
    reveal(count_in_range);
    reveal(in_range_set);
    if foods.len() == 0 {
        assert(in_range_set(foods, p, rsq) =~= Set::<int>::empty());
    } else {
        lemma_count_is_card(foods.drop_last(), p, rsq);
        let prev = in_range_set(foods.drop_last(), p, rsq);
        let l = foods.len() - 1;
        assert(forall|j: int| 0 <= j < l ==> foods.drop_last()[j] == foods[j]);
        if crate::vec2::dist_sq_spec(foods[l].pos, p) < rsq {
            assert(foods.last() == foods[l]);
            assert(in_range_set(foods, p, rsq) =~= prev.insert(l));
            assert(!prev.contains(l));
        } else {
            assert(in_range_set(foods, p, rsq) =~= prev);
        }
    }
}

/// Whether one exchange pass pushes this agent's feeding counter across the
/// reproduction threshold: it is hungry, still under the threshold, and has
/// enough deposits in eating range to reach it.
#[verifier::opaque]
pub open spec fn crosses_threshold(a: Ant, foods: Seq<Food>, rsq: int, threshold: u64) -> bool {
    &&& crate::entities::is_hungry(a.hunger)
    &&& (a.evolution as int) < threshold
    &&& threshold <= a.evolution + count_in_range(foods, a.pos, rsq)
}

/// Every deposit whose squared distance to `p` is under `rsq` is empty.
#[verifier::opaque]
pub open spec fn drained_in_range(foods: Seq<Food>, p: Vec2i, rsq: int) -> bool {
    forall|j: int|
        0 <= j < foods.len() && crate::vec2::dist_sq_spec((#[trigger] foods[j]).pos, p) < rsq
            ==> foods[j].current == 0
}

/// Deposits that only lost mass in place stay drained around `p`.
pub proof fn lemma_drained_monotone(f0: Seq<Food>, f1: Seq<Food>, p: Vec2i, rsq: int)
    requires
        f0.len() == f1.len(),
        forall|j: int| 0 <= j < f0.len() ==> food_decreased(#[trigger] f0[j], f1[j]),
        drained_in_range(f0, p, rsq),
    ensures
        drained_in_range(f1, p, rsq),
{
    reveal(drained_in_range);
    assert forall|j: int|
        0 <= j < f1.len() && crate::vec2::dist_sq_spec((#[trigger] f1[j]).pos, p)
            < rsq implies f1[j].current == 0 by {
        assert(food_decreased(f0[j], f1[j]));
        assert(f0[j].pos == f1[j].pos);
    }
}


/// Positions decide the in-range count: stores that agree pointwise on
/// positions agree on it.
pub proof fn lemma_count_same_positions(f1: Seq<Food>, f2: Seq<Food>, p: Vec2i, rsq: int)
    requires
        f1.len() == f2.len(),
        forall|j: int| 0 <= j < f1.len() ==> (#[trigger] f1[j]).pos == f2[j].pos,
    ensures
        count_in_range(f1, p, rsq) == count_in_range(f2, p, rsq),
    decreases f1.len(),
{
    reveal(count_in_range);
    if f1.len() == 0 {
    } else {
        assert(forall|j: int|
            0 <= j < f1.drop_last().len() ==> (#[trigger] f1.drop_last()[j]).pos
                == f2.drop_last()[j].pos);
        lemma_count_same_positions(f1.drop_last(), f2.drop_last(), p, rsq);
        assert(f1.last().pos == f2.last().pos) by {
            assert(f1[f1.len() - 1].pos == f2[f1.len() - 1].pos);
        }
    }
}



/// Deposits out of eating range of every hungry agent keep their mass:
/// `foods1` agrees with `foods0` on every deposit that no hungry agent of
/// `agents[..n0]` can reach.
#[verifier::opaque]
pub open spec fn untouched_far_foods(
    foods0: Seq<Food>,
    foods1: Seq<Food>,
    agents: Seq<Ant>,
    n0: int,
    rsq: int,
) -> bool {
    forall|jf: int|
        #![trigger foods0[jf]]
        0 <= jf < foods0.len() && (forall|i2: int|
            0 <= i2 < n0 ==> (crate::entities::is_hungry((#[trigger] agents[i2]).hunger)
                ==> crate::vec2::dist_sq_spec(foods0[jf].pos, agents[i2].pos) >= rsq)) ==> (0
            <= jf < foods1.len() && foods1[jf] == foods0[jf])
}

/// The far-foods relation is reflexive.
pub proof fn lemma_far_foods_refl(foods0: Seq<Food>, agents: Seq<Ant>, n0: int, rsq: int)
    ensures
        untouched_far_foods(foods0, foods0, agents, n0, rsq),
{
    reveal(untouched_far_foods);
}

/// One hungry agent's pass keeps the far-foods relation: deposits it could
/// not reach are exactly the ones it left alone.
pub proof fn lemma_far_foods_step(
    foods0: Seq<Food>,
    foods_mid: Seq<Food>,
    foods1: Seq<Food>,
    agents: Seq<Ant>,
    n0: int,
    rsq: int,
    i: int,
)
    requires
        untouched_far_foods(foods0, foods_mid, agents, n0, rsq),
        0 <= i < n0 <= agents.len(),
        crate::entities::is_hungry(agents[i].hunger),
        foods0.len() == foods_mid.len(),
        foods_mid.len() == foods1.len(),
        forall|jf: int| 0 <= jf < foods_mid.len() ==> (#[trigger] foods_mid[jf]).pos == foods0[jf].pos,
        forall|jf: int|
            0 <= jf < foods_mid.len() && crate::vec2::dist_sq_spec(
                (#[trigger] foods_mid[jf]).pos,
                agents[i].pos,
            ) >= rsq ==> foods1[jf] == foods_mid[jf],
    ensures
        untouched_far_foods(foods0, foods1, agents, n0, rsq),
{
    reveal(untouched_far_foods);
    assert forall|jf: int|
        0 <= jf < foods0.len() && (forall|i2: int|
            0 <= i2 < n0 ==> (crate::entities::is_hungry((#[trigger] agents[i2]).hunger)
                ==> crate::vec2::dist_sq_spec(foods0[jf].pos, agents[i2].pos)
                    >= rsq)) implies (0 <= jf < foods1.len() && #[trigger] foods1[jf]
        == foods0[jf]) by {
        assert(crate::vec2::dist_sq_spec(foods0[jf].pos, agents[i].pos) >= rsq);
        assert(foods_mid[jf] == foods0[jf]);
        assert(foods_mid[jf].pos == foods0[jf].pos);
        assert(foods1[jf] == foods_mid[jf]);
    }
}

/// Among the first `k` candidates, how many point at a deposit strictly
/// within squared range `rsq` of `p`.
pub open spec fn count_in_range_cands(
    cands: Seq<usize>,
    foods: Seq<Food>,
    p: Vec2i,
    rsq: int,
    k: int,
) -> nat
    decreases k,
{
    if k <= 0 {
        0
    } else {
        count_in_range_cands(cands, foods, p, rsq, k - 1) + (if cands[k - 1] < foods.len()
            && crate::vec2::dist_sq_spec(foods[cands[k - 1] as int].pos, p) < rsq {
            1nat
        } else {
            0nat
        })
    }
}

/// The in-range deposits named by the first `k` candidates.
spec fn cand_range_set(cands: Seq<usize>, foods: Seq<Food>, p: Vec2i, rsq: int, k: int) -> Set<
    int,
> {
    Set::new(
        |e: int|
            exists|kk: int|
                0 <= kk < k && #[trigger] cands[kk] as int == e && crate::vec2::dist_sq_spec(
                    foods[cands[kk] as int].pos,
                    p,
                ) < rsq,
    )
}

/// Without duplicate candidates, the prefix count counts the named set.
proof fn lemma_cands_count_card(cands: Seq<usize>, foods: Seq<Food>, p: Vec2i, rsq: int, k: int)
    requires
        0 <= k <= cands.len(),
        forall|kk: int| 0 <= kk < cands.len() ==> #[trigger] cands[kk] < foods.len(),
        forall|k1: int, k2: int| 0 <= k1 < k2 < cands.len() ==> cands[k1] != cands[k2],
    ensures
        cand_range_set(cands, foods, p, rsq, k).finite(),
        cand_range_set(cands, foods, p, rsq, k).len() == count_in_range_cands(
            cands,
            foods,
            p,
            rsq,
            k,
        ),
    decreases k,
{
    if k == 0 {
        assert(cand_range_set(cands, foods, p, rsq, 0) =~= Set::<int>::empty());
        assert(Set::<int>::empty().len() == 0);
    } else {
        lemma_cands_count_card(cands, foods, p, rsq, k - 1);
        let prev = cand_range_set(cands, foods, p, rsq, k - 1);
        let cur = cand_range_set(cands, foods, p, rsq, k);
        let e_new = cands[k - 1] as int;
        if cands[k - 1] < foods.len() && crate::vec2::dist_sq_spec(
            foods[e_new].pos,
            p,
        ) < rsq {
            assert forall|e: int| #[trigger] cur.contains(e) implies prev.insert(
                e_new,
            ).contains(e) by {
                let kk = choose|kk: int|
                    0 <= kk < k && #[trigger] cands[kk] as int == e
                        && crate::vec2::dist_sq_spec(foods[cands[kk] as int].pos, p) < rsq;
                if kk < k - 1 {
                    assert(prev.contains(e));
                }
            }
            assert forall|e: int| #[trigger] prev.insert(e_new).contains(e) implies cur.contains(
                e,
            ) by {
                if e == e_new {
                    assert(cands[k - 1] as int == e && crate::vec2::dist_sq_spec(
                        foods[cands[k - 1] as int].pos,
                        p,
                    ) < rsq);
                } else {
                    assert(prev.contains(e));
                    let kk = choose|kk: int|
                        0 <= kk < k - 1 && #[trigger] cands[kk] as int == e
                            && crate::vec2::dist_sq_spec(foods[cands[kk] as int].pos, p) < rsq;
                    assert(0 <= kk < k && cands[kk] as int == e && crate::vec2::dist_sq_spec(
                        foods[cands[kk] as int].pos,
                        p,
                    ) < rsq);
                }
            }
            assert(cur =~= prev.insert(e_new));
            assert(!prev.contains(e_new)) by {
                if prev.contains(e_new) {
                    let kk = choose|kk: int|
                        0 <= kk < k - 1 && #[trigger] cands[kk] as int == e_new
                            && crate::vec2::dist_sq_spec(foods[cands[kk] as int].pos, p) < rsq;
                    assert(cands[kk] == cands[k - 1]);
                }
            }
        } else {
            assert forall|e: int| #[trigger] cur.contains(e) implies prev.contains(e) by {
                let kk = choose|kk: int|
                    0 <= kk < k && #[trigger] cands[kk] as int == e
                        && crate::vec2::dist_sq_spec(foods[cands[kk] as int].pos, p) < rsq;
                if kk == k - 1 {
                    assert(false);
                }
            }
            assert forall|e: int| #[trigger] prev.contains(e) implies cur.contains(e) by {
                let kk = choose|kk: int|
                    0 <= kk < k - 1 && #[trigger] cands[kk] as int == e
                        && crate::vec2::dist_sq_spec(foods[cands[kk] as int].pos, p) < rsq;
                assert(0 <= kk < k && cands[kk] as int == e && crate::vec2::dist_sq_spec(
                    foods[cands[kk] as int].pos,
                    p,
                ) < rsq);
            }
            assert(cur =~= prev);
        }
    }
}

/// A duplicate-free candidate list that names every in-range deposit
/// counts exactly the deposits in range.
pub proof fn lemma_cands_count_complete(cands: Seq<usize>, foods: Seq<Food>, p: Vec2i, rsq: int)
    requires
        forall|kk: int| 0 <= kk < cands.len() ==> #[trigger] cands[kk] < foods.len(),
        forall|k1: int, k2: int| 0 <= k1 < k2 < cands.len() ==> cands[k1] != cands[k2],
        forall|j: int|
            0 <= j < foods.len() && crate::vec2::dist_sq_spec((#[trigger] foods[j]).pos, p)
                < rsq ==> cands.contains(j as usize),
        foods.len() <= usize::MAX,
    ensures
        count_in_range_cands(cands, foods, p, rsq, cands.len() as int) == count_in_range(
            foods,
            p,
            rsq,
        ),
{
    reveal(in_range_set);
    lemma_cands_count_card(cands, foods, p, rsq, cands.len() as int);
    let cset = cand_range_set(cands, foods, p, rsq, cands.len() as int);
    let iset = in_range_set(foods, p, rsq);
    assert forall|e: int| #[trigger] cset.contains(e) implies iset.contains(e) by {
        let kk = choose|kk: int|
            0 <= kk < cands.len() && #[trigger] cands[kk] as int == e
                && crate::vec2::dist_sq_spec(foods[cands[kk] as int].pos, p) < rsq;
        assert(0 <= e < foods.len());
    }
    assert forall|e: int| #[trigger] iset.contains(e) implies cset.contains(e) by {
        assert(0 <= e < foods.len());
        assert((e as usize) as int == e);
        assert(cands.contains(e as usize));
        let kk = choose|kk: int| 0 <= kk < cands.len() && cands[kk] == e as usize;
        assert(cands[kk] as int == e && crate::vec2::dist_sq_spec(
            foods[cands[kk] as int].pos,
            p,
        ) < rsq);
    }
    assert(cset =~= iset);
    lemma_count_is_card(foods, p, rsq);
}

/// What one exchange pass hands back: how much each entering agent was
/// fed and, for every agent whose feeding counter crossed the reproduction
/// threshold, where its founded nest and its offspring run were appended.
pub struct ExchangeReport {
    /// Mass fed to each agent that entered the pass, by entry index.
    pub fed: Vec<i64>,
    /// For each crossing agent's index, the index of the nest it founded.
    pub nest_of: Ghost<Map<int, usize>>,
    /// For each crossing agent's index, where its offspring run starts.
    pub spawn_at: Ghost<Map<int, int>>,
}

impl World {
    /// One hungry agent's share of the exchange pass: it eats from every
    /// candidate deposit strictly within the interaction radius, one
    /// counted feeding event per deposit, and reproduces once if its
    /// counter reaches the threshold. Returns the total mass taken, the
    /// agent's new hunger store and counter, and the offspring to append.
    #[verifier::spinoff_prover]
    pub fn exchange_for_agent(&mut self, a: Ant, cands: &Vec<usize>, rsq: i64) -> (r: (
        i64,
        Hunger,
        u64,
        Vec<Ant>,
    ))
        requires
            wf_config(old(self).config),
            rsq == old(self).config.interaction_radius * old(self).config.interaction_radius,
            wf_ant(a),
            crate::entities::is_hungry(a.hunger),
            forall|j: int| 0 <= j < old(self).foods@.len() ==> wf_food(#[trigger] old(self).foods@[j]),
            forall|j: int| 0 <= j < old(self).nests@.len() ==> wf_nest(#[trigger] old(self).nests@[j]),
            forall|k: int| 0 <= k < cands@.len() ==> #[trigger] cands@[k] < old(self).foods@.len(),
            forall|k1: int, k2: int| 0 <= k1 < k2 < cands@.len() ==> cands@[k1] != cands@[k2],
            forall|j: int|
                0 <= j < old(self).foods@.len() && crate::vec2::dist_sq_spec(
                    (#[trigger] old(self).foods@[j]).pos,
                    a.pos,
                ) < rsq ==> cands@.contains(j as usize),
        ensures
            final(self).config == old(self).config,
            final(self).agents@ == old(self).agents@,
            final(self).pheromones@ == old(self).pheromones@,
            final(self).foods@.len() == old(self).foods@.len(),
            forall|j: int|
                0 <= j < old(self).foods@.len() ==> food_decreased(
                    #[trigger] old(self).foods@[j],
                    final(self).foods@[j],
                ),
            forall|j: int| 0 <= j < final(self).foods@.len() ==> wf_food(#[trigger] final(self).foods@[j]),
            forall|j: int|
                0 <= j < old(self).foods@.len() && crate::vec2::dist_sq_spec(
                    (#[trigger] old(self).foods@[j]).pos,
                    a.pos,
                ) >= rsq ==> final(self).foods@[j] == old(self).foods@[j],
            total_mass(final(self).foods@) == total_mass(old(self).foods@) - r.0,
            0 <= r.0,
            r.1.max == a.hunger.max,
            r.1.current == a.hunger.current + r.0,
            wf_hunger(r.1),
            r.1.current == r.1.max || drained_in_range(final(self).foods@, a.pos, rsq as int),
            r.2 as int == (if a.evolution + count_in_range(old(self).foods@, a.pos, rsq as int)
                <= u64::MAX {
                a.evolution + count_in_range(old(self).foods@, a.pos, rsq as int)
            } else {
                u64::MAX as int
            }),
            r.2 >= a.evolution,
            !((a.evolution as int) < old(self).config.repro_threshold
                && old(self).config.repro_threshold <= a.evolution + count_in_range(
                old(self).foods@,
                a.pos,
                rsq as int,
            )) ==> (final(self).nests@ == old(self).nests@ && r.3@.len() == 0),
            ((a.evolution as int) < old(self).config.repro_threshold
                && old(self).config.repro_threshold <= a.evolution + count_in_range(
                old(self).foods@,
                a.pos,
                rsq as int,
            )) ==> (final(self).nests@ == old(self).nests@.push(AntNest { pos: a.pos })
                && r.3@.len() == old(self).config.offspring_count && (forall|b: int|
                0 <= b < r.3@.len() ==> (offspring_ok(
                    #[trigger] r.3@[b],
                    old(self).config,
                    final(self).nests@.len() as int,
                ) && r.3@[b].nest == Some((old(self).nests@.len() as usize)) && r.3@[b].pos
                    == a.pos))),
            forall|j: int| 0 <= j < final(self).nests@.len() ==> wf_nest(#[trigger] final(self).nests@[j]),
    {
        let ghost orig_f = self.foods@;
        let ghost nests0 = self.nests@;
        let ghost th = self.config.repro_threshold;
        let ghost oc_g = self.config.offspring_count;
        let mut h = a.hunger;
        let mut evo = a.evolution;
        let mut my_fed: i64 = 0;
        let mut births: Vec<Ant> = Vec::new();
        let ghost mut crossed: bool = false;
        let cn = cands.len();
        let mut k: usize = 0;
        while k < cn
            invariant
                wf_config(old(self).config),
                rsq == old(self).config.interaction_radius * old(self).config.interaction_radius,
                wf_ant(a),
                in_world(a.pos),
                crate::entities::is_hungry(a.hunger),
                orig_f == old(self).foods@,
                nests0 == old(self).nests@,
                th == old(self).config.repro_threshold,
                oc_g == old(self).config.offspring_count,
                cn == cands@.len(),
                k <= cn,
                forall|kk: int| 0 <= kk < cands@.len() ==> #[trigger] cands@[kk] < orig_f.len(),
                forall|k1: int, k2: int|
                    0 <= k1 < k2 < cands@.len() ==> cands@[k1] != cands@[k2],
                self.config == old(self).config,
                self.agents@ == old(self).agents@,
                self.pheromones@ == old(self).pheromones@,
                self.foods@.len() == orig_f.len(),
                forall|j: int|
                    0 <= j < orig_f.len() ==> food_decreased(
                        #[trigger] orig_f[j],
                        self.foods@[j],
                    ),
                forall|j: int| 0 <= j < self.foods@.len() ==> wf_food(#[trigger] self.foods@[j]),
                forall|j: int|
                    0 <= j < orig_f.len() && crate::vec2::dist_sq_spec(
                        (#[trigger] orig_f[j]).pos,
                        a.pos,
                    ) >= rsq ==> self.foods@[j] == orig_f[j],
                total_mass(self.foods@) == total_mass(orig_f) - my_fed,
                0 <= my_fed,
                wf_hunger(h),
                h.max == a.hunger.max,
                h.current == a.hunger.current + my_fed,
                evo as int == (if a.evolution + count_in_range_cands(
                    cands@,
                    orig_f,
                    a.pos,
                    rsq as int,
                    k as int,
                ) <= u64::MAX {
                    a.evolution + count_in_range_cands(cands@, orig_f, a.pos, rsq as int, k as int)
                } else {
                    u64::MAX as int
                }),
                crossed <==> ((a.evolution as int) < th && th <= a.evolution
                    + count_in_range_cands(cands@, orig_f, a.pos, rsq as int, k as int)),
                !crossed ==> (self.nests@ == nests0 && births@.len() == 0),
                crossed ==> (self.nests@ == nests0.push(AntNest { pos: a.pos }) && births@.len()
                    == oc_g && (forall|b: int|
                    0 <= b < births@.len() ==> (offspring_ok(
                        #[trigger] births@[b],
                        old(self).config,
                        self.nests@.len() as int,
                    ) && births@[b].nest == Some((nests0.len() as usize)) && births@[b].pos
                        == a.pos))),
                forall|j: int| 0 <= j < self.nests@.len() ==> wf_nest(#[trigger] self.nests@[j]),
                forall|kk: int|
                    0 <= kk < k ==> (h.current == h.max || crate::vec2::dist_sq_spec(
                        self.foods@[(#[trigger] cands@[kk]) as int].pos,
                        a.pos,
                    ) >= rsq || self.foods@[cands@[kk] as int].current == 0),
            decreases cn - k,
        {
            let j = cands[k];
            let ghost foods_k0 = self.foods@;
            let ghost h0 = h;
            let ghost crossed_b0 = crossed;
            let ghost evo_b0 = evo;
            let ghost cnt0 = count_in_range_cands(cands@, orig_f, a.pos, rsq as int, k as int);
            let d2 = crate::vec2::dist_sq(self.foods[j].pos, a.pos);
            proof {
                assert(self.foods@[j as int].pos == orig_f[j as int].pos);
            }
            if d2 >= rsq {
                proof {
                    assert(count_in_range_cands(cands@, orig_f, a.pos, rsq as int, k as int + 1)
                        == cnt0);
                }
                k = k + 1;
                continue;
            }
            let mut f = self.foods[j];
            let taken = crate::entities::feed(&mut h, &mut f);
            self.foods[j] = f;
            my_fed = my_fed + taken;
            proof {
                lemma_total_mass_update(foods_k0, j as int, f);
                assert(count_in_range_cands(cands@, orig_f, a.pos, rsq as int, k as int + 1)
                    == cnt0 + 1);
            }
            if evo < u64::MAX {
                evo = evo + 1;
                if evo == self.config.repro_threshold {
                    proof {
                        assert(!crossed_b0) by {
                            if crossed_b0 {
                                assert(evo_b0 as int >= th);
                            }
                        }
                        crossed = true;
                    }
                    let nest_idx = self.nests.len();
                    self.nests.push(AntNest { pos: a.pos });
                    let oc = self.config.offspring_count;
                    let mr = self.config.mutation_range;
                    let mut c: usize = 0;
                    while c < oc
                        invariant
                            wf_config(old(self).config),
                            self.config == old(self).config,
                            orig_f == old(self).foods@,
                            nests0 == old(self).nests@,
                            mr == old(self).config.mutation_range,
                            oc == old(self).config.offspring_count,
                            wf_ant(a),
                            in_world(a.pos),
                            c <= oc,
                            nest_idx as int == nests0.len(),
                            self.nests@ == nests0.push(AntNest { pos: a.pos }),
                            self.agents@ == old(self).agents@,
                            self.pheromones@ == old(self).pheromones@,
                            self.foods@ == foods_k0.update(cands@[k as int] as int, f),
                            births@.len() == c,
                            forall|cc: int|
                                0 <= cc < births@.len() ==> (offspring_ok(
                                    #[trigger] births@[cc],
                                    old(self).config,
                                    self.nests@.len() as int,
                                ) && births@[cc].nest == Some(nest_idx) && births@[cc].pos
                                    == a.pos),
                            forall|j2: int|
                                0 <= j2 < self.nests@.len() ==> wf_nest(
                                    #[trigger] self.nests@[j2],
                                ),
                        decreases oc - c,
                    {
                        let so: i64 = if mr > 0 {
                            crate::rng::rng_range(&mut self.rng, -mr, mr)
                        } else {
                            0
                        };
                        let vo: i64 = if mr > 0 {
                            crate::rng::rng_range(&mut self.rng, -mr, mr)
                        } else {
                            0
                        };
                        let ns = crate::entities::mutate_trait(a.speed, so, self.config.trait_floor);
                        let nv = crate::entities::mutate_trait(
                            a.vision,
                            vo,
                            self.config.trait_floor,
                        );
                        let b = Ant::new(a.pos, ns, nv, self.config.hunger_start, Some(nest_idx));
                        births.push(b);
                        c = c + 1;
                    }
                    proof {
                        let nlen = vstd::std_specs::vec::spec_vec_len(&self.nests);
                        assert(nlen == self.nests@.len());
                        assert(nest_idx == (nests0.len() as usize));
                    }
                }
            }
            proof {
                assert forall|kk: int| 0 <= kk < k + 1 implies (h.current == h.max
                    || crate::vec2::dist_sq_spec(
                    self.foods@[(#[trigger] cands@[kk]) as int].pos,
                    a.pos,
                ) >= rsq || self.foods@[cands@[kk] as int].current == 0) by {
                    let jj = cands@[kk] as int;
                    if kk < k {
                        assert(cands@[kk] != cands@[k as int]);
                        assert(self.foods@[jj] == foods_k0[jj]);
                        if h0.current == h0.max {
                            assert(h.current == h.max);
                        }
                    } else {
                        assert(jj == j as int);
                        if foods_k0[jj].current <= h0.max - h0.current {
                            assert(self.foods@[jj].current == 0);
                        } else {
                            assert(h.current == h.max);
                        }
                    }
                }
                let cnt1 = count_in_range_cands(cands@, orig_f, a.pos, rsq as int, k as int + 1);
                assert(cnt1 == cnt0 + 1);
                assert(evo as int == (if a.evolution + cnt1 <= u64::MAX {
                    a.evolution + cnt1
                } else {
                    u64::MAX as int
                }));
                assert(crossed <==> ((a.evolution as int) < th && th <= a.evolution + cnt1)) by {
                    if (a.evolution as int) < th && th <= a.evolution + cnt1 {
                        if th <= a.evolution + cnt0 {
                            assert(crossed_b0);
                        } else {
                            assert(th == a.evolution + cnt1);
                            assert(evo_b0 as int == a.evolution + cnt0);
                        }
                    }
                    if crossed && !crossed_b0 {
                        assert(evo as int == th);
                    }
                }
            }
            k = k + 1;
        }
        proof {
            let flen = vstd::std_specs::vec::spec_vec_len(&self.foods);
            assert(flen == self.foods@.len());
            lemma_cands_count_complete(cands@, orig_f, a.pos, rsq as int);
            assert(count_in_range_cands(cands@, orig_f, a.pos, rsq as int, cn as int)
                == count_in_range(orig_f, a.pos, rsq as int));
            if h.current != h.max {
                assert forall|j2: int|
                    0 <= j2 < self.foods@.len() && crate::vec2::dist_sq_spec(
                    (#[trigger] self.foods@[j2]).pos,
                    a.pos,
                ) < rsq implies self.foods@[j2].current == 0 by {
                    assert(self.foods@[j2].pos == orig_f[j2].pos);
                    assert(cands@.contains(j2 as usize));
                    let kk = choose|kk: int| 0 <= kk < cands@.len() && cands@[kk] == j2 as usize;
                    assert(h.current == h.max || crate::vec2::dist_sq_spec(
                        self.foods@[(cands@[kk]) as int].pos,
                        a.pos,
                    ) >= rsq || self.foods@[cands@[kk] as int].current == 0);
                }
                assert(drained_in_range(self.foods@, a.pos, rsq as int)) by {
                    reveal(drained_in_range);
                }
            }
        }
        (my_fed, h, evo, births)
    }
}

impl World {
    /// Exchange: every hungry agent eats from each deposit within the
    /// interaction radius, taking exactly `min(mass, lack)` per deposit and
    /// counting one feeding event per transfer; mass only moves from a
    /// deposit into the agent beside it, and the totals balance. An agent
    /// whose counter crosses the reproduction threshold founds a nest at
    /// its position and spawns the configured number of offspring with
    /// mutated, floored traits; the report says where.
    #[verifier::spinoff_prover]
    pub fn ant_eating(&mut self, index: &crate::grid::SpatialIndex) -> (r: ExchangeReport)
        requires
            old(self).wf(),
            index.wf(),
            index.spec_positions() == old(self).foods@.map_values(|f: Food| f.pos),
        ensures
            final(self).wf(),
            final(self).config == old(self).config,
            final(self).pheromones@ == old(self).pheromones@,
            r.fed@.len() == old(self).agents@.len(),
            final(self).agents@.len() >= old(self).agents@.len(),
            forall|i: int|
                0 <= i < old(self).agents@.len() ==> eaten_agent_ok(
                    #[trigger] old(self).agents@[i],
                    final(self).agents@[i],
                    r.fed@[i] as int,
                ),
            forall|i: int|
                old(self).agents@.len() <= i < final(self).agents@.len() ==> offspring_ok(
                    #[trigger] final(self).agents@[i],
                    old(self).config,
                    final(self).nests@.len() as int,
                ),
            final(self).foods@.len() == old(self).foods@.len(),
            forall|j: int|
                0 <= j < old(self).foods@.len() ==> food_decreased(
                    #[trigger] old(self).foods@[j],
                    final(self).foods@[j],
                ),
            old(self).nests@.is_prefix_of(final(self).nests@),
            forall|i: int|
                0 <= i < old(self).agents@.len() ==> (crate::entities::is_hungry(
                    (#[trigger] old(self).agents@[i]).hunger,
                ) ==> (final(self).agents@[i].hunger.current == final(self).agents@[i].hunger.max
                    || drained_in_range(
                    final(self).foods@,
                    old(self).agents@[i].pos,
                    old(self).config.interaction_radius * old(self).config.interaction_radius,
                ))),
            total_mass(final(self).foods@) == total_mass(old(self).foods@) - sum_fed(r.fed@),
            untouched_far_foods(
                old(self).foods@,
                final(self).foods@,
                old(self).agents@,
                old(self).agents@.len() as int,
                old(self).config.interaction_radius * old(self).config.interaction_radius,
            ),
            forall|i: int|
                0 <= i < old(self).agents@.len() ==> (crate::entities::is_hungry(
                    (#[trigger] old(self).agents@[i]).hunger,
                ) ==> final(self).agents@[i].evolution as int == (if old(self).agents@[i].evolution + count_in_range(
                    old(self).foods@,
                    old(self).agents@[i].pos,
                    old(self).config.interaction_radius * old(self).config.interaction_radius,
                ) <= u64::MAX {
                    old(self).agents@[i].evolution + count_in_range(
                        old(self).foods@,
                        old(self).agents@[i].pos,
                        old(self).config.interaction_radius * old(self).config.interaction_radius,
                    )
                } else {
                    u64::MAX as int
                })),
            forall|i: int|
                0 <= i < old(self).agents@.len() ==> (crosses_threshold(
                    #[trigger] old(self).agents@[i],
                    old(self).foods@,
                    old(self).config.interaction_radius * old(self).config.interaction_radius,
                    old(self).config.repro_threshold,
                ) ==> {
                    let nn = r.nest_of@[i];
                    let st = r.spawn_at@[i];
                    &&& old(self).nests@.len() <= nn < final(self).nests@.len()
                    &&& final(self).nests@[nn as int].pos == old(self).agents@[i].pos
                    &&& old(self).agents@.len() <= st
                    &&& st + old(self).config.offspring_count <= final(self).agents@.len()
                    &&& forall|c: int|
                        st <= c < st + old(self).config.offspring_count ==> ((#[trigger] final(self).agents@[c]).nest == Some(nn) && final(self).agents@[c].pos == old(self).agents@[i].pos)
                }),
            (forall|i: int|
                0 <= i < old(self).agents@.len() ==> !crosses_threshold(
                    #[trigger] old(self).agents@[i],
                    old(self).foods@,
                    old(self).config.interaction_radius * old(self).config.interaction_radius,
                    old(self).config.repro_threshold,
                )) ==> (final(self).agents@.len() == old(self).agents@.len() && final(self).nests@
                == old(self).nests@),
    {
        let ghost orig_a = self.agents@;
        let ghost orig_f = self.foods@;
        let ghost orig_n = self.nests@;
        let ghost orig_p = self.pheromones@;
        let ghost th = self.config.repro_threshold;
        let n0 = self.agents.len();
        proof {
            crate::vec2::lemma_square_bound(
                self.config.interaction_radius as int,
                TRAIT_LIMIT as int,
            );
        }
        let rsq: i64 = self.config.interaction_radius * self.config.interaction_radius;
        let mut fedv: Vec<i64> = Vec::new();
        let ghost mut nest_map: Map<int, usize> = Map::empty();
        let ghost mut spawn_map: Map<int, int> = Map::empty();
        let mut i: usize = 0;
        proof {
            assert(orig_n.is_prefix_of(self.nests@)) by {
                assert(orig_n =~= self.nests@.subrange(0, orig_n.len() as int));
            }
            assert(sum_fed(fedv@) == 0) by {
                reveal(sum_fed);
            }
            lemma_far_foods_refl(orig_f, orig_a, n0 as int, rsq as int);
        }
        while i < n0
            invariant
                old(self).wf(),
                orig_a == old(self).agents@,
                orig_f == old(self).foods@,
                orig_n == old(self).nests@,
                orig_p == old(self).pheromones@,
                th == old(self).config.repro_threshold,
                index.wf(),
                index.spec_positions() == orig_f.map_values(|f: Food| f.pos),
                n0 == orig_a.len(),
                i <= n0,
                fedv@.len() == i,
                self.config == old(self).config,
                self.pheromones@ == orig_p,
                self.agents@.len() >= n0,
                forall|j: int| i <= j < n0 ==> self.agents@[j] == orig_a[j],
                forall|j: int|
                    0 <= j < i ==> eaten_agent_ok(
                        #[trigger] orig_a[j],
                        self.agents@[j],
                        fedv@[j] as int,
                    ),
                forall|j: int|
                    n0 <= j < self.agents@.len() ==> offspring_ok(
                        #[trigger] self.agents@[j],
                        old(self).config,
                        self.nests@.len() as int,
                    ),
                self.foods@.len() == orig_f.len(),
                forall|j: int|
                    0 <= j < orig_f.len() ==> food_decreased(
                        #[trigger] orig_f[j],
                        self.foods@[j],
                    ),
                forall|j: int| 0 <= j < self.foods@.len() ==> wf_food(#[trigger] self.foods@[j]),
                orig_n.is_prefix_of(self.nests@),
                forall|j: int| 0 <= j < self.nests@.len() ==> wf_nest(#[trigger] self.nests@[j]),
                rsq == old(self).config.interaction_radius * old(self).config.interaction_radius,
                forall|j: int|
                    0 <= j < i ==> (crate::entities::is_hungry((#[trigger] orig_a[j]).hunger)
                        ==> (self.agents@[j].hunger.current == self.agents@[j].hunger.max
                        || drained_in_range(self.foods@, orig_a[j].pos, rsq as int))),
                total_mass(self.foods@) == total_mass(orig_f) - sum_fed(fedv@),
                untouched_far_foods(orig_f, self.foods@, orig_a, n0 as int, rsq as int),
                forall|j: int|
                    0 <= j < i ==> (crate::entities::is_hungry((#[trigger] orig_a[j]).hunger)
                        ==> self.agents@[j].evolution as int == (if orig_a[j].evolution
                        + count_in_range(orig_f, orig_a[j].pos, rsq as int) <= u64::MAX {
                        orig_a[j].evolution + count_in_range(orig_f, orig_a[j].pos, rsq as int)
                    } else {
                        u64::MAX as int
                    })),
                forall|j: int|
                    0 <= j < i ==> (crosses_threshold(
                        #[trigger] orig_a[j],
                        orig_f,
                        rsq as int,
                        th,
                    ) ==> {
                        let nn = nest_map[j];
                        let st = spawn_map[j];
                        &&& orig_n.len() <= nn < self.nests@.len()
                        &&& self.nests@[nn as int].pos == orig_a[j].pos
                        &&& n0 <= st
                        &&& st + old(self).config.offspring_count <= self.agents@.len()
                        &&& forall|c: int|
                            st <= c < st + old(self).config.offspring_count ==> ((
                            #[trigger] self.agents@[c]).nest == Some(nn) && self.agents@[c].pos
                                == orig_a[j].pos)
                    }),
                (forall|j: int|
                    0 <= j < i ==> !crosses_threshold(
                        #[trigger] orig_a[j],
                        orig_f,
                        rsq as int,
                        th,
                    )) ==> (self.agents@.len() == n0 && self.nests@ == orig_n),
            decreases n0 - i,
        {
            let a = self.agents[i];
            proof {
                assert(a == orig_a[i as int]);
                assert(wf_agent_of(old(self).agents@[i as int], old(self).config, orig_n.len() as int));
            }
            if !a.hunger.hungry() {
                proof {
                    lemma_sum_fed_push(fedv@, 0);
                    assert(!crosses_threshold(orig_a[i as int], orig_f, rsq as int, th)) by {
                        reveal(crosses_threshold);
                    }
                }
                fedv.push(0);
                i = i + 1;
            } else {
                let cands = index.query_radius(a.pos, self.config.interaction_radius);
                let ghost foods_iter0 = self.foods@;
                let ghost nests0 = self.nests@;
                let ghost agents_pre = self.agents@;
                let ghost fed_pre = fedv@;
                proof {
                    let flen = vstd::std_specs::vec::spec_vec_len(&self.foods);
                    assert(flen == self.foods@.len());
                    let nlen = vstd::std_specs::vec::spec_vec_len(&self.nests);
                    assert(nlen == self.nests@.len());
                    assert forall|kk2: int| 0 <= kk2 < cands@.len() implies #[trigger] cands@[kk2]
                        < self.foods@.len() by {
                        assert(cands@[kk2] < index.spec_positions().len());
                    }
                    assert forall|j2: int|
                        0 <= j2 < self.foods@.len() && crate::vec2::dist_sq_spec(
                        (#[trigger] self.foods@[j2]).pos,
                        a.pos,
                    ) < rsq implies cands@.contains(j2 as usize) by {
                        assert((j2 as usize) as int == j2);
                        assert(self.foods@[j2].pos == orig_f[j2].pos);
                        assert(index.spec_positions()[j2] == orig_f[j2].pos);
                    }
                    assert(forall|j2: int|
                        n0 <= j2 < agents_pre.len() ==> offspring_ok(
                            #[trigger] agents_pre[j2],
                            old(self).config,
                            nests0.len() as int,
                        ));
                    assert(forall|j2: int|
                        0 <= j2 < foods_iter0.len() ==> (#[trigger] foods_iter0[j2]).pos
                            == orig_f[j2].pos);
                    lemma_count_same_positions(foods_iter0, orig_f, a.pos, rsq as int);
                }
                let (my_fed, nh, nevo, mut births) = self.exchange_for_agent(a, &cands, rsq);
                let ghost bs = births@;
                self.agents[i] = Ant { hunger: nh, evolution: nevo, ..a };
                let ghost upd = self.agents@;
                self.agents.append(&mut births);
                fedv.push(my_fed);
                proof {
                    reveal(crosses_threshold);
                    lemma_sum_fed_push(fed_pre, my_fed);
                    assert(self.agents@[i as int] == upd[i as int]);
                    assert(eaten_agent_ok(orig_a[i as int], self.agents@[i as int], my_fed as int));
                    assert forall|j2: int|
                        0 <= j2 < orig_f.len() implies food_decreased(
                        #[trigger] orig_f[j2],
                        self.foods@[j2],
                    ) by {
                        assert(food_decreased(orig_f[j2], foods_iter0[j2]));
                        assert(food_decreased(foods_iter0[j2], self.foods@[j2]));
                    }
                    assert forall|j2: int| 0 <= j2 < i implies (crate::entities::is_hungry(
                        (#[trigger] orig_a[j2]).hunger,
                    ) ==> (self.agents@[j2].hunger.current == self.agents@[j2].hunger.max
                        || drained_in_range(self.foods@, orig_a[j2].pos, rsq as int))) by {
                        assert(self.agents@[j2] == agents_pre[j2]);
                        if crate::entities::is_hungry(orig_a[j2].hunger)
                            && agents_pre[j2].hunger.current != agents_pre[j2].hunger.max {
                            assert(drained_in_range(foods_iter0, orig_a[j2].pos, rsq as int));
                            lemma_drained_monotone(
                                foods_iter0,
                                self.foods@,
                                orig_a[j2].pos,
                                rsq as int,
                            );
                        }
                    }
                    lemma_far_foods_step(
                        orig_f,
                        foods_iter0,
                        self.foods@,
                        orig_a,
                        n0 as int,
                        rsq as int,
                        i as int,
                    );
                    assert forall|j2: int| 0 <= j2 < i + 1 implies (crate::entities::is_hungry(
                        (#[trigger] orig_a[j2]).hunger,
                    ) ==> self.agents@[j2].evolution as int == (if orig_a[j2].evolution
                        + count_in_range(orig_f, orig_a[j2].pos, rsq as int) <= u64::MAX {
                        orig_a[j2].evolution + count_in_range(orig_f, orig_a[j2].pos, rsq as int)
                    } else {
                        u64::MAX as int
                    })) by {
                        if j2 < i {
                            assert(self.agents@[j2] == agents_pre[j2]);
                        } else {
                            assert(self.agents@[j2].evolution == nevo);
                        }
                    }
                    if crosses_threshold(orig_a[i as int], orig_f, rsq as int, th) {
                        nest_map = nest_map.insert(i as int, (nests0.len() as usize));
                        spawn_map = spawn_map.insert(i as int, upd.len() as int);
                        assert((nests0.len() as usize) as int == nests0.len());
                        assert(self.nests@ == nests0.push(AntNest { pos: a.pos }));
                        assert(bs.len() == old(self).config.offspring_count);
                        assert forall|c: int|
                            upd.len() <= c < upd.len() + old(self).config.offspring_count implies ((
                        #[trigger] self.agents@[c]).nest == Some((nests0.len() as usize))
                            && self.agents@[c].pos == orig_a[i as int].pos) by {
                            assert(self.agents@[c] == bs[c - upd.len()]);
                        }
                    }
                    assert(nests0.is_prefix_of(self.nests@)) by {
                        assert(nests0 =~= self.nests@.subrange(0, nests0.len() as int));
                    }
                    assert forall|j2: int| 0 <= j2 < i + 1 implies (crosses_threshold(
                        #[trigger] orig_a[j2],
                        orig_f,
                        rsq as int,
                        th,
                    ) ==> {
                        let nn = nest_map[j2];
                        let st = spawn_map[j2];
                        &&& orig_n.len() <= nn < self.nests@.len()
                        &&& self.nests@[nn as int].pos == orig_a[j2].pos
                        &&& n0 <= st
                        &&& st + old(self).config.offspring_count <= self.agents@.len()
                        &&& forall|c: int|
                            st <= c < st + old(self).config.offspring_count ==> ((
                            #[trigger] self.agents@[c]).nest == Some(nn) && self.agents@[c].pos
                                == orig_a[j2].pos)
                    }) by {
                        if crosses_threshold(orig_a[j2], orig_f, rsq as int, th) {
                            if j2 < i {
                                let nn = nest_map[j2];
                                let st = spawn_map[j2];
                                assert(orig_n.len() <= nn < nests0.len());
                                assert(self.nests@[nn as int] == nests0[nn as int]);
                                assert forall|c: int|
                                    st <= c < st + old(self).config.offspring_count implies ((
                                #[trigger] self.agents@[c]).nest == Some(nn)
                                    && self.agents@[c].pos == orig_a[j2].pos) by {
                                    assert(agents_pre[c].nest == Some(nn));
                                    assert(upd[c] == agents_pre[c]);
                                    assert(self.agents@[c] == upd[c]);
                                }
                            }
                        }
                    }
                    if forall|j2: int|
                        0 <= j2 < i + 1 ==> !crosses_threshold(
                            #[trigger] orig_a[j2],
                            orig_f,
                            rsq as int,
                            th,
                        ) {
                        assert(!crosses_threshold(orig_a[i as int], orig_f, rsq as int, th));
                        assert(self.nests@ == nests0);
                        assert(bs.len() == 0);
                        assert(self.agents@ =~= upd);
                        assert(forall|j2: int|
                            0 <= j2 < i ==> !crosses_threshold(
                                #[trigger] orig_a[j2],
                                orig_f,
                                rsq as int,
                                th,
                            ));
                        assert(agents_pre.len() == n0 && nests0 == orig_n);
                        assert(self.agents@.len() == n0 && self.nests@ == orig_n);
                    }
                    assert forall|j2: int|
                        n0 <= j2 < self.agents@.len() implies offspring_ok(
                        #[trigger] self.agents@[j2],
                        old(self).config,
                        self.nests@.len() as int,
                    ) by {
                        let pre_len = upd.len() as int;
                        if j2 < pre_len {
                            assert(self.agents@[j2] == upd[j2]);
                            assert(upd[j2] == agents_pre[j2]);
                            assert(offspring_ok(
                                agents_pre[j2],
                                old(self).config,
                                nests0.len() as int,
                            ));
                            assert(nests0.len() <= self.nests@.len());
                        } else {
                            assert(self.agents@[j2] == bs[j2 - pre_len]);
                            assert(offspring_ok(
                                bs[j2 - pre_len],
                                old(self).config,
                                self.nests@.len() as int,
                            ));
                        }
                    }
                    assert(orig_n.is_prefix_of(self.nests@)) by {
                        assert(orig_n =~= self.nests@.subrange(0, orig_n.len() as int));
                    }
                }
                i = i + 1;
            }
        }
        proof {
            assert forall|i2: int|
                0 <= i2 < self.agents@.len() implies wf_agent_of(
                #[trigger] self.agents@[i2],
                self.config,
                self.nests@.len() as int,
            ) by {
                if i2 < n0 {
                    assert(eaten_agent_ok(orig_a[i2], self.agents@[i2], fedv@[i2] as int));
                    assert(wf_agent_of(old(self).agents@[i2], old(self).config, orig_n.len() as int));
                    assert(orig_n.len() <= self.nests@.len());
                } else {
                    assert(offspring_ok(self.agents@[i2], old(self).config, self.nests@.len() as int));
                }
            }
        }
        ExchangeReport { fed: fedv, nest_of: Ghost(nest_map), spawn_at: Ghost(spawn_map) }
    }
}


/// What one tick reports back: the simulated time that passed, how much
/// each agent that entered the tick was fed, and (as ghost state) the
/// agents as they stood after aging but before culling.
pub struct TickReport {
    /// Scaled simulated time of this tick.
    pub elapsed: i64,
    /// Total mass fed to each agent that entered the tick, by entry index.
    pub fed: Vec<i64>,
    /// The aged, pre-cull agent sequence the tick's accounting refers to.
    pub mid: Ghost<Seq<Ant>>,
    /// The agents as they stood after steering and integration, before the
    /// exchange: the positions and hunger the exchange saw.
    pub pre_exchange: Ghost<Seq<Ant>>,
    /// The agents right after the exchange, before emission and aging: the
    /// sequence whose timers and positions decide this tick's emissions.
    pub post_exchange: Ghost<Seq<Ant>>,
    /// The food store right after the exchange, before depleted deposits
    /// are removed.
    pub mid_foods: Ghost<Seq<Food>>,
    /// For each crossing agent's entry index, the nest it founded.
    pub nest_of: Ghost<Map<int, usize>>,
    /// For each crossing agent's entry index, where its offspring run
    /// starts in `mid`.
    pub spawn_at: Ghost<Map<int, int>>,
}

impl World {
    /// One simulation tick, in the fixed order: clock, spatial-index
    /// rebuild, foraging, integration, exchange, pheromone emission, aging,
    /// culling. For every agent that entered the tick, its aged hunger
    /// store holds exactly `clamp(previous - elapsed + fed, 0, max)`; the
    /// agents that remain are exactly the aged ones with mass left, and
    /// every remaining velocity respects its agent's speed.
    pub fn tick(&mut self, clock: SimulationClock, wall_delta: i64) -> (r: TickReport)
        requires
            old(self).wf(),
            crate::clock::wf_clock(clock),
            0 <= wall_delta,
            wall_delta * clock.multiplier <= TIME_LIMIT * SCALE,
        ensures
            final(self).wf(),
            final(self).config == old(self).config,
            r.elapsed == wall_delta * clock.multiplier / (SCALE as int),
            0 <= r.elapsed <= TIME_LIMIT,
            r.fed@.len() == old(self).agents@.len(),
            r.mid@.len() >= old(self).agents@.len(),
            forall|i: int|
                0 <= i < old(self).agents@.len() ==> {
                    let a0 = #[trigger] old(self).agents@[i];
                    let m = r.mid@[i];
                    &&& m.hunger.max == a0.hunger.max
                    &&& m.hunger.current == clamp_spec(
                        a0.hunger.current + r.fed@[i] - r.elapsed,
                        0,
                        a0.hunger.max as int,
                    )
                    &&& 0 <= r.fed@[i]
                    &&& a0.hunger.current + r.fed@[i] <= a0.hunger.max
                    &&& m.speed == a0.speed
                    &&& m.vision == a0.vision
                    &&& m.nest == a0.nest
                    &&& m.evolution >= a0.evolution
                },
            forall|i: int|
                old(self).agents@.len() <= i < r.mid@.len() ==> ((#[trigger] r.mid@[i]).speed
                    >= old(self).config.trait_floor && r.mid@[i].vision
                    >= old(self).config.trait_floor && r.mid@[i].evolution == 0),
            forall|i: int|
                0 <= i < r.mid@.len() ==> (wf_ant(#[trigger] r.mid@[i]) && norm_sq(r.mid@[i].vel)
                    <= r.mid@[i].speed * r.mid@[i].speed),
            final(self).agents@ == live_agents(r.mid@),
            forall|j: int|
                0 <= j < final(self).agents@.len() ==> (#[trigger] final(self).agents@[j]).hunger.current > 0,
            forall|j: int|
                0 <= j < final(self).foods@.len() ==> (#[trigger] final(self).foods@[j]).current
                    > 0,
            forall|j: int|
                0 <= j < final(self).pheromones@.len() ==> (#[trigger] final(self).pheromones@[j]).remaining > 0,
            old(self).nests@.is_prefix_of(final(self).nests@),
            r.pre_exchange@.len() == old(self).agents@.len(),
            forall|i: int|
                0 <= i < old(self).agents@.len() ==> #[trigger] r.pre_exchange@[i] == moved_agent(
                    Ant { vel: r.pre_exchange@[i].vel, ..old(self).agents@[i] },
                    r.elapsed as int,
                ),
            r.post_exchange@.len() == r.mid@.len(),
            forall|i: int|
                0 <= i < r.post_exchange@.len() ==> #[trigger] r.mid@[i] == decay_agent(
                    timer_agent(
                        r.post_exchange@[i],
                        r.elapsed as int,
                        old(self).config.pheromone_interval as int,
                    ),
                    r.elapsed as int,
                ),
            forall|i: int|
                0 <= i < old(self).agents@.len() ==> eaten_agent_ok(
                    #[trigger] r.pre_exchange@[i],
                    r.post_exchange@[i],
                    r.fed@[i] as int,
                ),
            r.mid_foods@.len() == old(self).foods@.len(),
            forall|j: int|
                0 <= j < old(self).foods@.len() ==> food_decreased(
                    #[trigger] old(self).foods@[j],
                    r.mid_foods@[j],
                ),
            total_mass(r.mid_foods@) == total_mass(old(self).foods@) - sum_fed(r.fed@),
            untouched_far_foods(
                old(self).foods@,
                r.mid_foods@,
                r.pre_exchange@,
                old(self).agents@.len() as int,
                old(self).config.interaction_radius * old(self).config.interaction_radius,
            ),
            final(self).foods@ == live_foods(r.mid_foods@),
            final(self).pheromones@ == live_pheromones(
                (old(self).pheromones@ + emitted_pheromones(
                    r.post_exchange@,
                    r.elapsed as int,
                    old(self).config.pheromone_interval as int,
                    old(self).config.pheromone_lifetime,
                )).map_values(|p: Pheromone| decay_pheromone(p, r.elapsed as int)),
            ),
            forall|i: int|
                0 <= i < old(self).agents@.len() ==> (crate::entities::is_hungry(
                    (#[trigger] r.pre_exchange@[i]).hunger,
                ) ==> r.post_exchange@[i].evolution as int == (if r.pre_exchange@[i].evolution
                    + count_in_range(
                    old(self).foods@,
                    r.pre_exchange@[i].pos,
                    old(self).config.interaction_radius * old(self).config.interaction_radius,
                ) <= u64::MAX {
                    r.pre_exchange@[i].evolution + count_in_range(
                        old(self).foods@,
                        r.pre_exchange@[i].pos,
                        old(self).config.interaction_radius * old(self).config.interaction_radius,
                    )
                } else {
                    u64::MAX as int
                })),
            forall|i: int|
                0 <= i < old(self).agents@.len() ==> (crosses_threshold(
                    #[trigger] r.pre_exchange@[i],
                    old(self).foods@,
                    old(self).config.interaction_radius * old(self).config.interaction_radius,
                    old(self).config.repro_threshold,
                ) ==> {
                    let nn = r.nest_of@[i];
                    let st = r.spawn_at@[i];
                    &&& old(self).nests@.len() <= nn < final(self).nests@.len()
                    &&& final(self).nests@[nn as int].pos == r.pre_exchange@[i].pos
                    &&& old(self).agents@.len() <= st
                    &&& st + old(self).config.offspring_count <= r.mid@.len()
                    &&& forall|c: int|
                        st <= c < st + old(self).config.offspring_count ==> ((
                        #[trigger] r.mid@[c]).nest == Some(nn) && r.mid@[c].pos
                            == r.pre_exchange@[i].pos)
                }),
            (forall|i: int|
                0 <= i < old(self).agents@.len() ==> !crosses_threshold(
                    #[trigger] r.pre_exchange@[i],
                    old(self).foods@,
                    old(self).config.interaction_radius * old(self).config.interaction_radius,
                    old(self).config.repro_threshold,
                )) ==> (r.mid@.len() == old(self).agents@.len() && final(self).nests@ == old(
                self,
            ).nests@),
    {
        let ghost s0 = self.agents@;
        let n0 = self.agents.len();
        let elapsed = clock.scaled_elapsed(wall_delta);
        let positions = self.food_positions();
        proof {
            assert forall|i: int| 0 <= i < positions@.len() implies #[trigger] in_world(
                positions@[i],
            ) by {
                assert(wf_food(self.foods@[i]));
                assert(positions@[i] == self.foods@[i].pos);
            }
        }
        let index = crate::grid::SpatialIndex::build(&positions, self.config.cell_size);
        self.ant_movement(elapsed, &index);
        let ghost s1 = self.agents@;
        self.velocity_system(elapsed);
        let ghost s2 = self.agents@;
        proof {
            assert(self.foods@.map_values(|f: Food| f.pos) =~= index.spec_positions());
        }
        let exchange = self.ant_eating(&index);
        let ghost nm = exchange.nest_of@;
        let ghost sm = exchange.spawn_at@;
        let fed = exchange.fed;
        let ghost s3 = self.agents@;
        let ghost mid_foods = self.foods@;
        self.ant_pheromone_timer_system(elapsed);
        let ghost s4 = self.agents@;
        self.hunger_system(elapsed);
        let ghost mid = self.agents@;
        proof {
            assert forall|i: int| 0 <= i < n0 implies {
                let a0 = #[trigger] s0[i];
                let m = mid[i];
                &&& m.hunger.max == a0.hunger.max
                &&& m.hunger.current == clamp_spec(
                    a0.hunger.current + fed@[i] - elapsed,
                    0,
                    a0.hunger.max as int,
                )
                &&& 0 <= fed@[i]
                &&& a0.hunger.current + fed@[i] <= a0.hunger.max
                &&& m.speed == a0.speed
                &&& m.vision == a0.vision
                &&& m.nest == a0.nest
                &&& m.evolution >= a0.evolution
            } by {
                assert(s1[i].hunger == s0[i].hunger && s1[i].speed == s0[i].speed && s1[i].vision
                    == s0[i].vision && s1[i].nest == s0[i].nest && s1[i].evolution
                    == s0[i].evolution);
                assert(s2[i] == moved_agent(s1[i], elapsed as int));
                assert(eaten_agent_ok(s2[i], s3[i], fed@[i] as int));
                assert(s4[i] == timer_agent(
                    s3[i],
                    elapsed as int,
                    self.config.pheromone_interval as int,
                ));
                assert(mid[i] == decay_agent(s4[i], elapsed as int));
            }
            assert forall|i: int| n0 <= i < mid.len() implies ((#[trigger] mid[i]).speed
                >= self.config.trait_floor && mid[i].vision >= self.config.trait_floor
                && mid[i].evolution == 0) by {
                assert(s3.len() == mid.len());
                assert(s4[i] == timer_agent(
                    s3[i],
                    elapsed as int,
                    self.config.pheromone_interval as int,
                ));
                assert(mid[i] == decay_agent(s4[i], elapsed as int));
            }
        }
        self.kill_system();
        self.despawn_food_system();
        self.lifetime_system(elapsed);
        proof {
            assert forall|i2: int| 0 <= i2 < n0 implies #[trigger] s2[i2] == moved_agent(
                Ant { vel: s2[i2].vel, ..s0[i2] },
                elapsed as int,
            ) by {
                assert(s1[i2].pos == s0[i2].pos && s1[i2].speed == s0[i2].speed && s1[i2].vision
                    == s0[i2].vision && s1[i2].hunger == s0[i2].hunger && s1[i2].evolution
                    == s0[i2].evolution && s1[i2].nest == s0[i2].nest && s1[i2].pheromone_timer
                    == s0[i2].pheromone_timer);
                assert(s2[i2] == moved_agent(s1[i2], elapsed as int));
                assert(s2[i2].vel == s1[i2].vel);
                assert(s1[i2] == (Ant { vel: s2[i2].vel, ..s0[i2] }));
            }
            assert forall|i2: int| 0 <= i2 < mid.len() implies #[trigger] mid[i2] == decay_agent(
                timer_agent(s3[i2], elapsed as int, old(self).config.pheromone_interval as int),
                elapsed as int,
            ) by {
                assert(s4[i2] == timer_agent(
                    s3[i2],
                    elapsed as int,
                    old(self).config.pheromone_interval as int,
                ));
                assert(mid[i2] == decay_agent(s4[i2], elapsed as int));
            }
            let rsq_g = old(self).config.interaction_radius * old(
                self,
            ).config.interaction_radius;
            let th_g = old(self).config.repro_threshold;
            let oc_g = old(self).config.offspring_count as int;
            assert forall|i2: int| 0 <= i2 < n0 implies (crosses_threshold(
                #[trigger] s2[i2],
                old(self).foods@,
                rsq_g,
                th_g,
            ) ==> {
                let nn = nm[i2];
                let st = sm[i2];
                &&& old(self).nests@.len() <= nn < self.nests@.len()
                &&& self.nests@[nn as int].pos == s2[i2].pos
                &&& n0 <= st
                &&& st + oc_g <= mid.len()
                &&& forall|c: int|
                    st <= c < st + oc_g ==> ((#[trigger] mid[c]).nest == Some(nn) && mid[c].pos
                        == s2[i2].pos)
            }) by {
                if crosses_threshold(s2[i2], old(self).foods@, rsq_g, th_g) {
                    let nn = nm[i2];
                    let st = sm[i2];
                    assert forall|c: int|
                        st <= c < st + oc_g implies ((#[trigger] mid[c]).nest == Some(nn)
                        && mid[c].pos == s2[i2].pos) by {
                        assert(s3[c].nest == Some(nn) && s3[c].pos == s2[i2].pos);
                        assert(s4[c] == timer_agent(
                            s3[c],
                            elapsed as int,
                            old(self).config.pheromone_interval as int,
                        ));
                        assert(mid[c] == decay_agent(s4[c], elapsed as int));
                    }
                }
            }
        }
        TickReport {
            elapsed,
            fed,
            mid: Ghost(mid),
            pre_exchange: Ghost(s2),
            post_exchange: Ghost(s3),
            mid_foods: Ghost(mid_foods),
            nest_of: Ghost(nm),
            spawn_at: Ghost(sm),
        }
    }
}


/// Both coordinates of every entity's position lie within `[mn, mx]`.
pub open spec fn bounds_cover(w: &World, mn: Vec2i, mx: Vec2i) -> bool {
    &&& forall|i: int|
        0 <= i < w.agents@.len() ==> (mn.x <= (#[trigger] w.agents@[i]).pos.x <= mx.x && mn.y
            <= w.agents@[i].pos.y <= mx.y)
    &&& forall|i: int|
        0 <= i < w.foods@.len() ==> (mn.x <= (#[trigger] w.foods@[i]).pos.x <= mx.x && mn.y
            <= w.foods@[i].pos.y <= mx.y)
    &&& forall|i: int|
        0 <= i < w.nests@.len() ==> (mn.x <= (#[trigger] w.nests@[i]).pos.x <= mx.x && mn.y
            <= w.nests@[i].pos.y <= mx.y)
    &&& forall|i: int|
        0 <= i < w.pheromones@.len() ==> (mn.x <= (#[trigger] w.pheromones@[i]).pos.x <= mx.x
            && mn.y <= w.pheromones@[i].pos.y <= mx.y)
}

/// Some entity's position has `v` as its first coordinate.
pub open spec fn attained_x(w: &World, v: int) -> bool {
    ||| exists|i: int| 0 <= i < w.agents@.len() && (#[trigger] w.agents@[i]).pos.x == v
    ||| exists|i: int| 0 <= i < w.foods@.len() && (#[trigger] w.foods@[i]).pos.x == v
    ||| exists|i: int| 0 <= i < w.nests@.len() && (#[trigger] w.nests@[i]).pos.x == v
    ||| exists|i: int| 0 <= i < w.pheromones@.len() && (#[trigger] w.pheromones@[i]).pos.x == v
}

/// Some entity's position has `v` as its second coordinate.
pub open spec fn attained_y(w: &World, v: int) -> bool {
    ||| exists|i: int| 0 <= i < w.agents@.len() && (#[trigger] w.agents@[i]).pos.y == v
    ||| exists|i: int| 0 <= i < w.foods@.len() && (#[trigger] w.foods@[i]).pos.y == v
    ||| exists|i: int| 0 <= i < w.nests@.len() && (#[trigger] w.nests@[i]).pos.y == v
    ||| exists|i: int| 0 <= i < w.pheromones@.len() && (#[trigger] w.pheromones@[i]).pos.y == v
}

impl World {
    /// The bounding box of every entity position, seeded with the origin:
    /// the box always contains the origin, covers every position, and each
    /// of its four edges is either the seed or attained by an entity.
    pub fn position_boundaries(&self) -> (r: (Vec2i, Vec2i))
        ensures
            r.0.x <= 0 && r.0.y <= 0 && r.1.x >= 0 && r.1.y >= 0,
            bounds_cover(self, r.0, r.1),
            r.0.x == 0 || attained_x(self, r.0.x as int),
            r.0.y == 0 || attained_y(self, r.0.y as int),
            r.1.x == 0 || attained_x(self, r.1.x as int),
            r.1.y == 0 || attained_y(self, r.1.y as int),
    {
        let mut mnx: i64 = 0;
        let mut mny: i64 = 0;
        let mut mxx: i64 = 0;
        let mut mxy: i64 = 0;
        let na = self.agents.len();
        let mut i: usize = 0;
        while i < na
            invariant
                na == self.agents@.len(),
                i <= na,
                mnx <= 0 && mny <= 0 && mxx >= 0 && mxy >= 0,
                forall|j: int|
                    0 <= j < i ==> (mnx <= (#[trigger] self.agents@[j]).pos.x <= mxx && mny
                        <= self.agents@[j].pos.y <= mxy),
                mnx == 0 || (exists|j: int|
                    0 <= j < i && (#[trigger] self.agents@[j]).pos.x == mnx),
                mny == 0 || (exists|j: int|
                    0 <= j < i && (#[trigger] self.agents@[j]).pos.y == mny),
                mxx == 0 || (exists|j: int|
                    0 <= j < i && (#[trigger] self.agents@[j]).pos.x == mxx),
                mxy == 0 || (exists|j: int|
                    0 <= j < i && (#[trigger] self.agents@[j]).pos.y == mxy),
            decreases na - i,
        {
            let p = self.agents[i].pos;
            if p.x < mnx {
                mnx = p.x;
            }
            if p.y < mny {
                mny = p.y;
            }
            if p.x > mxx {
                mxx = p.x;
            }
            if p.y > mxy {
                mxy = p.y;
            }
            i = i + 1;
        }
        let nf = self.foods.len();
        let mut i2: usize = 0;
        while i2 < nf
            invariant
                na == self.agents@.len(),
                nf == self.foods@.len(),
                i2 <= nf,
                mnx <= 0 && mny <= 0 && mxx >= 0 && mxy >= 0,
                forall|j: int|
                    0 <= j < na ==> (mnx <= (#[trigger] self.agents@[j]).pos.x <= mxx && mny
                        <= self.agents@[j].pos.y <= mxy),
                forall|j: int|
                    0 <= j < i2 ==> (mnx <= (#[trigger] self.foods@[j]).pos.x <= mxx && mny
                        <= self.foods@[j].pos.y <= mxy),
                mnx == 0 || (exists|j: int|
                    0 <= j < na && (#[trigger] self.agents@[j]).pos.x == mnx) || (exists|j: int|
                    0 <= j < i2 && (#[trigger] self.foods@[j]).pos.x == mnx),
                mny == 0 || (exists|j: int|
                    0 <= j < na && (#[trigger] self.agents@[j]).pos.y == mny) || (exists|j: int|
                    0 <= j < i2 && (#[trigger] self.foods@[j]).pos.y == mny),
                mxx == 0 || (exists|j: int|
                    0 <= j < na && (#[trigger] self.agents@[j]).pos.x == mxx) || (exists|j: int|
                    0 <= j < i2 && (#[trigger] self.foods@[j]).pos.x == mxx),
                mxy == 0 || (exists|j: int|
                    0 <= j < na && (#[trigger] self.agents@[j]).pos.y == mxy) || (exists|j: int|
                    0 <= j < i2 && (#[trigger] self.foods@[j]).pos.y == mxy),
            decreases nf - i2,
        {
            let p = self.foods[i2].pos;
            if p.x < mnx {
                mnx = p.x;
            }
            if p.y < mny {
                mny = p.y;
            }
            if p.x > mxx {
                mxx = p.x;
            }
            if p.y > mxy {
                mxy = p.y;
            }
            i2 = i2 + 1;
        }
        let nn = self.nests.len();
        let mut i3: usize = 0;
        while i3 < nn
            invariant
                na == self.agents@.len(),
                nf == self.foods@.len(),
                nn == self.nests@.len(),
                i3 <= nn,
                mnx <= 0 && mny <= 0 && mxx >= 0 && mxy >= 0,
                forall|j: int|
                    0 <= j < na ==> (mnx <= (#[trigger] self.agents@[j]).pos.x <= mxx && mny
                        <= self.agents@[j].pos.y <= mxy),
                forall|j: int|
                    0 <= j < nf ==> (mnx <= (#[trigger] self.foods@[j]).pos.x <= mxx && mny
                        <= self.foods@[j].pos.y <= mxy),
                forall|j: int|
                    0 <= j < i3 ==> (mnx <= (#[trigger] self.nests@[j]).pos.x <= mxx && mny
                        <= self.nests@[j].pos.y <= mxy),
                mnx == 0 || (exists|j: int|
                    0 <= j < na && (#[trigger] self.agents@[j]).pos.x == mnx) || (exists|j: int|
                    0 <= j < nf && (#[trigger] self.foods@[j]).pos.x == mnx) || (exists|j: int|
                    0 <= j < i3 && (#[trigger] self.nests@[j]).pos.x == mnx),
                mny == 0 || (exists|j: int|
                    0 <= j < na && (#[trigger] self.agents@[j]).pos.y == mny) || (exists|j: int|
                    0 <= j < nf && (#[trigger] self.foods@[j]).pos.y == mny) || (exists|j: int|
                    0 <= j < i3 && (#[trigger] self.nests@[j]).pos.y == mny),
                mxx == 0 || (exists|j: int|
                    0 <= j < na && (#[trigger] self.agents@[j]).pos.x == mxx) || (exists|j: int|
                    0 <= j < nf && (#[trigger] self.foods@[j]).pos.x == mxx) || (exists|j: int|
                    0 <= j < i3 && (#[trigger] self.nests@[j]).pos.x == mxx),
                mxy == 0 || (exists|j: int|
                    0 <= j < na && (#[trigger] self.agents@[j]).pos.y == mxy) || (exists|j: int|
                    0 <= j < nf && (#[trigger] self.foods@[j]).pos.y == mxy) || (exists|j: int|
                    0 <= j < i3 && (#[trigger] self.nests@[j]).pos.y == mxy),
            decreases nn - i3,
        {
            let p = self.nests[i3].pos;
            if p.x < mnx {
                mnx = p.x;
            }
            if p.y < mny {
                mny = p.y;
            }
            if p.x > mxx {
                mxx = p.x;
            }
            if p.y > mxy {
                mxy = p.y;
            }
            i3 = i3 + 1;
        }
        let np = self.pheromones.len();
        let mut i4: usize = 0;
        while i4 < np
            invariant
                na == self.agents@.len(),
                nf == self.foods@.len(),
                nn == self.nests@.len(),
                np == self.pheromones@.len(),
                i4 <= np,
                mnx <= 0 && mny <= 0 && mxx >= 0 && mxy >= 0,
                forall|j: int|
                    0 <= j < na ==> (mnx <= (#[trigger] self.agents@[j]).pos.x <= mxx && mny
                        <= self.agents@[j].pos.y <= mxy),
                forall|j: int|
                    0 <= j < nf ==> (mnx <= (#[trigger] self.foods@[j]).pos.x <= mxx && mny
                        <= self.foods@[j].pos.y <= mxy),
                forall|j: int|
                    0 <= j < nn ==> (mnx <= (#[trigger] self.nests@[j]).pos.x <= mxx && mny
                        <= self.nests@[j].pos.y <= mxy),
                forall|j: int|
                    0 <= j < i4 ==> (mnx <= (#[trigger] self.pheromones@[j]).pos.x <= mxx && mny
                        <= self.pheromones@[j].pos.y <= mxy),
                mnx == 0 || (exists|j: int|
                    0 <= j < na && (#[trigger] self.agents@[j]).pos.x == mnx) || (exists|j: int|
                    0 <= j < nf && (#[trigger] self.foods@[j]).pos.x == mnx) || (exists|j: int|
                    0 <= j < nn && (#[trigger] self.nests@[j]).pos.x == mnx) || (exists|j: int|
                    0 <= j < i4 && (#[trigger] self.pheromones@[j]).pos.x == mnx),
                mny == 0 || (exists|j: int|
                    0 <= j < na && (#[trigger] self.agents@[j]).pos.y == mny) || (exists|j: int|
                    0 <= j < nf && (#[trigger] self.foods@[j]).pos.y == mny) || (exists|j: int|
                    0 <= j < nn && (#[trigger] self.nests@[j]).pos.y == mny) || (exists|j: int|
                    0 <= j < i4 && (#[trigger] self.pheromones@[j]).pos.y == mny),
                mxx == 0 || (exists|j: int|
                    0 <= j < na && (#[trigger] self.agents@[j]).pos.x == mxx) || (exists|j: int|
                    0 <= j < nf && (#[trigger] self.foods@[j]).pos.x == mxx) || (exists|j: int|
                    0 <= j < nn && (#[trigger] self.nests@[j]).pos.x == mxx) || (exists|j: int|
                    0 <= j < i4 && (#[trigger] self.pheromones@[j]).pos.x == mxx),
                mxy == 0 || (exists|j: int|
                    0 <= j < na && (#[trigger] self.agents@[j]).pos.y == mxy) || (exists|j: int|
                    0 <= j < nf && (#[trigger] self.foods@[j]).pos.y == mxy) || (exists|j: int|
                    0 <= j < nn && (#[trigger] self.nests@[j]).pos.y == mxy) || (exists|j: int|
                    0 <= j < i4 && (#[trigger] self.pheromones@[j]).pos.y == mxy),
            decreases np - i4,
        {
            let p = self.pheromones[i4].pos;
            if p.x < mnx {
                mnx = p.x;
            }
            if p.y < mny {
                mny = p.y;
            }
            if p.x > mxx {
                mxx = p.x;
            }
            if p.y > mxy {
                mxy = p.y;
            }
            i4 = i4 + 1;
        }
        (Vec2i { x: mnx, y: mny }, Vec2i { x: mxx, y: mxy })
    }

    /// Seeds the world as a run starts: `n_ants` agents at the origin with
    /// the given traits, and `n_food` full deposits of capacity `food_max`
    /// at positions drawn uniformly within `spread` of the origin.
    pub fn spawn_entities(
        &mut self,
        n_ants: usize,
        n_food: usize,
        speed: i64,
        vision: i64,
        food_max: i64,
        spread: i64,
    )
        requires
            old(self).wf(),
            1 <= speed <= TRAIT_LIMIT,
            1 <= vision <= TRAIT_LIMIT,
            1 <= food_max <= STAT_LIMIT,
            1 <= spread <= COORD_LIMIT,
        ensures
            final(self).wf(),
            final(self).config == old(self).config,
            final(self).nests@ == old(self).nests@,
            final(self).pheromones@ == old(self).pheromones@,
            final(self).agents@.len() == old(self).agents@.len() + n_ants,
            final(self).foods@.len() == old(self).foods@.len() + n_food,
            forall|i: int|
                0 <= i < old(self).agents@.len() ==> final(self).agents@[i] == old(self).agents@[i],
            forall|i: int|
                0 <= i < old(self).foods@.len() ==> final(self).foods@[i] == old(self).foods@[i],
            forall|i: int|
                old(self).agents@.len() <= i < final(self).agents@.len() ==> {
                    let a = #[trigger] final(self).agents@[i];
                    &&& a.pos == (Vec2i { x: 0, y: 0 })
                    &&& a.vel == (Vec2i { x: 0, y: 0 })
                    &&& a.speed == speed
                    &&& a.vision == vision
                    &&& a.evolution == 0
                    &&& a.hunger.current == old(self).config.hunger_start
                    &&& a.hunger.max == old(self).config.hunger_start
                    &&& a.nest is None
                    &&& a.pheromone_timer == 0
                },
            forall|i: int|
                old(self).foods@.len() <= i < final(self).foods@.len() ==> {
                    let f = #[trigger] final(self).foods@[i];
                    &&& f.current == food_max
                    &&& f.max == food_max
                    &&& -spread <= f.pos.x < spread && -spread <= f.pos.y < spread
                },
    {
        let na0 = self.agents.len();
        let nf0 = self.foods.len();
        let mut c: usize = 0;
        while c < n_ants
            invariant
                old(self).wf(),
                1 <= speed <= TRAIT_LIMIT,
                1 <= vision <= TRAIT_LIMIT,
                c <= n_ants,
                na0 == old(self).agents@.len(),
                self.wf(),
                self.config == old(self).config,
                self.foods@ == old(self).foods@,
                self.nests@ == old(self).nests@,
                self.pheromones@ == old(self).pheromones@,
                self.agents@.len() == na0 + c,
                forall|i: int| 0 <= i < na0 ==> self.agents@[i] == old(self).agents@[i],
                forall|i: int|
                    na0 <= i < self.agents@.len() ==> {
                        let a = #[trigger] self.agents@[i];
                        &&& a.pos == (Vec2i { x: 0, y: 0 })
                        &&& a.vel == (Vec2i { x: 0, y: 0 })
                        &&& a.speed == speed
                        &&& a.vision == vision
                        &&& a.evolution == 0
                        &&& a.hunger.current == old(self).config.hunger_start
                        &&& a.hunger.max == old(self).config.hunger_start
                        &&& a.nest is None
                        &&& a.pheromone_timer == 0
                    },
            decreases n_ants - c,
        {
            self.spawn_ant(Vec2i { x: 0, y: 0 }, speed, vision, None);
            c = c + 1;
        }
        let mut c2: usize = 0;
        while c2 < n_food
            invariant
                old(self).wf(),
                1 <= food_max <= STAT_LIMIT,
                1 <= spread <= COORD_LIMIT,
                c2 <= n_food,
                na0 == old(self).agents@.len(),
                nf0 == old(self).foods@.len(),
                self.wf(),
                self.config == old(self).config,
                self.nests@ == old(self).nests@,
                self.pheromones@ == old(self).pheromones@,
                self.agents@.len() == na0 + n_ants,
                forall|i: int| 0 <= i < na0 ==> self.agents@[i] == old(self).agents@[i],
                forall|i: int|
                    na0 <= i < self.agents@.len() ==> {
                        let a = #[trigger] self.agents@[i];
                        &&& a.pos == (Vec2i { x: 0, y: 0 })
                        &&& a.vel == (Vec2i { x: 0, y: 0 })
                        &&& a.speed == speed
                        &&& a.vision == vision
                        &&& a.evolution == 0
                        &&& a.hunger.current == old(self).config.hunger_start
                        &&& a.hunger.max == old(self).config.hunger_start
                        &&& a.nest is None
                        &&& a.pheromone_timer == 0
                    },
                self.foods@.len() == nf0 + c2,
                forall|i: int| 0 <= i < nf0 ==> self.foods@[i] == old(self).foods@[i],
                forall|i: int|
                    nf0 <= i < self.foods@.len() ==> {
                        let f = #[trigger] self.foods@[i];
                        &&& f.current == food_max
                        &&& f.max == food_max
                        &&& -spread <= f.pos.x < spread && -spread <= f.pos.y < spread
                    },
            decreases n_food - c2,
        {
            let x = crate::rng::rng_range(&mut self.rng, -spread, spread);
            let y = crate::rng::rng_range(&mut self.rng, -spread, spread);
            self.spawn_food(Vec2i { x, y }, food_max);
            c2 = c2 + 1;
        }
    }
}

} // verus!
