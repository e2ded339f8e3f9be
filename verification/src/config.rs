//! Tunable parameters of a simulation run. Every component reads them from
//! one immutable value passed along the tick instead of ambient globals.

use vstd::prelude::*;

verus! {

use crate::{COORD_LIMIT, STAT_LIMIT, TRAIT_LIMIT};

/// Parameters of a simulation run, all in milli-units.
#[derive(Clone, Copy, Debug)]
pub struct SimConfig {
    /// Edge length of a spatial-grid cell; best chosen near the largest
    /// vision radius in use.
    pub cell_size: i64,
    /// Distance within which an agent can eat from a deposit; much tighter
    /// than the sensing radius.
    pub interaction_radius: i64,
    /// Hunger capacity given to every newly spawned agent.
    pub hunger_start: i64,
    /// Feeding count at which an agent founds a nest and reproduces.
    pub repro_threshold: u64,
    /// Number of offspring spawned at reproduction.
    pub offspring_count: usize,
    /// Half-width of the symmetric random offset applied to inherited
    /// traits.
    pub mutation_range: i64,
    /// Smallest value a mutated trait may take.
    pub trait_floor: i64,
    /// Half-width of the random velocity perturbation, per second.
    pub wander_accel: i64,
    /// Simulated seconds between two pheromone emissions of one agent.
    pub pheromone_interval: i64,
    /// Initial lifetime of an emitted pheromone.
    pub pheromone_lifetime: i64,
}

/// Bounds that keep every computation of the tick inside machine limits.
pub open spec fn wf_config(c: SimConfig) -> bool {
    &&& 1 <= c.cell_size <= COORD_LIMIT
    &&& 1 <= c.interaction_radius <= TRAIT_LIMIT
    &&& 1 <= c.hunger_start <= STAT_LIMIT
    &&& 1 <= c.repro_threshold
    &&& c.offspring_count <= 1000
    &&& 0 <= c.mutation_range <= TRAIT_LIMIT
    &&& 1 <= c.trait_floor <= TRAIT_LIMIT
    &&& 1 <= c.wander_accel <= TRAIT_LIMIT
    &&& 1 <= c.pheromone_interval <= STAT_LIMIT
    &&& 1 <= c.pheromone_lifetime <= STAT_LIMIT
}

impl SimConfig {
    /// The parameters the simulation is usually run with: cells the size of
    /// the default vision radius, eating within 20 units, hunger capacity
    /// 20, reproduction at the second feeding with 20 offspring, traits
    /// mutated by up to 100 units but never under 10, wandering at up to
    /// 1000 units per second, a pheromone every 2 seconds living 20.
    pub fn standard() -> (c: SimConfig)
        ensures
            c == (SimConfig {
                cell_size: 100_000,
                interaction_radius: 20_000,
                hunger_start: 20_000,
                repro_threshold: 2,
                offspring_count: 20,
                mutation_range: 100_000,
                trait_floor: 10_000,
                wander_accel: 1_000_000,
                pheromone_interval: 2_000,
                pheromone_lifetime: 20_000,
            }),
            wf_config(c),
    {
        SimConfig {
            cell_size: 100_000,
            interaction_radius: 20_000,
            hunger_start: 20_000,
            repro_threshold: 2,
            offspring_count: 20,
            mutation_range: 100_000,
            trait_floor: 10_000,
            wander_accel: 1_000_000,
            pheromone_interval: 2_000,
            pheromone_lifetime: 20_000,
        }
    }
}

} // verus!
