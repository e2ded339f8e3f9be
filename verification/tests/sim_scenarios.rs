use antsim::config::SimConfig;
use antsim::entities::{Food, Hunger};
use antsim::grid::SpatialIndex;
use antsim::vec2::Vec2i;
use antsim::world::World;

fn world_with(config: SimConfig) -> World {
    World::new(config, 7)
}

/// A hungry agent next to a rich deposit fills up in one exchange pass:
/// hunger 16/20 becomes 20/20, the deposit loses exactly what was taken,
/// and the feeding counter advances by one.
#[test]
fn exchange_fills_agent_and_drains_food() {
    let mut config = SimConfig::standard();
    // Food sits 50 units away; eating must reach it.
    config.interaction_radius = 60_000;
    let mut w = world_with(config);
    w.spawn_ant(Vec2i { x: 0, y: 0 }, 200_000, 100_000, None);
    w.agents[0].hunger = Hunger { current: 16_000, max: 20_000 };
    w.spawn_food(Vec2i { x: 50_000, y: 0 }, 100_000);

    let index = SpatialIndex::build(&w.food_positions(), w.config.cell_size);
    let fed = w.ant_eating(&index).fed;

    assert_eq!(w.agents[0].hunger.current, 20_000);
    assert_eq!(w.agents[0].hunger.max, 20_000);
    assert_eq!(w.foods[0].current, 96_000);
    assert_eq!(w.agents[0].evolution, 1);
    assert_eq!(fed, vec![4_000]);
    // No reproduction below the threshold.
    assert_eq!(w.agents.len(), 1);
    assert_eq!(w.nests.len(), 0);
}

/// A small deposit is drained completely: the agent gains exactly the
/// deposit's mass and the empty deposit is removed.
#[test]
fn exchange_drains_small_food_then_removes_it() {
    let mut config = SimConfig::standard();
    config.interaction_radius = 60_000;
    let mut w = world_with(config);
    w.spawn_ant(Vec2i { x: 0, y: 0 }, 200_000, 100_000, None);
    w.agents[0].hunger = Hunger { current: 0, max: 20_000 };
    w.spawn_food(Vec2i { x: 10_000, y: 0 }, 100_000);
    w.foods[0].current = 5_000;

    let index = SpatialIndex::build(&w.food_positions(), w.config.cell_size);
    let fed = w.ant_eating(&index).fed;

    assert_eq!(fed, vec![5_000]);
    assert_eq!(w.agents[0].hunger.current, 5_000);
    assert_eq!(w.foods[0].current, 0);

    w.despawn_food_system();
    assert_eq!(w.foods.len(), 0);
}

/// An agent whose store cannot cover the elapsed time is culled.
#[test]
fn aging_culls_starved_agent() {
    let mut w = world_with(SimConfig::standard());
    w.spawn_ant(Vec2i { x: 0, y: 0 }, 200_000, 100_000, None);
    w.agents[0].hunger.current = 500;

    w.hunger_system(1_000);
    assert_eq!(w.agents[0].hunger.current, 0);

    w.kill_system();
    assert_eq!(w.agents.len(), 0);
}

/// An agent that reaches the reproduction threshold founds a nest at its
/// position and spawns the configured number of offspring referencing it,
/// each with traits at or above the floor.
#[test]
fn reproduction_founds_nest_and_spawns_offspring() {
    let mut config = SimConfig::standard();
    config.interaction_radius = 60_000;
    config.offspring_count = 3;
    let mut w = world_with(config);
    w.spawn_ant(Vec2i { x: 1_000, y: 2_000 }, 200_000, 100_000, None);
    w.agents[0].hunger = Hunger { current: 1_000, max: 20_000 };
    w.agents[0].evolution = 1;
    w.spawn_food(Vec2i { x: 1_000, y: 2_000 }, 100_000);

    let index = SpatialIndex::build(&w.food_positions(), w.config.cell_size);
    let _ = w.ant_eating(&index);

    assert_eq!(w.agents[0].evolution, 2);
    assert_eq!(w.nests.len(), 1);
    assert_eq!(w.nests[0].pos, Vec2i { x: 1_000, y: 2_000 });
    assert_eq!(w.agents.len(), 4);
    for k in 1..4 {
        let b = &w.agents[k];
        assert_eq!(b.pos, Vec2i { x: 1_000, y: 2_000 });
        assert_eq!(b.nest, Some(0));
        assert!(b.speed >= w.config.trait_floor);
        assert!(b.vision >= w.config.trait_floor);
        assert_eq!(b.evolution, 0);
        assert_eq!(b.hunger.current, w.config.hunger_start);
        assert_eq!(b.hunger.max, w.config.hunger_start);
    }
}

/// A well-fed agent neither eats nor changes at all during exchange.
#[test]
fn sated_agent_is_untouched_by_exchange() {
    let mut config = SimConfig::standard();
    config.interaction_radius = 60_000;
    let mut w = world_with(config);
    w.spawn_ant(Vec2i { x: 0, y: 0 }, 200_000, 100_000, None);
    w.spawn_food(Vec2i { x: 1_000, y: 0 }, 100_000);
    let before = w.agents[0];

    let index = SpatialIndex::build(&w.food_positions(), w.config.cell_size);
    let fed = w.ant_eating(&index).fed;

    assert_eq!(fed, vec![0]);
    assert_eq!(w.agents[0], before);
    assert_eq!(w.foods[0].current, 100_000);
}

/// A hungry agent that sees food heads straight for it at full speed; the
/// deterministic override replaces whatever the wander drew.
#[test]
fn hungry_agent_aims_at_visible_food() {
    let mut w = world_with(SimConfig::standard());
    w.spawn_ant(Vec2i { x: 0, y: 0 }, 200_000, 100_000, None);
    w.agents[0].hunger = Hunger { current: 16_000, max: 20_000 };
    w.spawn_food(Vec2i { x: 50_000, y: 0 }, 100_000);

    let index = SpatialIndex::build(&w.food_positions(), w.config.cell_size);
    w.ant_movement(16, &index);

    assert_eq!(w.agents[0].vel, Vec2i { x: 200_000, y: 0 });
}

/// Every velocity respects the speed cap after movement, whatever the
/// wander drew.
#[test]
fn movement_never_exceeds_speed_cap() {
    let mut w = world_with(SimConfig::standard());
    for _ in 0..20 {
        w.spawn_ant(Vec2i { x: 0, y: 0 }, 50_000, 100_000, None);
    }
    let index = SpatialIndex::build(&w.food_positions(), w.config.cell_size);
    for _ in 0..10 {
        w.ant_movement(1_000_000, &index);
        for a in &w.agents {
            let n = (a.vel.x as i128) * (a.vel.x as i128) + (a.vel.y as i128) * (a.vel.y as i128);
            assert!(n <= (a.speed as i128) * (a.speed as i128));
        }
    }
}

/// An emission timer that reaches the interval resets and drops one
/// nest-kind pheromone at the agent's position; the marker later decays
/// away.
#[test]
fn pheromone_emission_and_decay() {
    let mut w = world_with(SimConfig::standard());
    w.spawn_ant(Vec2i { x: 3_000, y: 4_000 }, 200_000, 100_000, None);

    w.ant_pheromone_timer_system(1_500);
    assert_eq!(w.pheromones.len(), 0);
    assert_eq!(w.agents[0].pheromone_timer, 1_500);

    w.ant_pheromone_timer_system(500);
    assert_eq!(w.pheromones.len(), 1);
    assert_eq!(w.agents[0].pheromone_timer, 0);
    assert_eq!(w.pheromones[0].pos, Vec2i { x: 3_000, y: 4_000 });
    assert_eq!(w.pheromones[0].remaining, w.config.pheromone_lifetime);

    w.lifetime_system(w.config.pheromone_lifetime);
    assert_eq!(w.pheromones.len(), 0);
}

/// One full tick keeps the books: the fed report covers every entering
/// agent, survivors have mass in their stores and respect their speed cap,
/// and no depleted deposit or expired marker remains.
#[test]
fn full_tick_keeps_world_sound() {
    let mut w = world_with(SimConfig::standard());
    w.spawn_entities(8, 15, 200_000, 100_000, 100_000, 500_000);
    let clock = antsim::clock::SimulationClock::new();
    for _ in 0..25 {
        let entering = w.agents.len();
        let report = w.tick(clock, 200);
        assert_eq!(report.elapsed, 200);
        assert_eq!(report.fed.len(), entering);
        for a in &w.agents {
            assert!(a.hunger.current > 0);
            assert!(a.hunger.current <= a.hunger.max);
            let n = (a.vel.x as i128) * (a.vel.x as i128) + (a.vel.y as i128) * (a.vel.y as i128);
            assert!(n <= (a.speed as i128) * (a.speed as i128));
        }
        for f in &w.foods {
            assert!(f.current > 0);
        }
        for p in &w.pheromones {
            assert!(p.remaining > 0);
        }
    }
}

/// The same seed gives the same run.
#[test]
fn seeded_runs_are_reproducible() {
    let mut w1 = World::new(SimConfig::standard(), 99);
    let mut w2 = World::new(SimConfig::standard(), 99);
    w1.spawn_entities(5, 20, 200_000, 100_000, 100_000, 300_000);
    w2.spawn_entities(5, 20, 200_000, 100_000, 100_000, 300_000);
    for (f1, f2) in w1.foods.iter().zip(w2.foods.iter()) {
        assert_eq!(f1.pos, f2.pos);
        assert!(f1.pos.x >= -300_000 && f1.pos.x < 300_000);
        assert!(f1.pos.y >= -300_000 && f1.pos.y < 300_000);
    }
    let clock = antsim::clock::SimulationClock::new();
    for _ in 0..5 {
        w1.tick(clock, 100);
        w2.tick(clock, 100);
    }
    assert_eq!(w1.agents.len(), w2.agents.len());
    for (a1, a2) in w1.agents.iter().zip(w2.agents.iter()) {
        assert_eq!(a1.pos, a2.pos);
        assert_eq!(a1.vel, a2.vel);
        assert_eq!(a1.hunger, a2.hunger);
    }
}

/// The elapsed-time report of a tick follows the clock formula and the
/// hunger accounting: full agents far from food just decay.
#[test]
fn tick_accounts_hunger_exactly() {
    let mut w = world_with(SimConfig::standard());
    w.spawn_ant(Vec2i { x: 0, y: 0 }, 200_000, 100_000, None);
    let before = w.agents[0].hunger.current;
    let mut clock = antsim::clock::SimulationClock::new();
    clock.multiplier = 2_000;
    let report = w.tick(clock, 300);
    assert_eq!(report.elapsed, 600);
    assert_eq!(report.fed, vec![0]);
    assert_eq!(w.agents[0].hunger.current, before - 600);
}

/// The bounding box is seeded with the origin and tight around the
/// entities.
#[test]
fn boundaries_cover_all_positions() {
    let mut w = world_with(SimConfig::standard());
    let (mn, mx) = w.position_boundaries();
    assert_eq!(mn, Vec2i { x: 0, y: 0 });
    assert_eq!(mx, Vec2i { x: 0, y: 0 });

    w.spawn_food(Vec2i { x: -5_000, y: 7_000 }, 100_000);
    w.spawn_ant(Vec2i { x: 2_000, y: -1_000 }, 200_000, 100_000, None);
    let (mn, mx) = w.position_boundaries();
    assert_eq!(mn, Vec2i { x: -5_000, y: -1_000 });
    assert_eq!(mx, Vec2i { x: 2_000, y: 7_000 });
}

/// The grid returns every deposit within the radius, without duplicates,
/// and only valid indices.
#[test]
fn grid_query_finds_neighbours() {
    let positions = vec![
        Vec2i { x: 0, y: 0 },
        Vec2i { x: 100, y: 0 },
        Vec2i { x: 5_000, y: 5_000 },
        Vec2i { x: -120, y: 30 },
    ];
    let index = SpatialIndex::build(&positions, 50);
    let hits = index.query_radius(Vec2i { x: 0, y: 0 }, 150);
    assert!(hits.contains(&0));
    assert!(hits.contains(&1));
    assert!(hits.contains(&3));
    for (a, h) in hits.iter().enumerate() {
        assert!(*h < positions.len());
        for h2 in hits.iter().skip(a + 1) {
            assert_ne!(h, h2);
        }
    }
}

/// Food is only ever found through the index where it really is: a far
/// deposit is not eaten.
#[test]
fn far_food_is_not_eaten() {
    let mut w = world_with(SimConfig::standard());
    w.spawn_ant(Vec2i { x: 0, y: 0 }, 200_000, 100_000, None);
    w.agents[0].hunger = Hunger { current: 1_000, max: 20_000 };
    w.spawn_food(Vec2i { x: 900_000, y: 0 }, 100_000);

    let index = SpatialIndex::build(&w.food_positions(), w.config.cell_size);
    let fed = w.ant_eating(&index).fed;
    assert_eq!(fed, vec![0]);
    assert_eq!(w.foods[0].current, 100_000);
    assert_eq!(w.agents[0].hunger.current, 1_000);
}

/// Plain construction helpers build what they say.
#[test]
fn constructors_fill_entities() {
    let h = Hunger::new(20_000);
    assert_eq!(h.current, 20_000);
    assert_eq!(h.needed(), 0);
    assert_eq!(h.percentage(), 1000);
    assert!(!h.hungry());

    let h2 = Hunger { current: 16_000, max: 20_000 };
    assert_eq!(h2.percentage(), 800);
    assert_eq!(h2.needed(), 4_000);
    assert!(h2.hungry());

    let f = Food::new(Vec2i { x: 1, y: 2 }, 100_000);
    assert_eq!(f.current, 100_000);
    assert_eq!(f.percentage(), 1000);
    assert_eq!(f.needed(), 0);
}

/// The remaining-lifetime fraction of a marker is read in per-mille.
#[test]
fn pheromone_fraction_follows_decay() {
    let mut w = World::new(SimConfig::standard(), 1);
    w.spawn_ant(Vec2i { x: 0, y: 0 }, 200_000, 100_000, None);
    w.ant_pheromone_timer_system(2_000);
    assert_eq!(w.pheromones.len(), 1);
    assert_eq!(w.pheromone_fraction(0), 1000);
    w.lifetime_system(5_000);
    assert_eq!(w.pheromone_fraction(0), 750);
}

/// A tick over an empty world does nothing and reports nothing fed.
#[test]
fn tick_on_empty_world() {
    let mut w = World::new(SimConfig::standard(), 0);
    let clock = antsim::clock::SimulationClock::new();
    let report = w.tick(clock, 16);
    assert_eq!(report.fed.len(), 0);
    assert_eq!(w.agents.len(), 0);
    assert_eq!(w.foods.len(), 0);
}

/// Position integration is exact and saturates at the world bound.
#[test]
fn integration_is_exact_and_saturates() {
    let mut w = World::new(SimConfig::standard(), 0);
    w.spawn_ant(Vec2i { x: 10_000, y: 0 }, 200_000, 100_000, None);
    w.agents[0].vel = Vec2i { x: 1_000, y: -2_000 };
    w.velocity_system(500);
    assert_eq!(w.agents[0].pos, Vec2i { x: 10_500, y: -1_000 });

    let mut w2 = World::new(SimConfig::standard(), 0);
    w2.spawn_ant(Vec2i { x: antsim::COORD_LIMIT, y: 0 }, 200_000, 100_000, None);
    w2.agents[0].vel = Vec2i { x: 200_000, y: 0 };
    w2.velocity_system(1_000_000);
    assert_eq!(w2.agents[0].pos.x, antsim::COORD_LIMIT);
}

/// Two deposits in the same grid cell are both found; each only once.
#[test]
fn grid_handles_shared_cells() {
    let positions = vec![
        Vec2i { x: 10, y: 10 },
        Vec2i { x: 10, y: 10 },
        Vec2i { x: 12, y: 11 },
    ];
    let index = SpatialIndex::build(&positions, 1_000);
    let hits = index.query_radius(Vec2i { x: 0, y: 0 }, 100);
    assert!(hits.contains(&0));
    assert!(hits.contains(&1));
    assert!(hits.contains(&2));
    assert_eq!(hits.len(), 3);
}

/// An agent exactly at the hungry boundary (four fifths full) still eats.
#[test]
fn boundary_hunger_counts_as_hungry() {
    let mut config = SimConfig::standard();
    config.interaction_radius = 60_000;
    let mut w = world_with(config);
    w.spawn_ant(Vec2i { x: 0, y: 0 }, 200_000, 100_000, None);
    w.agents[0].hunger = Hunger { current: 16_000, max: 20_000 };
    assert!(w.agents[0].hunger.hungry());
    w.agents[0].hunger.current = 16_001;
    assert!(!w.agents[0].hunger.hungry());
}

/// The exchange books balance: the mass all agents gained is exactly the
/// mass the deposits lost, and deposits out of everyone's reach are
/// untouched.
#[test]
fn exchange_conserves_mass() {
    let mut config = SimConfig::standard();
    config.interaction_radius = 60_000;
    let mut w = world_with(config);
    w.spawn_ant(Vec2i { x: 0, y: 0 }, 200_000, 100_000, None);
    w.spawn_ant(Vec2i { x: 30_000, y: 0 }, 200_000, 100_000, None);
    w.agents[0].hunger = Hunger { current: 1_000, max: 20_000 };
    w.agents[1].hunger = Hunger { current: 2_000, max: 20_000 };
    w.spawn_food(Vec2i { x: 10_000, y: 0 }, 100_000);
    w.foods[0].current = 8_000;
    w.spawn_food(Vec2i { x: 50_000, y: 0 }, 100_000);
    w.spawn_food(Vec2i { x: 800_000, y: 0 }, 100_000);
    let far_before = w.foods[2];
    let total_before: i64 = w.foods.iter().map(|f| f.current).sum();

    let index = SpatialIndex::build(&w.food_positions(), w.config.cell_size);
    let fed = w.ant_eating(&index).fed;

    let total_after: i64 = w.foods.iter().map(|f| f.current).sum();
    let fed_sum: i64 = fed.iter().sum();
    assert_eq!(total_before - total_after, fed_sum);
    assert_eq!(w.foods[2], far_before);
    for (k, a) in w.agents.iter().take(2).enumerate() {
        assert!(a.hunger.current <= a.hunger.max);
        assert!(fed[k] >= 0);
    }
}
