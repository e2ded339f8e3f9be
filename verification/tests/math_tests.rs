use antsim::entities::{feed, mutate_trait, Food, Hunger};
use antsim::math::{floor_div, isqrt, isqrt_up, mul_div_trunc};
use antsim::vec2::{aim, clamp_to_cap, dist_sq, Vec2i};
use antsim::clock::SimulationClock;
use antsim::{clamp_i64, SCALE, TRAIT_LIMIT};

#[test]
fn isqrt_exact_values() {
    assert_eq!(isqrt(0), 0);
    assert_eq!(isqrt(1), 1);
    assert_eq!(isqrt(15), 3);
    assert_eq!(isqrt(16), 4);
    assert_eq!(isqrt(1_000_000_000_000_000_000), 1_000_000_000);
    assert_eq!(isqrt_up(0), 0);
    assert_eq!(isqrt_up(15), 4);
    assert_eq!(isqrt_up(16), 4);
    assert_eq!(isqrt_up(17), 5);
}

#[test]
fn floor_div_rounds_down() {
    assert_eq!(floor_div(5, 2), 2);
    assert_eq!(floor_div(-5, 2), -3);
    assert_eq!(floor_div(-4, 2), -2);
    assert_eq!(floor_div(0, 7), 0);
    assert_eq!(floor_div(-1, 1_000), -1);
}

#[test]
fn mul_div_truncates_toward_zero() {
    assert_eq!(mul_div_trunc(7, 3, 2), 10);
    assert_eq!(mul_div_trunc(-7, 3, 2), -10);
    assert_eq!(mul_div_trunc(0, 5, 9), 0);
    assert_eq!(mul_div_trunc(-1, 1, 1_000), 0);
}

#[test]
fn clamp_values() {
    assert_eq!(clamp_i64(5, 0, 10), 5);
    assert_eq!(clamp_i64(-5, 0, 10), 0);
    assert_eq!(clamp_i64(15, 0, 10), 10);
}

#[test]
fn velocity_cap_leaves_short_vectors_alone() {
    let v = Vec2i { x: 3, y: 4 };
    assert_eq!(clamp_to_cap(v, 5), v);
    assert_eq!(clamp_to_cap(v, 6), v);
}

#[test]
fn velocity_cap_rescales_long_vectors() {
    let v = Vec2i { x: 30, y: 40 };
    assert_eq!(clamp_to_cap(v, 5), Vec2i { x: 3, y: 4 });
    let w = clamp_to_cap(Vec2i { x: 1_000_000, y: 1_000_000 }, TRAIT_LIMIT);
    assert!(w.x * w.x + w.y * w.y <= TRAIT_LIMIT * TRAIT_LIMIT);
    assert!(w.x > 0 && w.y > 0);
}

#[test]
fn aim_points_along_displacement() {
    assert_eq!(aim(Vec2i { x: 30, y: 40 }, 5), Vec2i { x: 3, y: 4 });
    assert_eq!(aim(Vec2i { x: -30, y: 40 }, 5), Vec2i { x: -3, y: 4 });
    assert_eq!(aim(Vec2i { x: 0, y: 0 }, 5), Vec2i { x: 0, y: 0 });
    assert_eq!(aim(Vec2i { x: 50_000, y: 0 }, 200_000), Vec2i { x: 200_000, y: 0 });
}

#[test]
fn distances_are_exact() {
    let a = Vec2i { x: 3, y: 0 };
    let b = Vec2i { x: 0, y: 4 };
    assert_eq!(dist_sq(a, b), 25);
    assert_eq!(dist_sq(a, a), 0);
}

#[test]
fn transfer_is_exactly_the_minimum() {
    let mut h = Hunger { current: 10, max: 20 };
    let mut f = Food { pos: Vec2i { x: 0, y: 0 }, current: 100, max: 100 };
    let taken = feed(&mut h, &mut f);
    assert_eq!(taken, 10);
    assert_eq!(h.current, 20);
    assert_eq!(f.current, 90);

    let mut h2 = Hunger { current: 0, max: 20 };
    let mut f2 = Food { pos: Vec2i { x: 0, y: 0 }, current: 5, max: 100 };
    let taken2 = feed(&mut h2, &mut f2);
    assert_eq!(taken2, 5);
    assert_eq!(h2.current, 5);
    assert_eq!(f2.current, 0);
}

#[test]
fn mutation_respects_floor_and_cap() {
    assert_eq!(mutate_trait(200_000, -195_000, 10_000), 10_000);
    assert_eq!(mutate_trait(200_000, 50_000, 10_000), 250_000);
    assert_eq!(mutate_trait(1_000_000, 500_000, 10_000), TRAIT_LIMIT);
    assert_eq!(mutate_trait(200_000, -190_001, 10_000), 10_000);
    assert_eq!(mutate_trait(200_000, -189_999, 10_000), 10_001);
}

#[test]
fn clock_scales_elapsed_time() {
    let clock = SimulationClock::new();
    assert_eq!(clock.multiplier, SCALE);
    assert_eq!(clock.scaled_elapsed(16), 16);

    let fast = SimulationClock { multiplier: 2_000 };
    assert_eq!(fast.scaled_elapsed(500), 1_000);

    let frozen = SimulationClock { multiplier: 0 };
    assert_eq!(frozen.scaled_elapsed(123), 0);

    let half = SimulationClock { multiplier: 500 };
    assert_eq!(half.scaled_elapsed(3), 1);
}

#[test]
fn multiplier_adjustment_follows_input() {
    let mut c = SimulationClock::new();
    c.speed_up(500);
    assert_eq!(c.multiplier, 2_000);
    c.slow_down(500);
    assert_eq!(c.multiplier, 1_000);

    let mut fast = SimulationClock { multiplier: 999_999 };
    fast.speed_up(1_000_000);
    assert_eq!(fast.multiplier, 1_000_000);
}
