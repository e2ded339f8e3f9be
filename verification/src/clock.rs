//! The simulation clock: one scaled elapsed-time scalar per tick, the only
//! time source any component reads.

use vstd::prelude::*;

verus! {

use crate::{SCALE, TIME_LIMIT};

/// Produces the simulated time of a tick from the wall-clock delta and a
/// user-adjustable multiplier. The multiplier itself is adjusted by outside
/// input and consumed here as a plain value.
#[derive(Clone, Copy, Debug)]
pub struct SimulationClock {
    /// Time multiplier in fixed point: `SCALE` means real time.
    pub multiplier: i64,
}

/// The multiplier stays nonnegative and at most a thousandfold speed-up.
pub open spec fn wf_clock(c: SimulationClock) -> bool {
    0 <= c.multiplier <= 1000 * SCALE
}

impl SimulationClock {
    /// A clock running at real time.
    pub fn new() -> (c: SimulationClock)
        ensures
            c.multiplier == SCALE,
            wf_clock(c),
    {
        SimulationClock { multiplier: SCALE }
    }

    /// Scaled simulated time of one tick: the wall-clock delta times the
    /// multiplier. The product is bounded so the tick stays under
    /// [`TIME_LIMIT`].
    pub fn scaled_elapsed(&self, wall_delta: i64) -> (elapsed: i64)
        requires
            wf_clock(*self),
            0 <= wall_delta,
            wall_delta * self.multiplier <= TIME_LIMIT * SCALE,
        ensures
            elapsed == wall_delta * self.multiplier / (SCALE as int),
            0 <= elapsed <= TIME_LIMIT,
    {
        proof {
            assert(0 <= wall_delta * self.multiplier) by (nonlinear_arith)
                requires
                    0 <= wall_delta as int,
                    0 <= self.multiplier as int,
            ;
            vstd::arithmetic::div_mod::lemma_div_pos_is_pos(
                wall_delta * self.multiplier,
                SCALE as int,
            );
            vstd::arithmetic::div_mod::lemma_div_is_ordered(
                wall_delta * self.multiplier,
                TIME_LIMIT * SCALE,
                SCALE as int,
            );
            vstd::arithmetic::div_mod::lemma_div_multiples_vanish(TIME_LIMIT as int, SCALE as int);
        }
        let p: u64 = (wall_delta as u64) * (self.multiplier as u64);
        (p / (SCALE as u64)) as i64
    }

    /// Speeds the simulation up, as outside input asks: the multiplier
    /// grows by the factor `1 + 2 * wall_delta`, capped at the largest
    /// multiplier the clock admits.
    pub fn speed_up(&mut self, wall_delta: i64)
        requires
            wf_clock(*old(self)),
            0 <= wall_delta <= TIME_LIMIT,
        ensures
            wf_clock(*final(self)),
            final(self).multiplier == crate::clamp_spec(
                old(self).multiplier * (SCALE + 2 * wall_delta) / (SCALE as int),
                0,
                1000 * SCALE as int,
            ),
    {
        let factor: i64 = SCALE + 2 * wall_delta;
        proof {
            crate::vec2::lemma_mul_bound(
                self.multiplier as int,
                1000 * SCALE as int,
                factor as int,
                SCALE + 2 * TIME_LIMIT as int,
            );
            vstd::arithmetic::div_mod::lemma_div_pos_is_pos(
                self.multiplier * factor,
                SCALE as int,
            );
            vstd::arithmetic::div_mod::lemma_div_nonincreasing(
                self.multiplier * factor,
                SCALE as int,
            );
        }
        let p: u64 = (self.multiplier as u64) * (factor as u64);
        let q: i64 = (p / (SCALE as u64)) as i64;
        self.multiplier = crate::clamp_i64(q, 0, 1000 * SCALE);
    }

    /// Slows the simulation down, as outside input asks: the multiplier
    /// shrinks by the factor `1 + 2 * wall_delta`, but a running clock
    /// never freezes: a positive multiplier is floored at the smallest
    /// positive value rather than truncated to zero.
    pub fn slow_down(&mut self, wall_delta: i64)
        requires
            wf_clock(*old(self)),
            0 <= wall_delta <= TIME_LIMIT,
        ensures
            wf_clock(*final(self)),
            old(self).multiplier == 0 ==> final(self).multiplier == 0,
            old(self).multiplier > 0 ==> final(self).multiplier == (if old(self).multiplier * (
            SCALE as int) / (SCALE + 2 * wall_delta) >= 1 {
                old(self).multiplier * (SCALE as int) / (SCALE + 2 * wall_delta)
            } else {
                1int
            }),
            old(self).multiplier > 0 ==> final(self).multiplier > 0,
    {
        let factor: i64 = SCALE + 2 * wall_delta;
        proof {
            vstd::arithmetic::div_mod::lemma_div_pos_is_pos(
                self.multiplier * (SCALE as int),
                factor as int,
            );
            vstd::arithmetic::div_mod::lemma_div_is_ordered_by_denominator(
                self.multiplier * (SCALE as int),
                SCALE as int,
                factor as int,
            );
            vstd::arithmetic::div_mod::lemma_div_multiples_vanish(
                self.multiplier as int,
                SCALE as int,
            );
        }
        let p: u64 = (self.multiplier as u64) * (SCALE as u64);
        let q: i64 = (p / (factor as u64)) as i64;
        self.multiplier = if q == 0 && self.multiplier > 0 {
            1
        } else {
            q
        };
    }
}

} // verus!
