use vstd::prelude::*;
use vstd::arithmetic::div_mod::{lemma_add_mod_noop, lemma_small_mod};
use crate::geometry::{Point3, MILLI};
use crate::placement::{
    SplitMix64, GroundPoint, PlacementRules, sample_position, nth_candidate, candidate_state,
};
use crate::pursuit::{Pursuer, DEFAULT_SPEED};
use crate::combat::all_pursuers_wf;

verus! {

/// Time between two spawns: ten seconds.
pub const SPAWN_PERIOD_MS: i64 = 10_000;

/// Most pursuers alive at once.
pub const PURSUER_CAP: usize = 10;

/// New pursuers appear between 30 and 80 units from the origin.
pub const SPAWN_RADIUS_MIN: i64 = 30 * MILLI;

pub const SPAWN_RADIUS_MAX: i64 = 80 * MILLI;

/// A repeating countdown: it fires each time the time elapsed reaches its
/// period, and carries the overshoot into the next period.
#[derive(Clone, Copy, Debug, PartialEq, Eq, Structural)]
pub struct RepeatingTimer {
    pub period_ms: i64,
    pub elapsed_ms: i64,
}

/// Elapsed time after a frame of `dt_ms`, and whether the timer fired.
pub open spec fn timer_after(t: RepeatingTimer, dt_ms: i64) -> (RepeatingTimer, bool) {
    let e = t.elapsed_ms + dt_ms;
    if e >= t.period_ms {
        (RepeatingTimer { period_ms: t.period_ms, elapsed_ms: (e % t.period_ms as int) as i64 }, true)
    } else {
        (RepeatingTimer { period_ms: t.period_ms, elapsed_ms: e as i64 }, false)
    }
}

/// Longest period a timer may have: one day.
pub const MAX_TIMER_PERIOD_MS: i64 = 86_400_000;

impl RepeatingTimer {
    pub open spec fn wf(self) -> bool {
        1 <= self.period_ms <= MAX_TIMER_PERIOD_MS && 0 <= self.elapsed_ms < self.period_ms
    }

    pub fn new(period_ms: i64) -> (r: RepeatingTimer)
        requires
            1 <= period_ms <= MAX_TIMER_PERIOD_MS,
        ensures
            r == (RepeatingTimer { period_ms, elapsed_ms: 0 }),
            r.wf(),
    {
        RepeatingTimer { period_ms, elapsed_ms: 0 }
    }

    /// Advances the timer by one frame; returns whether a period ended in it.
    /// Several periods ending in one long frame fire once.
    pub fn tick(&mut self, dt_ms: i64) -> (fired: bool)
        requires
            old(self).wf(),
            0 <= dt_ms,
        ensures
            (*final(self), fired) == timer_after(*old(self), dt_ms),
            final(self).wf(),
    {
        let p = self.period_ms;
        let e = self.elapsed_ms;
        if dt_ms >= p - e {
            proof {
                lemma_add_mod_noop(e as int, dt_ms as int, p as int);
                lemma_small_mod(e as nat, p as nat);
            }
            self.elapsed_ms = (e + dt_ms % p) % p;
            true
        } else {
            self.elapsed_ms = e + dt_ms;
            false
        }
    }
}

/// Where new pursuers are drawn: anywhere in the spawn ring, with no
/// separation to keep.
pub open spec fn spawn_rules() -> PlacementRules {
    PlacementRules {
        min_separation: 0,
        radius_min: SPAWN_RADIUS_MIN,
        radius_max: SPAWN_RADIUS_MAX,
        max_attempts: 1,
    }
}

/// The pursuer spawned from generator state `s`: on the ground, at the first
/// candidate of the spawn ring, at the default speed.
pub open spec fn spawned_pursuer(s: u64) -> Pursuer {
    let g = nth_candidate(s, spawn_rules(), 0);
    Pursuer {
        pos: Point3 { x: g.x, y: 0, z: g.z },
        speed: DEFAULT_SPEED,
        facing_x: 0,
        facing_z: 1,
        sees_target: false,
    }
}

/// Creates pursuers periodically, never more than its cap at once.
#[derive(Clone, Copy, Debug, PartialEq, Eq, Structural)]
pub struct Spawner {
    pub timer: RepeatingTimer,
    pub cap: usize,
    pub rng: SplitMix64,
}

impl Spawner {
    pub open spec fn wf(self) -> bool {
        self.timer.wf()
    }

    /// A spawner with the ten-second period and the cap of ten, drawing
    /// positions from a generator seeded with `seed`.
    pub fn new(seed: u64) -> (r: Spawner)
        ensures
            r.timer == (RepeatingTimer { period_ms: SPAWN_PERIOD_MS, elapsed_ms: 0 }),
            r.cap == PURSUER_CAP,
            r.rng.state == seed,
            r.wf(),
    {
        Spawner { timer: RepeatingTimer::new(SPAWN_PERIOD_MS), cap: PURSUER_CAP, rng: SplitMix64::new(seed) }
    }

    /// Advances the spawn timer by one frame. When a period ends and fewer
    /// than `cap` pursuers are alive, one new pursuer is appended at a
    /// position drawn from the spawn ring; when the cap is reached the period
    /// passes with no spawn. Returns whether a pursuer was added.
    pub fn update(&mut self, dt_ms: i64, pursuers: &mut Vec<Pursuer>) -> (spawned: bool)
        requires
            old(self).wf(),
            0 <= dt_ms,
            all_pursuers_wf(old(pursuers)@),
        ensures
            final(self).wf(),
            final(self).cap == old(self).cap,
            final(self).timer == timer_after(old(self).timer, dt_ms).0,
            spawned == (timer_after(old(self).timer, dt_ms).1 && old(pursuers)@.len() < old(self).cap),
            spawned ==> final(pursuers)@ == old(pursuers)@.push(spawned_pursuer(old(self).rng.state))
                && final(self).rng.state == candidate_state(old(self).rng.state, spawn_rules(), 1),
            !spawned ==> final(pursuers)@ == old(pursuers)@ && final(self).rng == old(self).rng,
            old(pursuers)@.len() <= old(self).cap ==> final(pursuers)@.len() <= old(self).cap,
            all_pursuers_wf(final(pursuers)@),
    {
        let fired = self.timer.tick(dt_ms);
        if !fired || pursuers.len() >= self.cap {
            return false;
        }
        let rules = PlacementRules {
            min_separation: 0,
            radius_min: SPAWN_RADIUS_MIN,
            radius_max: SPAWN_RADIUS_MAX,
            max_attempts: 1,
        };
        let none: Vec<GroundPoint> = Vec::new();
        let placed = sample_position(&none, rules, self.rng.state);
        self.rng.state = placed.next_seed;
        let p = Pursuer::new(Point3 { x: placed.point.x, y: 0, z: placed.point.z }, DEFAULT_SPEED);
        pursuers.push(p);
        true
    }
}

} // verus!
