use vstd::prelude::*;
use crate::geometry::{Point3, Obstacle};
use crate::visibility::{all_wf, has_line_of_sight, line_of_sight_spec};
use crate::pursuit::{Pursuer, chase, chase_spec, frame_ok, in_range, ACTIVATION_RANGE};
use crate::geometry::dist_sq;
use crate::combat::{
    Health, resolve_contacts, contact_count, survivors, contact_smoke, clamp_sub, all_pursuers_wf,
    CONTACT_DAMAGE, AGENT_MAX_HEALTH,
};
use crate::effects::{
    SmokeParticle, Footstep, update_smoke, update_footsteps, smoke_frame, footstep_frame,
    all_smoke_wf, all_footsteps_wf,
};
use crate::placement::candidate_state;
use crate::spawner::{
    spawn_rules,
    Spawner, RepeatingTimer, timer_after, spawned_pursuer, PURSUER_CAP, SPAWN_PERIOD_MS,
};

verus! {

/// The controlled agent: where it stands and its health.
#[derive(Clone, Copy, Debug, PartialEq, Eq, Structural)]
pub struct Agent {
    pub pos: Point3,
    pub health: Health,
}

impl Agent {
    pub open spec fn wf(self) -> bool {
        self.pos.in_world() && self.health.wf()
    }

    /// An agent at `pos` with full health.
    pub fn new(pos: Point3) -> (r: Agent)
        ensures
            r.pos == pos,
            r.health == (Health { current: AGENT_MAX_HEALTH, max: AGENT_MAX_HEALTH }),
    {
        Agent { pos, health: Health::new(AGENT_MAX_HEALTH) }
    }
}

/// Every pursuer after one chase step toward `target`.
pub open spec fn chase_all_spec(s: Seq<Pursuer>, target: Point3, obstacles: Seq<Obstacle>, dt_ms: i64) -> Seq<Pursuer> {
    Seq::new(s.len(), |i: int| chase_spec(s[i], target, obstacles, dt_ms))
}

/// Advances every pursuer by one chase step toward `target`.
pub fn chase_all(pursuers: &mut Vec<Pursuer>, target: Point3, obstacles: &Vec<Obstacle>, dt_ms: i64)
    requires
        all_pursuers_wf(old(pursuers)@),
        target.in_world(),
        all_wf(obstacles@),
        frame_ok(dt_ms),
    ensures
        final(pursuers)@ == chase_all_spec(old(pursuers)@, target, obstacles@, dt_ms),
        all_pursuers_wf(final(pursuers)@),
{
    let ghost start = pursuers@;
    let mut i: usize = 0;
    while i < pursuers.len()
        invariant
            0 <= i <= pursuers@.len(),
            pursuers@.len() == start.len(),
            target.in_world(),
            all_wf(obstacles@),
            frame_ok(dt_ms),
            all_pursuers_wf(start),
            all_pursuers_wf(pursuers@),
            forall|j: int| 0 <= j < i ==> pursuers@[j] == chase_spec(start[j], target, obstacles@, dt_ms),
            forall|j: int| i <= j < pursuers@.len() ==> pursuers@[j] == start[j],
        decreases pursuers.len() - i,
    {
        let mut p = pursuers[i];
        chase(&mut p, target, obstacles, dt_ms);
        pursuers.set(i, p);
        i += 1;
    }
    assert(pursuers@ =~= chase_all_spec(start, target, obstacles@, dt_ms));
}

/// What happened in one frame: how many pursuers struck the agent and
/// whether a new one was spawned.
#[derive(Clone, Copy, Debug, PartialEq, Eq, Structural)]
pub struct FrameReport {
    pub hits: usize,
    pub spawned: bool,
}

/// The whole simulated scene: the agent (if present), the pursuers, the
/// static obstacle boxes, the transient effects and the spawner.
pub struct World {
    pub agent: Option<Agent>,
    pub pursuers: Vec<Pursuer>,
    pub obstacles: Vec<Obstacle>,
    pub smoke: Vec<SmokeParticle>,
    pub footsteps: Vec<Footstep>,
    pub spawner: Spawner,
}

/// The pursuers after the chase step of a frame.
pub open spec fn chased(w: &World, dt_ms: i64) -> Seq<Pursuer> {
    match w.agent {
        Some(a) => chase_all_spec(w.pursuers@, a.pos, w.obstacles@, dt_ms),
        None => w.pursuers@,
    }
}

/// The number of strikes in a frame.
pub open spec fn frame_hits(w: &World, dt_ms: i64) -> int {
    match w.agent {
        Some(a) => contact_count(chased(w, dt_ms), a.pos),
        None => 0,
    }
}

/// The pursuers left after the strikes of a frame.
pub open spec fn struck_survivors(w: &World, dt_ms: i64) -> Seq<Pursuer> {
    match w.agent {
        Some(a) => survivors(chased(w, dt_ms), a.pos),
        None => chased(w, dt_ms),
    }
}

/// The smoke after the strikes of a frame, before it is aged.
pub open spec fn struck_smoke(w: &World, dt_ms: i64) -> Seq<SmokeParticle> {
    match w.agent {
        Some(a) => w.smoke@ + contact_smoke(chased(w, dt_ms), a.pos),
        None => w.smoke@,
    }
}

impl World {
    pub open spec fn wf(&self) -> bool {
        &&& (self.agent matches Some(a) ==> a.wf())
        &&& all_pursuers_wf(self.pursuers@)
        &&& all_wf(self.obstacles@)
        &&& all_smoke_wf(self.smoke@)
        &&& all_footsteps_wf(self.footsteps@)
        &&& self.spawner.wf()
    }

    /// An empty scene around the given obstacles, with the agent (if any)
    /// and a spawner seeded with `seed`.
    pub fn new(agent: Option<Agent>, obstacles: Vec<Obstacle>, seed: u64) -> (r: World)
        ensures
            r.agent == agent,
            r.obstacles@ == obstacles@,
            r.pursuers@.len() == 0,
            r.smoke@.len() == 0,
            r.footsteps@.len() == 0,
            r.spawner.rng.state == seed,
            r.spawner.cap == PURSUER_CAP,
            r.spawner.timer == (RepeatingTimer { period_ms: SPAWN_PERIOD_MS, elapsed_ms: 0 }),
            (agent matches Some(a) ==> a.wf()) && all_wf(obstacles@) ==> r.wf(),
    {
        World {
            agent,
            pursuers: Vec::new(),
            obstacles,
            smoke: Vec::new(),
            footsteps: Vec::new(),
            spawner: Spawner::new(seed),
        }
    }

    /// Runs one frame of `dt_ms` milliseconds, in a fixed order: every
    /// pursuer chases the agent, strikes are resolved, effects are aged, and
    /// the spawner runs. Without an agent, pursuers stand still and nothing
    /// strikes.
    pub fn step(&mut self, dt_ms: i64) -> (r: FrameReport)
        requires
            old(self).wf(),
            frame_ok(dt_ms),
        ensures
            final(self).wf(),
            r.hits == frame_hits(old(self), dt_ms),
            final(self).agent matches Some(a) ==> old(self).agent matches Some(b) && a.pos == b.pos
                && a.health.max == b.health.max && a.health.current == clamp_sub(
                b.health.current as int,
                CONTACT_DAMAGE * r.hits,
            ),
            old(self).agent is None ==> final(self).agent is None,
            old(self).agent is Some ==> final(self).agent is Some,
            final(self).spawner.cap == old(self).spawner.cap,
            final(self).spawner.rng.state == (if r.spawned {
                candidate_state(old(self).spawner.rng.state, spawn_rules(), 1)
            } else {
                old(self).spawner.rng.state
            }),
            final(self).obstacles@ == old(self).obstacles@,
            final(self).smoke@ == smoke_frame(struck_smoke(old(self), dt_ms), dt_ms),
            final(self).footsteps@ == footstep_frame(old(self).footsteps@, dt_ms),
            final(self).spawner.timer == timer_after(old(self).spawner.timer, dt_ms).0,
            r.spawned == (timer_after(old(self).spawner.timer, dt_ms).1
                && struck_survivors(old(self), dt_ms).len() < old(self).spawner.cap),
            r.spawned ==> final(self).pursuers@ == struck_survivors(old(self), dt_ms).push(
                spawned_pursuer(old(self).spawner.rng.state),
            ),
            !r.spawned ==> final(self).pursuers@ == struck_survivors(old(self), dt_ms),
            old(self).pursuers@.len() <= old(self).spawner.cap ==> final(self).pursuers@.len()
                <= old(self).spawner.cap,
    {
        let mut hits: usize = 0;
        match self.agent {
            Some(a) => {
                chase_all(&mut self.pursuers, a.pos, &self.obstacles, dt_ms);
                let mut health = a.health;
                hits = resolve_contacts(a.pos, &mut health, &mut self.pursuers, &mut self.smoke);
                self.agent = Some(Agent { pos: a.pos, health });
                proof {
                    crate::combat::lemma_contact_count_bounds(chased(old(self), dt_ms), a.pos);
                }
            },
            None => {},
        }
        update_smoke(&mut self.smoke, dt_ms);
        update_footsteps(&mut self.footsteps, dt_ms);
        let spawned = self.spawner.update(dt_ms, &mut self.pursuers);
        FrameReport { hits, spawned }
    }
}

/// A line drawn from a pursuer in range to the agent, marked clear or
/// blocked.
#[derive(Clone, Copy, Debug, PartialEq, Eq, Structural)]
pub struct SightLine {
    pub from: Point3,
    pub to: Point3,
    pub clear: bool,
}

/// The sight lines of the pursuers in `s` that are in range of `agent`, in
/// their order.
pub open spec fn sight_lines_spec(s: Seq<Pursuer>, agent: Point3, obstacles: Seq<Obstacle>) -> Seq<SightLine>
    decreases s.len(),
{
    if s.len() == 0 {
        Seq::empty()
    } else if in_range(s.last().pos, agent) {
        sight_lines_spec(s.drop_last(), agent, obstacles).push(
            SightLine { from: s.last().pos, to: agent, clear: line_of_sight_spec(s.last().pos, agent, obstacles) },
        )
    } else {
        sight_lines_spec(s.drop_last(), agent, obstacles)
    }
}

impl World {
    /// The sight line of every pursuer within activation range of the agent,
    /// with whether the obstacles leave it clear; none without an agent.
    pub fn sight_lines(&self) -> (r: Vec<SightLine>)
        requires
            self.wf(),
        ensures
            self.agent matches Some(a) ==> r@ == sight_lines_spec(self.pursuers@, a.pos, self.obstacles@),
            self.agent is None ==> r@.len() == 0,
    {
        let mut out: Vec<SightLine> = Vec::new();
        let a = match self.agent {
            Some(a) => a,
            None => return out,
        };
        let mut i: usize = 0;
        while i < self.pursuers.len()
            invariant
                0 <= i <= self.pursuers@.len(),
                self.wf(),
                self.agent == Some(a),
                out@ == sight_lines_spec(self.pursuers@.subrange(0, i as int), a.pos, self.obstacles@),
            decreases self.pursuers.len() - i,
        {
            let ghost prefix = self.pursuers@.subrange(0, i as int + 1);
            assert(prefix.drop_last() =~= self.pursuers@.subrange(0, i as int));
            let p = self.pursuers[i];
            assert(p.wf());
            if dist_sq(p.pos, a.pos) < ACTIVATION_RANGE * ACTIVATION_RANGE {
                let clear = has_line_of_sight(p.pos, a.pos, &self.obstacles);
                out.push(SightLine { from: p.pos, to: a.pos, clear });
            }
            i += 1;
        }
        assert(self.pursuers@.subrange(0, self.pursuers@.len() as int) =~= self.pursuers@);
        out
    }
}

} // verus!
