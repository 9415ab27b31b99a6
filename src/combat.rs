use vstd::prelude::*;
use crate::geometry::{Point3, MILLI, dist_sq_spec, dist_sq};
use crate::pursuit::Pursuer;
use crate::effects::{SmokeParticle, SMOKE_LIFETIME_MS, all_smoke_wf};

verus! {

/// A pursuer closer to the agent than this strikes it: 1.5 units.
pub const CONTACT_RANGE: i64 = 1500;

/// Health lost per strike.
pub const CONTACT_DAMAGE: i64 = 10;

/// Health the agent starts with.
pub const AGENT_MAX_HEALTH: i64 = 100;

/// Number of smoke particles released by one strike.
pub const RING_SIZE: usize = 8;

/// Upward speed of released smoke: one unit per second.
pub const SMOKE_RISE: i64 = MILLI;

/// Health of the agent, in whole points. It never goes below zero nor above
/// its maximum.
#[derive(Clone, Copy, Debug, PartialEq, Eq, Structural)]
pub struct Health {
    pub current: i64,
    pub max: i64,
}

/// `v` lowered by `amount`, but not below zero.
pub open spec fn clamp_sub(v: int, amount: int) -> int {
    if v - amount < 0 {
        0
    } else {
        v - amount
    }
}

impl Health {
    pub open spec fn wf(self) -> bool {
        0 <= self.current <= self.max
    }

    /// Full health of `max` points.
    pub fn new(max: i64) -> (r: Health)
        requires
            max >= 0,
        ensures
            r == (Health { current: max, max }),
            r.wf(),
    {
        Health { current: max, max }
    }

    /// Removes `amount` points, stopping at zero.
    pub fn apply_damage(&mut self, amount: i64)
        requires
            old(self).wf(),
            amount >= 0,
        ensures
            final(self).current == clamp_sub(old(self).current as int, amount as int),
            final(self).max == old(self).max,
            final(self).wf(),
    {
        if self.current < amount {
            self.current = 0;
        } else {
            self.current = self.current - amount;
        }
    }
}

/// Offset of ring particle `k` from the strike point along x: half a unit
/// out at an angle of `k` eighths of a turn, rounded to a milli-unit.
pub open spec fn ring_dx(k: int) -> int {
    if k == 0 {
        500
    } else if k == 1 || k == 7 {
        354
    } else if k == 2 || k == 6 {
        0
    } else if k == 3 || k == 5 {
        -354
    } else {
        -500
    }
}

/// Offset of ring particle `k` along z.
pub open spec fn ring_dz(k: int) -> int {
    if k == 0 || k == 4 {
        0
    } else if k == 1 || k == 3 {
        354
    } else if k == 2 {
        500
    } else if k == 5 || k == 7 {
        -354
    } else {
        -500
    }
}

/// Smoke particle `k` of the ring released at `at`: it starts half a unit
/// out, drifts outward at half that offset per second and rises.
pub open spec fn ring_particle(at: Point3, k: int) -> SmokeParticle {
    SmokeParticle {
        pos: Point3 { x: (at.x + ring_dx(k)) as i64, y: at.y, z: (at.z + ring_dz(k)) as i64 },
        velocity: Point3 { x: (ring_dx(k) / 2) as i64, y: SMOKE_RISE, z: (ring_dz(k) / 2) as i64 },
        remaining_ms: SMOKE_LIFETIME_MS,
        max_ms: SMOKE_LIFETIME_MS,
        scale_permille: 1000,
    }
}

/// The whole ring released at `at`.
pub open spec fn ring_spec(at: Point3) -> Seq<SmokeParticle> {
    Seq::new(RING_SIZE as nat, |k: int| ring_particle(at, k))
}

fn ring_offset(k: usize) -> (r: (i64, i64))
    requires
        k < RING_SIZE,
    ensures
        r.0 == ring_dx(k as int),
        r.1 == ring_dz(k as int),
{
    if k == 0 {
        (500, 0)
    } else if k == 1 {
        (354, 354)
    } else if k == 2 {
        (0, 500)
    } else if k == 3 {
        (-354, 354)
    } else if k == 4 {
        (-500, 0)
    } else if k == 5 {
        (-354, -354)
    } else if k == 6 {
        (0, -500)
    } else {
        (354, -354)
    }
}

/// Appends the ring of smoke released by a strike at `at`.
pub fn release_smoke(at: Point3, smoke: &mut Vec<SmokeParticle>)
    requires
        at.in_world(),
        all_smoke_wf(old(smoke)@),
    ensures
        final(smoke)@ == old(smoke)@ + ring_spec(at),
        all_smoke_wf(final(smoke)@),
{
    let ghost start = smoke@;
    let mut k: usize = 0;
    while k < RING_SIZE
        invariant
            k <= RING_SIZE,
            at.in_world(),
            smoke@ == start + ring_spec(at).subrange(0, k as int),
            all_smoke_wf(smoke@),
        decreases RING_SIZE - k,
    {
        let (ox, oz) = ring_offset(k);
        let p = SmokeParticle {
            pos: Point3 { x: at.x + ox, y: at.y, z: at.z + oz },
            velocity: Point3 { x: ox / 2, y: SMOKE_RISE, z: oz / 2 },
            remaining_ms: SMOKE_LIFETIME_MS,
            max_ms: SMOKE_LIFETIME_MS,
            scale_permille: 1000,
        };
        assert(p == ring_particle(at, k as int));
        smoke.push(p);
        assert(ring_spec(at).subrange(0, k as int + 1) =~= ring_spec(at).subrange(0, k as int).push(
            p,
        ));
        k += 1;
    }
    assert(ring_spec(at).subrange(0, RING_SIZE as int) =~= ring_spec(at));
}

/// The pursuer is close enough to strike the agent.
pub open spec fn in_contact(p: Pursuer, agent: Point3) -> bool {
    dist_sq_spec(p.pos, agent) < CONTACT_RANGE * CONTACT_RANGE
}

/// The pursuers that do not strike, in their order.
pub open spec fn survivors(s: Seq<Pursuer>, agent: Point3) -> Seq<Pursuer>
    decreases s.len(),
{
    if s.len() == 0 {
        s
    } else if in_contact(s.last(), agent) {
        survivors(s.drop_last(), agent)
    } else {
        survivors(s.drop_last(), agent).push(s.last())
    }
}

/// How many pursuers strike.
pub open spec fn contact_count(s: Seq<Pursuer>, agent: Point3) -> int
    decreases s.len(),
{
    if s.len() == 0 {
        0
    } else if in_contact(s.last(), agent) {
        contact_count(s.drop_last(), agent) + 1
    } else {
        contact_count(s.drop_last(), agent)
    }
}

/// The smoke released by the strikes, one ring per striking pursuer, in the
/// pursuers' order.
pub open spec fn contact_smoke(s: Seq<Pursuer>, agent: Point3) -> Seq<SmokeParticle>
    decreases s.len(),
{
    if s.len() == 0 {
        Seq::empty()
    } else if in_contact(s.last(), agent) {
        contact_smoke(s.drop_last(), agent) + ring_spec(s.last().pos)
    } else {
        contact_smoke(s.drop_last(), agent)
    }
}

pub open spec fn all_pursuers_wf(s: Seq<Pursuer>) -> bool {
    forall|i: int| 0 <= i < s.len() ==> (#[trigger] s[i]).wf()
}

pub proof fn lemma_contact_count_bounds(s: Seq<Pursuer>, agent: Point3)
    ensures
        0 <= contact_count(s, agent) <= s.len(),
        survivors(s, agent).len() + contact_count(s, agent) == s.len(),
    decreases s.len(),
{
    if s.len() > 0 {
        lemma_contact_count_bounds(s.drop_last(), agent);
    }
}

pub proof fn lemma_survivors_wf(s: Seq<Pursuer>, agent: Point3)
    requires
        all_pursuers_wf(s),
    ensures
        all_pursuers_wf(survivors(s, agent)),
    decreases s.len(),
{
    if s.len() > 0 {
        let init = s.drop_last();
        assert forall|i: int| 0 <= i < init.len() implies (#[trigger] init[i]).wf() by {
            assert(init[i] == s[i]);
        }
        lemma_survivors_wf(init, agent);
        assert(s.last() == s[s.len() - 1]);
    }
}

/// Resolves the strikes of one frame. Every pursuer within the contact range
/// of the agent takes `CONTACT_DAMAGE` from its health (stopping at zero),
/// releases a ring of smoke where it stands, and is removed. Several strikes
/// in one frame all count. Returns the number of strikes.
pub fn resolve_contacts(
    agent: Point3,
    health: &mut Health,
    pursuers: &mut Vec<Pursuer>,
    smoke: &mut Vec<SmokeParticle>,
) -> (hits: usize)
    requires
        agent.in_world(),
        old(health).wf(),
        all_pursuers_wf(old(pursuers)@),
        all_smoke_wf(old(smoke)@),
    ensures
        hits == contact_count(old(pursuers)@, agent),
        final(pursuers)@ == survivors(old(pursuers)@, agent),
        final(smoke)@ == old(smoke)@ + contact_smoke(old(pursuers)@, agent),
        final(health).current == clamp_sub(old(health).current as int, CONTACT_DAMAGE * hits),
        final(health).max == old(health).max,
        final(health).wf(),
        all_pursuers_wf(final(pursuers)@),
        all_smoke_wf(final(smoke)@),
{
    let ghost start_health = health.current;
    let ghost start_smoke = smoke@;
    let mut kept: Vec<Pursuer> = Vec::new();
    let mut hits: usize = 0;
    let mut i: usize = 0;
    while i < pursuers.len()
        invariant
            0 <= i <= pursuers@.len(),
            agent.in_world(),
            all_pursuers_wf(pursuers@),
            health.wf(),
            health.max == old(health).max,
            start_health == old(health).current,
            old(health).wf(),
            hits == contact_count(pursuers@.subrange(0, i as int), agent),
            hits <= i,
            kept@ == survivors(pursuers@.subrange(0, i as int), agent),
            smoke@ == start_smoke + contact_smoke(pursuers@.subrange(0, i as int), agent),
            health.current == clamp_sub(start_health as int, CONTACT_DAMAGE * hits),
            all_smoke_wf(smoke@),
        decreases pursuers.len() - i,
    {
        let ghost prefix = pursuers@.subrange(0, i as int + 1);
        assert(prefix.drop_last() =~= pursuers@.subrange(0, i as int));
        assert(prefix.last() == pursuers@[i as int]);
        let p = pursuers[i];
        let d2 = dist_sq(p.pos, agent);
        if d2 < CONTACT_RANGE * CONTACT_RANGE {
            health.apply_damage(CONTACT_DAMAGE);
            release_smoke(p.pos, smoke);
            assert(smoke@ =~= start_smoke + contact_smoke(prefix, agent));
            hits = hits + 1;
        } else {
            kept.push(p);
        }
        i += 1;
    }
    assert(pursuers@.subrange(0, pursuers@.len() as int) =~= pursuers@);
    proof {
        lemma_survivors_wf(pursuers@, agent);
    }
    *pursuers = kept;
    hits
}

/// Health never leaves its bounds, whatever the number of strikes: from full
/// health, each strike removes `CONTACT_DAMAGE` until it reaches zero and it
/// stays there.
pub proof fn lemma_damage_clamped(h: Health, hits: int)
    requires
        h.wf(),
        hits >= 0,
    ensures
        0 <= clamp_sub(h.current as int, CONTACT_DAMAGE * hits) <= h.max,
        hits * CONTACT_DAMAGE >= h.current ==> clamp_sub(h.current as int, CONTACT_DAMAGE * hits)
            == 0,
        hits * CONTACT_DAMAGE < h.current ==> clamp_sub(h.current as int, CONTACT_DAMAGE * hits)
            == h.current - CONTACT_DAMAGE * hits,
{
}

} // verus!
