use vstd::prelude::*;
use crate::geometry::Point3;

verus! {

/// Lifetime of a smoke particle: two seconds.
pub const SMOKE_LIFETIME_MS: i64 = 2000;

/// Lifetime of a footstep mark: three seconds.
pub const FOOTSTEP_LIFETIME_MS: i64 = 3000;

/// Longest lifetime a smoke particle may be given: about 95 years, so that
/// its drift over its whole life stays well within 64 bits.
pub const MAX_EFFECT_MS: i64 = 3_000_000_000_000;

/// Largest speed of a drifting particle on any axis: a thousand units per
/// second, that is a thousand milli-units per millisecond.
pub const MAX_DRIFT: i64 = 1_000_000;

/// How far out a particle may stand, on any axis.
pub const EFFECT_LIMIT: i64 = 4_000_000_000_000_000_000;

/// A particle of smoke. Its remaining lifetime counts down to zero; it drifts
/// by `velocity` (milli-units per second) and shrinks from full size
/// (`scale_permille` 1000) toward a tenth as its life runs out.
#[derive(Clone, Copy, Debug, PartialEq, Eq, Structural)]
pub struct SmokeParticle {
    pub pos: Point3,
    pub velocity: Point3,
    pub remaining_ms: i64,
    pub max_ms: i64,
    pub scale_permille: i64,
}

/// A coordinate that can still drift for `life` milliseconds at the largest
/// drift speed without leaving the effect area.
pub open spec fn drift_room(c: int, life: int) -> bool {
    -(EFFECT_LIMIT - 1000 * life) <= c <= EFFECT_LIMIT - 1000 * life
}

pub open spec fn drift_ok(c: int) -> bool {
    -MAX_DRIFT <= c <= MAX_DRIFT
}

impl SmokeParticle {
    pub open spec fn wf(self) -> bool {
        &&& 0 < self.remaining_ms <= self.max_ms <= MAX_EFFECT_MS
        &&& drift_room(self.pos.x as int, self.remaining_ms as int)
        &&& drift_room(self.pos.y as int, self.remaining_ms as int)
        &&& drift_room(self.pos.z as int, self.remaining_ms as int)
        &&& drift_ok(self.velocity.x as int)
        &&& drift_ok(self.velocity.y as int)
        &&& drift_ok(self.velocity.z as int)
    }
}

/// Size of a particle with `remaining` of `max` milliseconds left, from a
/// tenth at the end of its life to full size at its start, in thousandths.
pub open spec fn smoke_scale(remaining: int, max: int) -> int {
    100 + (900 * remaining) / max
}

/// Drift over `dt_ms` milliseconds on one axis, rounded toward zero.
pub open spec fn drift(v: int, dt_ms: int) -> int {
    if v >= 0 {
        (v * dt_ms) / 1000
    } else {
        -((-v * dt_ms) / 1000)
    }
}

/// A particle after one frame: gone once its remaining lifetime reaches zero,
/// otherwise moved, aged and rescaled.
pub open spec fn smoke_tick(p: SmokeParticle, dt_ms: i64) -> Option<SmokeParticle> {
    if p.remaining_ms <= dt_ms {
        None
    } else {
        let rem = p.remaining_ms - dt_ms;
        Some(
            SmokeParticle {
                pos: Point3 {
                    x: (p.pos.x + drift(p.velocity.x as int, dt_ms as int)) as i64,
                    y: (p.pos.y + drift(p.velocity.y as int, dt_ms as int)) as i64,
                    z: (p.pos.z + drift(p.velocity.z as int, dt_ms as int)) as i64,
                },
                velocity: p.velocity,
                remaining_ms: rem as i64,
                max_ms: p.max_ms,
                scale_permille: smoke_scale(rem as int, p.max_ms as int) as i64,
            },
        )
    }
}

/// The particles that remain after one frame, in their order.
pub open spec fn smoke_frame(s: Seq<SmokeParticle>, dt_ms: i64) -> Seq<SmokeParticle>
    decreases s.len(),
{
    if s.len() == 0 {
        s
    } else {
        let rest = smoke_frame(s.drop_last(), dt_ms);
        match smoke_tick(s.last(), dt_ms) {
            Some(q) => rest.push(q),
            None => rest,
        }
    }
}

pub open spec fn all_smoke_wf(s: Seq<SmokeParticle>) -> bool {
    forall|i: int| 0 <= i < s.len() ==> (#[trigger] s[i]).wf()
}

proof fn lemma_drift_bound(v: int, dt: int)
    requires
        drift_ok(v),
        0 <= dt,
    ensures
        -1000 * dt <= drift(v, dt) <= 1000 * dt,
{
    if v >= 0 {
        assert(0 <= (v * dt) / 1000 <= 1000 * dt) by (nonlinear_arith)
            requires
                0 <= v <= 1_000_000,
                0 <= dt,
        ;
    } else {
        assert(0 <= (-v * dt) / 1000 <= 1000 * dt) by (nonlinear_arith)
            requires
                0 <= -v <= 1_000_000,
                0 <= dt,
        ;
    }
}

fn drift_exec(v: i64, dt_ms: i64) -> (r: i64)
    requires
        drift_ok(v as int),
        0 <= dt_ms <= MAX_EFFECT_MS,
    ensures
        r == drift(v as int, dt_ms as int),
        -1000 * dt_ms <= r <= 1000 * dt_ms,
{
    proof {
        lemma_drift_bound(v as int, dt_ms as int);
    }
    if v >= 0 {
        assert(v * dt_ms <= 1_000_000 * MAX_EFFECT_MS) by (nonlinear_arith)
            requires
                0 <= v <= 1_000_000,
                0 <= dt_ms <= MAX_EFFECT_MS,
        ;
        (v * dt_ms) / 1000
    } else {
        assert(-v * dt_ms <= 1_000_000 * MAX_EFFECT_MS) by (nonlinear_arith)
            requires
                0 <= -v <= 1_000_000,
                0 <= dt_ms <= MAX_EFFECT_MS,
        ;
        -((-v * dt_ms) / 1000)
    }
}

fn tick_smoke(p: SmokeParticle, dt_ms: i64) -> (r: Option<SmokeParticle>)
    requires
        p.wf(),
        dt_ms >= 0,
    ensures
        r == smoke_tick(p, dt_ms),
        r matches Some(q) ==> q.wf(),
{
    if p.remaining_ms <= dt_ms {
        return None;
    }
    let rem = p.remaining_ms - dt_ms;
    let dx = drift_exec(p.velocity.x, dt_ms);
    let dy = drift_exec(p.velocity.y, dt_ms);
    let dz = drift_exec(p.velocity.z, dt_ms);
    assert(0 <= 900 * rem <= 900 * p.max_ms) by (nonlinear_arith)
        requires
            0 < rem <= p.max_ms,
    ;
    assert((900 * rem) / (p.max_ms as int) <= 900) by (nonlinear_arith)
        requires
            0 < rem <= p.max_ms,
            0 <= 900 * rem <= 900 * p.max_ms,
    ;
    Some(
        SmokeParticle {
            pos: Point3 { x: p.pos.x + dx, y: p.pos.y + dy, z: p.pos.z + dz },
            velocity: p.velocity,
            remaining_ms: rem,
            max_ms: p.max_ms,
            scale_permille: 100 + (900 * rem) / p.max_ms,
        },
    )
}

/// Ages every smoke particle by one frame: expired ones are removed, the
/// others drift and shrink, as `smoke_frame` states.
pub fn update_smoke(particles: &mut Vec<SmokeParticle>, dt_ms: i64)
    requires
        all_smoke_wf(old(particles)@),
        0 <= dt_ms,
    ensures
        final(particles)@ == smoke_frame(old(particles)@, dt_ms),
        all_smoke_wf(final(particles)@),
{
    let mut out: Vec<SmokeParticle> = Vec::new();
    let mut i: usize = 0;
    while i < particles.len()
        invariant
            0 <= i <= particles@.len(),
            all_smoke_wf(particles@),
            0 <= dt_ms,
            out@ == smoke_frame(particles@.subrange(0, i as int), dt_ms),
            all_smoke_wf(out@),
        decreases particles.len() - i,
    {
        let ghost prefix = particles@.subrange(0, i as int + 1);
        assert(prefix.drop_last() =~= particles@.subrange(0, i as int));
        assert(prefix.last() == particles@[i as int]);
        match tick_smoke(particles[i], dt_ms) {
            Some(q) => {
                out.push(q);
            },
            None => {},
        }
        i += 1;
    }
    assert(particles@.subrange(0, particles@.len() as int) =~= particles@);
    *particles = out;
}

/// Total length of a run of frames.
pub open spec fn frames_total(frames: Seq<i64>) -> int
    decreases frames.len(),
{
    if frames.len() == 0 {
        0
    } else {
        frames_total(frames.drop_last()) + frames.last()
    }
}

/// A particle after a run of frames, if it is still there.
pub open spec fn smoke_after(p: SmokeParticle, frames: Seq<i64>) -> Option<SmokeParticle>
    decreases frames.len(),
{
    if frames.len() == 0 {
        Some(p)
    } else {
        match smoke_after(p, frames.drop_last()) {
            Some(q) => smoke_tick(q, frames.last()),
            None => None,
        }
    }
}

/// A particle outlives a run of frames exactly when the frames add up to less
/// than its remaining lifetime, and it then has that much less life left: it
/// is gone in the first frame at which the elapsed time reaches its lifetime.
pub proof fn lemma_smoke_lifetime(p: SmokeParticle, frames: Seq<i64>)
    requires
        p.wf(),
        forall|i: int| 0 <= i < frames.len() ==> #[trigger] frames[i] >= 0,
    ensures
        smoke_after(p, frames) is Some <==> frames_total(frames) < p.remaining_ms,
        smoke_after(p, frames) matches Some(q) ==> q.remaining_ms == p.remaining_ms - frames_total(frames),
    decreases frames.len(),
{
    if frames.len() > 0 {
        let init = frames.drop_last();
        assert forall|i: int| 0 <= i < init.len() implies #[trigger] init[i] >= 0 by {
            assert(init[i] == frames[i]);
        }
        lemma_smoke_lifetime(p, init);
        lemma_frames_total_nonneg(init);
        assert(frames.last() == frames[frames.len() - 1]);
    }
}

pub proof fn lemma_frames_total_nonneg(frames: Seq<i64>)
    requires
        forall|i: int| 0 <= i < frames.len() ==> #[trigger] frames[i] >= 0,
    ensures
        frames_total(frames) >= 0,
    decreases frames.len(),
{
    if frames.len() > 0 {
        let init = frames.drop_last();
        assert forall|i: int| 0 <= i < init.len() implies #[trigger] init[i] >= 0 by {
            assert(init[i] == frames[i]);
        }
        lemma_frames_total_nonneg(init);
        assert(frames.last() == frames[frames.len() - 1]);
    }
}

/// A footprint left by the agent. Its age counts up toward its lifetime; it
/// shrinks from full size toward three tenths as it ages.
/// Longest lifetime a footprint may have: as long as its size can still be
/// computed in 64 bits.
pub const MAX_FOOTSTEP_MS: i64 = 13_176_245_766_935_394;

#[derive(Clone, Copy, Debug, PartialEq, Eq, Structural)]
pub struct Footstep {
    pub pos: Point3,
    pub age_ms: i64,
    pub max_ms: i64,
    pub scale_permille: i64,
}

impl Footstep {
    pub open spec fn wf(self) -> bool {
        0 <= self.age_ms < self.max_ms <= MAX_FOOTSTEP_MS
    }
}

/// Size of a footprint of age `age` out of `max`, in thousandths.
pub open spec fn footstep_scale(age: int, max: int) -> int {
    300 + (700 * (max - age)) / max
}

/// A footprint after one frame: gone once its age reaches its lifetime,
/// otherwise aged and rescaled.
pub open spec fn footstep_tick(f: Footstep, dt_ms: i64) -> Option<Footstep> {
    if f.age_ms + dt_ms >= f.max_ms {
        None
    } else {
        let age = f.age_ms + dt_ms;
        Some(
            Footstep {
                pos: f.pos,
                age_ms: age as i64,
                max_ms: f.max_ms,
                scale_permille: footstep_scale(age, f.max_ms as int) as i64,
            },
        )
    }
}

/// The footprints that remain after one frame, in their order.
pub open spec fn footstep_frame(s: Seq<Footstep>, dt_ms: i64) -> Seq<Footstep>
    decreases s.len(),
{
    if s.len() == 0 {
        s
    } else {
        let rest = footstep_frame(s.drop_last(), dt_ms);
        match footstep_tick(s.last(), dt_ms) {
            Some(q) => rest.push(q),
            None => rest,
        }
    }
}

pub open spec fn all_footsteps_wf(s: Seq<Footstep>) -> bool {
    forall|i: int| 0 <= i < s.len() ==> (#[trigger] s[i]).wf()
}

fn tick_footstep(f: Footstep, dt_ms: i64) -> (r: Option<Footstep>)
    requires
        f.wf(),
        0 <= dt_ms,
    ensures
        r == footstep_tick(f, dt_ms),
        r matches Some(q) ==> q.wf(),
{
    if dt_ms >= f.max_ms - f.age_ms {
        return None;
    }
    let age = f.age_ms + dt_ms;
    assert(0 <= 700 * (f.max_ms - age) <= 700 * f.max_ms) by (nonlinear_arith)
        requires
            0 <= age < f.max_ms,
    ;
    assert(700 * f.max_ms <= 700 * MAX_FOOTSTEP_MS);
    assert((700 * (f.max_ms - age)) / (f.max_ms as int) <= 700) by (nonlinear_arith)
        requires
            0 <= age < f.max_ms,
            0 <= 700 * (f.max_ms - age) <= 700 * f.max_ms,
    ;
    Some(
        Footstep {
            pos: f.pos,
            age_ms: age,
            max_ms: f.max_ms,
            scale_permille: 300 + (700 * (f.max_ms - age)) / f.max_ms,
        },
    )
}

/// Ages every footprint by one frame: expired ones are removed, the others
/// shrink, as `footstep_frame` states.
pub fn update_footsteps(steps: &mut Vec<Footstep>, dt_ms: i64)
    requires
        all_footsteps_wf(old(steps)@),
        0 <= dt_ms,
    ensures
        final(steps)@ == footstep_frame(old(steps)@, dt_ms),
        all_footsteps_wf(final(steps)@),
{
    let mut out: Vec<Footstep> = Vec::new();
    let mut i: usize = 0;
    while i < steps.len()
        invariant
            0 <= i <= steps@.len(),
            all_footsteps_wf(steps@),
            0 <= dt_ms,
            out@ == footstep_frame(steps@.subrange(0, i as int), dt_ms),
            all_footsteps_wf(out@),
        decreases steps.len() - i,
    {
        let ghost prefix = steps@.subrange(0, i as int + 1);
        assert(prefix.drop_last() =~= steps@.subrange(0, i as int));
        assert(prefix.last() == steps@[i as int]);
        match tick_footstep(steps[i], dt_ms) {
            Some(q) => {
                out.push(q);
            },
            None => {},
        }
        i += 1;
    }
    assert(steps@.subrange(0, steps@.len() as int) =~= steps@);
    *steps = out;
}

/// A footprint after a run of frames, if it is still there.
pub open spec fn footstep_after(f: Footstep, frames: Seq<i64>) -> Option<Footstep>
    decreases frames.len(),
{
    if frames.len() == 0 {
        Some(f)
    } else {
        match footstep_after(f, frames.drop_last()) {
            Some(g) => footstep_tick(g, frames.last()),
            None => None,
        }
    }
}

/// A footprint outlives a run of frames exactly when its age plus the frames
/// stays under its lifetime, and its age then counts them all.
pub proof fn lemma_footstep_lifetime(f: Footstep, frames: Seq<i64>)
    requires
        f.wf(),
        forall|i: int| 0 <= i < frames.len() ==> #[trigger] frames[i] >= 0,
    ensures
        footstep_after(f, frames) is Some <==> f.age_ms + frames_total(frames) < f.max_ms,
        footstep_after(f, frames) matches Some(g) ==> g.age_ms == f.age_ms + frames_total(frames)
            && g.max_ms == f.max_ms,
    decreases frames.len(),
{
    if frames.len() > 0 {
        let init = frames.drop_last();
        assert forall|i: int| 0 <= i < init.len() implies #[trigger] init[i] >= 0 by {
            assert(init[i] == frames[i]);
        }
        lemma_footstep_lifetime(f, init);
        lemma_frames_total_nonneg(init);
        assert(frames.last() == frames[frames.len() - 1]);
    }
}

/// The particles left after a run of frames, each frame applied as
/// `update_smoke` applies it.
pub open spec fn smoke_frames(s: Seq<SmokeParticle>, frames: Seq<i64>) -> Seq<SmokeParticle>
    decreases frames.len(),
{
    if frames.len() == 0 {
        s
    } else {
        smoke_frame(smoke_frames(s, frames.drop_last()), frames.last())
    }
}

pub open spec fn option_seq(o: Option<SmokeParticle>) -> Seq<SmokeParticle> {
    match o {
        Some(q) => seq![q],
        None => Seq::empty(),
    }
}

/// Calling `update_smoke` once per frame on a single particle leaves exactly
/// that particle as `smoke_after` states it, or nothing: with
/// `lemma_smoke_lifetime`, it is still there, with its lifetime less the
/// elapsed time, while the frames add up to less than its lifetime, and gone
/// from the first frame at which they reach it.
pub proof fn lemma_smoke_run(p: SmokeParticle, frames: Seq<i64>)
    requires
        p.wf(),
        forall|i: int| 0 <= i < frames.len() ==> #[trigger] frames[i] >= 0,
    ensures
        smoke_frames(seq![p], frames) == option_seq(smoke_after(p, frames)),
        smoke_frames(seq![p], frames).len() == 1 <==> frames_total(frames) < p.remaining_ms,
    decreases frames.len(),
{
    lemma_smoke_lifetime(p, frames);
    if frames.len() == 0 {
    } else {
        let init = frames.drop_last();
        assert forall|i: int| 0 <= i < init.len() implies #[trigger] init[i] >= 0 by {
            assert(init[i] == frames[i]);
        }
        lemma_smoke_run(p, init);
        let prev = option_seq(smoke_after(p, init));
        let dt = frames.last();
        if prev.len() == 1 {
            assert(prev.drop_last() =~= Seq::<SmokeParticle>::empty());
            assert(smoke_frame(Seq::<SmokeParticle>::empty(), dt) == Seq::<SmokeParticle>::empty());
            assert(smoke_frame(prev, dt) =~= option_seq(smoke_tick(prev.last(), dt)));
        } else {
            assert(prev =~= Seq::<SmokeParticle>::empty());
        }
    }
}

} // verus!
