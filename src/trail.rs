use vstd::prelude::*;
use crate::geometry::{Point3, WORLD_LIMIT};
use crate::effects::{Footstep, FOOTSTEP_LIFETIME_MS, all_footsteps_wf};
use crate::spawner::{RepeatingTimer, timer_after};

verus! {

/// Time between two pairs of footprints: 0.3 seconds.
pub const FOOTSTEP_INTERVAL_MS: i64 = 300;

/// The gait alternates which foot leads every half second.
pub const STRIDE_PHASE_MS: i64 = 500;

/// Height of a footprint above the ground: 0.05 units.
pub const FOOTPRINT_HEIGHT: i64 = 50;

/// `v * num / den`, rounded toward zero.
pub open spec fn scaled(v: int, num: int, den: int) -> int {
    let p = v * num;
    if p >= 0 {
        p / den
    } else {
        -((-p) / den)
    }
}

fn scale(v: i64, num: i64, den: i64) -> (r: i64)
    requires
        -1000 <= v <= 1000,
        -1000 <= num <= 1000,
        1 <= den,
    ensures
        r == scaled(v as int, num as int, den as int),
        -1_000_000 <= r <= 1_000_000,
{
    assert(-1_000_000 <= v * num <= 1_000_000) by (nonlinear_arith)
        requires
            -1000 <= v <= 1000,
            -1000 <= num <= 1000,
    ;
    let p = v * num;
    if p >= 0 {
        p / den
    } else {
        -((-p) / den)
    }
}

/// The direction is a horizontal unit vector in milli-units, up to rounding.
pub open spec fn heading_ok(fx: int, fz: int) -> bool {
    -1000 <= fx <= 1000 && -1000 <= fz <= 1000
}

/// How far the leading foot is set forward: 0.2 units, the other foot as far
/// back; which foot leads changes every stride phase.
pub open spec fn lead_offset(elapsed_ms: int) -> int {
    if (elapsed_ms / STRIDE_PHASE_MS as int) % 2 == 0 {
        200
    } else {
        -200
    }
}

/// Where a footprint lands on one axis: half a unit behind the agent, 0.3
/// units to the side `side` (1 right, -1 left), and `lead` along the heading.
/// `f` and `r` are the forward and right components of the heading on this
/// axis.
pub open spec fn foot_coord(c: int, f: int, r: int, side: int, lead: int) -> int {
    c - scaled(f, 500, 1000) + scaled(r, 300 * side, 1000) + scaled(f, lead, 1000)
}

/// The pair of fresh footprints, right foot first, laid by an agent at `at`
/// heading along (`fx`, `fz`) at time `elapsed_ms`. The right of a heading
/// (fx, fz) is (-fz, fx).
pub open spec fn footprint_pair(at: Point3, fx: int, fz: int, elapsed_ms: int) -> (Footstep, Footstep) {
    let lead = lead_offset(elapsed_ms);
    let right = Footstep {
        pos: Point3 {
            x: foot_coord(at.x as int, fx, -fz, 1, lead) as i64,
            y: FOOTPRINT_HEIGHT,
            z: foot_coord(at.z as int, fz, fx, 1, lead) as i64,
        },
        age_ms: 0,
        max_ms: FOOTSTEP_LIFETIME_MS,
        scale_permille: 1000,
    };
    let left = Footstep {
        pos: Point3 {
            x: foot_coord(at.x as int, fx, -fz, -1, -lead) as i64,
            y: FOOTPRINT_HEIGHT,
            z: foot_coord(at.z as int, fz, fx, -1, -lead) as i64,
        },
        age_ms: 0,
        max_ms: FOOTSTEP_LIFETIME_MS,
        scale_permille: 1000,
    };
    (right, left)
}

fn foot(c: i64, f: i64, r: i64, side: i64, lead: i64) -> (v: i64)
    requires
        -WORLD_LIMIT <= c <= WORLD_LIMIT,
        -1000 <= f <= 1000,
        -1000 <= r <= 1000,
        side == 1 || side == -1,
        lead == 200 || lead == -200,
    ensures
        v == foot_coord(c as int, f as int, r as int, side as int, lead as int),
{
    c - scale(f, 500, 1000) + scale(r, 300 * side, 1000) + scale(f, lead, 1000)
}

/// Lays the footprints of one frame: when the trail timer ends a period, a
/// pair of footprints is appended behind the agent, as `footprint_pair`
/// states. Returns whether it laid them.
pub fn lay_footprints(
    timer: &mut RepeatingTimer,
    dt_ms: i64,
    at: Point3,
    fx: i64,
    fz: i64,
    elapsed_ms: i64,
    steps: &mut Vec<Footstep>,
) -> (laid: bool)
    requires
        old(timer).wf(),
        0 <= dt_ms,
        at.in_world(),
        heading_ok(fx as int, fz as int),
        0 <= elapsed_ms,
        all_footsteps_wf(old(steps)@),
    ensures
        (*final(timer), laid) == timer_after(*old(timer), dt_ms),
        final(timer).wf(),
        laid ==> final(steps)@ == old(steps)@.push(footprint_pair(at, fx as int, fz as int, elapsed_ms as int).0).push(
            footprint_pair(at, fx as int, fz as int, elapsed_ms as int).1,
        ),
        !laid ==> final(steps)@ == old(steps)@,
        all_footsteps_wf(final(steps)@),
{
    let fired = timer.tick(dt_ms);
    if !fired {
        return false;
    }
    let lead: i64 = if (elapsed_ms / STRIDE_PHASE_MS) % 2 == 0 { 200 } else { -200 };
    let right = Footstep {
        pos: Point3 { x: foot(at.x, fx, -fz, 1, lead), y: FOOTPRINT_HEIGHT, z: foot(at.z, fz, fx, 1, lead) },
        age_ms: 0,
        max_ms: FOOTSTEP_LIFETIME_MS,
        scale_permille: 1000,
    };
    let left = Footstep {
        pos: Point3 { x: foot(at.x, fx, -fz, -1, -lead), y: FOOTPRINT_HEIGHT, z: foot(at.z, fz, fx, -1, -lead) },
        age_ms: 0,
        max_ms: FOOTSTEP_LIFETIME_MS,
        scale_permille: 1000,
    };
    steps.push(right);
    steps.push(left);
    true
}

} // verus!
