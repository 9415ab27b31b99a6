use vstd::prelude::*;
use crate::geometry::{
    Point3, Obstacle, MILLI, coord_ok, dist_sq_spec, dist_sq, floor_sqrt, isqrt,
    lemma_floor_sqrt_exists,
};
use crate::visibility::{all_wf, line_of_sight_spec, has_line_of_sight, min_int, max_int};

verus! {

/// A pursuer starts to chase once the target is closer than this: 100 units.
pub const ACTIVATION_RANGE: i64 = 100 * MILLI;

/// Speed given to a newly spawned pursuer: 3 units per second.
pub const DEFAULT_SPEED: i64 = 3 * MILLI;

/// An autonomous entity that steers toward the agent.
///
/// `facing_x` and `facing_z` give the horizontal direction it last travelled
/// in (not normalised); its yaw is the angle of that direction.
/// `sees_target` records whether the last active frame found a clear line of
/// sight to the target. It is kept for display only and does not stop the
/// chase: a pursuer in range moves toward the agent through obstacles.
#[derive(Clone, Copy, Debug, PartialEq, Eq, Structural)]
pub struct Pursuer {
    pub pos: Point3,
    pub speed: i64,
    pub facing_x: i64,
    pub facing_z: i64,
    pub sees_target: bool,
}

impl Pursuer {
    pub open spec fn wf(self) -> bool {
        self.pos.in_world() && 0 <= self.speed
    }

    /// A pursuer at rest at `pos`, facing down the z axis, with no sight of
    /// the target yet.
    pub fn new(pos: Point3, speed: i64) -> (r: Pursuer)
        ensures
            r == (Pursuer { pos, speed, facing_x: 0, facing_z: 1, sees_target: false }),
    {
        Pursuer { pos, speed, facing_x: 0, facing_z: 1, sees_target: false }
    }
}

/// A frame lasts a whole number of milliseconds, none or more.
pub open spec fn frame_ok(dt_ms: i64) -> bool {
    0 <= dt_ms
}

/// Distance covered in one frame, in milli-units, rounded down.
pub open spec fn step_length(speed: i64, dt_ms: i64) -> int {
    (speed * dt_ms) / 1000
}

/// The target is close enough for the pursuer to chase it.
pub open spec fn in_range(pos: Point3, target: Point3) -> bool {
    dist_sq_spec(pos, target) < ACTIVATION_RANGE * ACTIVATION_RANGE
}

/// One coordinate moved `step` of the way `dist` toward `t`, rounded toward
/// the start.
pub open spec fn advance_coord(p: int, t: int, step: int, dist: int) -> int {
    if t >= p {
        p + ((t - p) * step) / dist
    } else {
        p - ((p - t) * step) / dist
    }
}

/// The pursuer after one frame of `dt_ms` milliseconds.
///
/// Out of range it stays put and loses sight of the target. In range it
/// records whether the line of sight is clear, then moves `step_length`
/// toward the target, or onto the target when that step would reach or pass
/// it. It turns to face the horizontal direction of travel unless it stands
/// straight above, below or on the target.
pub open spec fn chase_spec(p: Pursuer, target: Point3, obstacles: Seq<Obstacle>, dt_ms: i64) -> Pursuer {
    if !in_range(p.pos, target) {
        Pursuer { sees_target: false, ..p }
    } else {
        let dist = floor_sqrt(dist_sq_spec(p.pos, target));
        let step = step_length(p.speed, dt_ms);
        let pos = if step >= dist {
            target
        } else {
            Point3 {
                x: advance_coord(p.pos.x as int, target.x as int, step, dist) as i64,
                y: advance_coord(p.pos.y as int, target.y as int, step, dist) as i64,
                z: advance_coord(p.pos.z as int, target.z as int, step, dist) as i64,
            }
        };
        let fx = target.x - p.pos.x;
        let fz = target.z - p.pos.z;
        let turned = fx != 0 || fz != 0;
        Pursuer {
            pos,
            speed: p.speed,
            facing_x: if turned { fx as i64 } else { p.facing_x },
            facing_z: if turned { fz as i64 } else { p.facing_z },
            sees_target: line_of_sight_spec(p.pos, target, obstacles),
        }
    }
}

/// A coordinate advanced by less than the whole distance stays between start
/// and target.
pub proof fn lemma_advance_between(p: int, t: int, step: int, dist: int)
    requires
        coord_ok(p),
        coord_ok(t),
        0 <= step < dist,
        (t - p) * (t - p) < (dist + 1) * (dist + 1),
    ensures
        min_int(p, t) <= advance_coord(p, t, step, dist) <= max_int(p, t),
{
    let d = if t >= p { t - p } else { p - t };
    assert(d * d == (t - p) * (t - p)) by (nonlinear_arith)
        requires
            d == t - p || d == p - t,
    ;
    assert(d <= dist) by (nonlinear_arith)
        requires
            0 <= d,
            0 < dist,
            d * d < (dist + 1) * (dist + 1),
    ;
    assert(0 <= (d * step) / dist <= d) by (nonlinear_arith)
        requires
            0 <= d <= dist,
            0 <= step < dist,
    ;
}

/// Moves one coordinate `step` of the way `dist` toward `t`.
fn advance(p: i64, t: i64, step: i64, dist: i64) -> (r: i64)
    requires
        coord_ok(p as int),
        coord_ok(t as int),
        0 <= step < dist <= 0x8000_0000,
        (t - p) * (t - p) < (dist + 1) * (dist + 1),
    ensures
        r == advance_coord(p as int, t as int, step as int, dist as int),
        min_int(p as int, t as int) <= r <= max_int(p as int, t as int),
{
    proof {
        lemma_advance_between(p as int, t as int, step as int, dist as int);
    }
    if t >= p {
        let d = t - p;
        assert(d * step <= 200_000_000 * 0x8000_0000) by (nonlinear_arith)
            requires
                0 <= d <= 200_000_000,
                0 <= step <= 0x8000_0000,
        ;
        p + (d * step) / dist
    } else {
        let d = p - t;
        assert(d * step <= 200_000_000 * 0x8000_0000) by (nonlinear_arith)
            requires
                0 <= d <= 200_000_000,
                0 <= step <= 0x8000_0000,
        ;
        p - (d * step) / dist
    }
}

/// Advances one pursuer by one frame toward `target`, as `chase_spec` states.
pub fn chase(p: &mut Pursuer, target: Point3, obstacles: &Vec<Obstacle>, dt_ms: i64)
    requires
        old(p).wf(),
        target.in_world(),
        all_wf(obstacles@),
        frame_ok(dt_ms),
    ensures
        *final(p) == chase_spec(*old(p), target, obstacles@, dt_ms),
        final(p).wf(),
{
    let d2 = dist_sq(p.pos, target);
    if d2 >= ACTIVATION_RANGE * ACTIVATION_RANGE {
        p.sees_target = false;
        return;
    }
    let sees = has_line_of_sight(p.pos, target, obstacles);
    // The product of speed and frame length is taken on 128 bits, where it
    // always fits.
    assert(0 <= (p.speed as int) * (dt_ms as int) <= 0x7FFF_FFFF_FFFF_FFFF * 0x7FFF_FFFF_FFFF_FFFF)
        by (nonlinear_arith)
        requires
            0 <= p.speed <= 0x7FFF_FFFF_FFFF_FFFF,
            0 <= dt_ms <= 0x7FFF_FFFF_FFFF_FFFF,
    ;
    let reach: i128 = (p.speed as i128) * (dt_ms as i128) / 1000;
    let dist = isqrt(d2);
    let start = p.pos;
    let fx = target.x - start.x;
    let fz = target.z - start.z;
    if reach >= dist as i128 {
        p.pos = target;
    } else {
        let step = reach as i64;
        proof {
            let dx = target.x - start.x;
            let dy = target.y - start.y;
            let dz = target.z - start.z;
            assert(dx * dx <= d2 && dy * dy <= d2 && dz * dz <= d2) by (nonlinear_arith)
                requires
                    d2 == dx * dx + dy * dy + dz * dz,
            ;
            assert(dist * dist <= d2 < (dist + 1) * (dist + 1));
        }
        p.pos = Point3 {
            x: advance(start.x, target.x, step, dist),
            y: advance(start.y, target.y, step, dist),
            z: advance(start.z, target.z, step, dist),
        };
    }
    if fx != 0 || fz != 0 {
        p.facing_x = fx;
        p.facing_z = fz;
    }
    p.sees_target = sees;
}

/// A pursuer in range whose frame step covers the whole distance ends the
/// frame exactly on the target.
pub proof fn lemma_pursuit_arrives(p: Pursuer, target: Point3, obstacles: Seq<Obstacle>, dt_ms: i64)
    requires
        p.wf(),
        target.in_world(),
        frame_ok(dt_ms),
        in_range(p.pos, target),
        step_length(p.speed, dt_ms) >= floor_sqrt(dist_sq_spec(p.pos, target)),
    ensures
        chase_spec(p, target, obstacles, dt_ms).pos == target,
{
}

/// A chase step never overshoots: on every axis the new position lies between
/// the old one and the target.
pub proof fn lemma_pursuit_no_overshoot(p: Pursuer, target: Point3, obstacles: Seq<Obstacle>, dt_ms: i64)
    requires
        p.wf(),
        target.in_world(),
        frame_ok(dt_ms),
    ensures
        ({
            let q = chase_spec(p, target, obstacles, dt_ms).pos;
            &&& min_int(p.pos.x as int, target.x as int) <= q.x <= max_int(p.pos.x as int, target.x as int)
            &&& min_int(p.pos.y as int, target.y as int) <= q.y <= max_int(p.pos.y as int, target.y as int)
            &&& min_int(p.pos.z as int, target.z as int) <= q.z <= max_int(p.pos.z as int, target.z as int)
        }),
{
    if in_range(p.pos, target) {
        let d2 = dist_sq_spec(p.pos, target);
        let dist = floor_sqrt(d2);
        let step = step_length(p.speed, dt_ms);
        if step < dist {
            let dx = target.x - p.pos.x;
            let dy = target.y - p.pos.y;
            let dz = target.z - p.pos.z;
            assert(0 <= step) by (nonlinear_arith)
                requires
                    0 <= p.speed,
                    0 <= dt_ms,
                    step == (p.speed * dt_ms) / 1000,
            ;
            assert(0 <= dx * dx <= d2 && dy * dy <= d2 && dz * dz <= d2) by (nonlinear_arith)
                requires
                    d2 == dx * dx + dy * dy + dz * dz,
            ;
            lemma_floor_sqrt_exists(d2);
            assert(d2 < (dist + 1) * (dist + 1));
            lemma_advance_between(p.pos.x as int, target.x as int, step, dist);
            lemma_advance_between(p.pos.y as int, target.y as int, step, dist);
            lemma_advance_between(p.pos.z as int, target.z as int, step, dist);
        }
    }
}

/// A pursuer after a run of frames chasing a target that stands still.
pub open spec fn pursue_after(p: Pursuer, target: Point3, obstacles: Seq<Obstacle>, frames: Seq<i64>) -> Pursuer
    decreases frames.len(),
{
    if frames.len() == 0 {
        p
    } else {
        chase_spec(pursue_after(p, target, obstacles, frames.drop_last()), target, obstacles, frames.last())
    }
}

/// Distance a pursuer of the given speed covers over a run of frames.
pub open spec fn steps_total(speed: i64, frames: Seq<i64>) -> int
    decreases frames.len(),
{
    if frames.len() == 0 {
        0
    } else {
        steps_total(speed, frames.drop_last()) + step_length(speed, frames.last())
    }
}

pub open spec fn all_frames_ok(frames: Seq<i64>) -> bool {
    forall|i: int| 0 <= i < frames.len() ==> frame_ok(#[trigger] frames[i])
}

pub open spec fn abs_int(a: int) -> int {
    if a < 0 { -a } else { a }
}

/// Over a run of frames, a pursuer that differs from a still target on one
/// axis only closes in by exactly its step each frame, never passing the
/// target: the gap left is the starting gap less the distance covered, or
/// none.
pub proof fn lemma_pursuit_along_axis(p: Pursuer, target: Point3, obstacles: Seq<Obstacle>, frames: Seq<i64>)
    requires
        p.wf(),
        target.in_world(),
        in_range(p.pos, target),
        p.pos.y == target.y,
        p.pos.z == target.z,
        all_frames_ok(frames),
    ensures
        ({
            let q = pursue_after(p, target, obstacles, frames);
            let gap = abs_int(target.x - p.pos.x) - steps_total(p.speed, frames);
            &&& q.pos.y == target.y
            &&& q.pos.z == target.z
            &&& q.speed == p.speed
            &&& min_int(p.pos.x as int, target.x as int) <= q.pos.x <= max_int(p.pos.x as int, target.x as int)
            &&& abs_int(target.x - q.pos.x) == (if gap > 0 { gap } else { 0 })
        }),
    decreases frames.len(),
{
    if frames.len() > 0 {
        let init = frames.drop_last();
        let f = frames.last();
        assert(f == frames[frames.len() - 1]);
        assert forall|i: int| 0 <= i < init.len() implies frame_ok(#[trigger] init[i]) by {
            assert(init[i] == frames[i]);
        }
        lemma_pursuit_along_axis(p, target, obstacles, init);
        let q = pursue_after(p, target, obstacles, init);
        let d = abs_int(target.x - q.pos.x);
        let d0 = abs_int(target.x - p.pos.x);
        let dx = target.x - q.pos.x;
        let dx0 = target.x - p.pos.x;
        assert(d <= d0);
        assert(dx * dx == d * d && dx0 * dx0 == d0 * d0) by (nonlinear_arith)
            requires
                d == abs_int(dx),
                d0 == abs_int(dx0),
        ;
        assert(d * d <= d0 * d0) by (nonlinear_arith)
            requires
                0 <= d <= d0,
        ;
        assert(dist_sq_spec(q.pos, target) == d * d);
        assert(dist_sq_spec(p.pos, target) == d0 * d0);
        assert(d * d < (d + 1) * (d + 1)) by (nonlinear_arith)
            requires
                0 <= d,
        ;
        crate::geometry::lemma_floor_sqrt_of(d * d, d);
        let step = step_length(q.speed, f);
        assert(0 <= step) by (nonlinear_arith)
            requires
                0 <= q.speed,
                0 <= f,
                step == (q.speed * f) / 1000,
        ;
        if step < d {
            assert((d * step) / d == step) by (nonlinear_arith)
                requires
                    0 < d,
            ;
            assert(advance_coord(q.pos.y as int, target.y as int, step, d) == q.pos.y);
            assert(advance_coord(q.pos.z as int, target.z as int, step, d) == q.pos.z);
        }
    }
}

/// A pursuer that differs from a still target on one axis only, over frames
/// that together give it at least the distance to cover, ends on the target.
pub proof fn lemma_pursuit_arrives_along_axis(
    p: Pursuer,
    target: Point3,
    obstacles: Seq<Obstacle>,
    frames: Seq<i64>,
)
    requires
        p.wf(),
        target.in_world(),
        in_range(p.pos, target),
        p.pos.y == target.y,
        p.pos.z == target.z,
        all_frames_ok(frames),
        steps_total(p.speed, frames) >= abs_int(target.x - p.pos.x),
    ensures
        pursue_after(p, target, obstacles, frames).pos == target,
{
    lemma_pursuit_along_axis(p, target, obstacles, frames);
}

/// On one axis, the gap `a` less its rounded share of the step: `d` times
/// the new gap lies between `a * (d - s)` and that plus `d`.
proof fn lemma_axis_gap(a: int, s: int, d: int)
    requires
        0 <= a <= d,
        0 <= s < d,
    ensures
        0 <= a - (a * s) / d <= a,
        d * d * ((a - (a * s) / d) * (a - (a * s) / d)) >= (a * a) * ((d - s) * (d - s)),
        d * d * ((a - (a * s) / d) * (a - (a * s) / d)) <= (a * a) * ((d - s) * (d - s)) + 2 * (d - s) * (
        d * d) + d * d,
{
    let m = (a * s) / d;
    let q = (a * s) % d;
    let k = d - s;
    let r = a - m;
    vstd::arithmetic::div_mod::lemma_fundamental_div_mod(a * s, d);
    assert(0 <= q < d) by (nonlinear_arith)
        requires
            q == (a * s) % d,
            0 < d,
    ;
    assert(0 <= m <= a) by (nonlinear_arith)
        requires
            m == (a * s) / d,
            0 <= a,
            0 <= s < d,
    ;
    assert(d * r == a * k + q) by (nonlinear_arith)
        requires
            a * s == d * m + q,
            r == a - m,
            k == d - s,
    ;
    assert(d * d * (r * r) == (a * k + q) * (a * k + q)) by (nonlinear_arith)
        requires
            d * r == a * k + q,
    ;
    assert((a * k + q) * (a * k + q) >= (a * a) * (k * k)) by (nonlinear_arith)
        requires
            0 <= a,
            0 <= k,
            0 <= q,
    ;
    assert((a * k + q) * (a * k + q) <= (a * a) * (k * k) + 2 * k * (d * d) + d * d) by (nonlinear_arith)
        requires
            0 <= a <= d,
            0 <= k,
            0 <= q < d,
    ;
}

/// `t` less a coordinate moved from `p`: the gap on that axis after the step,
/// up to its sign.
proof fn lemma_axis_coord(p: int, t: int, s: int, d: int)
    requires
        0 < d,
    ensures
        (t - advance_coord(p, t, s, d)) * (t - advance_coord(p, t, s, d)) == (abs_int(t - p) - (abs_int(
            t - p,
        ) * s) / d) * (abs_int(t - p) - (abs_int(t - p) * s) / d),
{
    let g = abs_int(t - p) - (abs_int(t - p) * s) / d;
    let e = t - advance_coord(p, t, s, d);
    assert(e == g || e == -g);
    assert(e * e == g * g) by (nonlinear_arith)
        requires
            e == g || e == -g,
    ;
}

/// One chase step takes the gap to the target down by the step, up to
/// rounding: a pursuer in range whose step reaches the target stands on it;
/// otherwise, with `d` the distance (rounded down) and `s` the step, the
/// distance left lies between `d - s` and `d - s + 4` milli-units.
pub proof fn lemma_pursuit_gap(p: Pursuer, target: Point3, obstacles: Seq<Obstacle>, dt_ms: i64)
    requires
        p.wf(),
        target.in_world(),
        frame_ok(dt_ms),
        in_range(p.pos, target),
    ensures
        ({
            let d = floor_sqrt(dist_sq_spec(p.pos, target));
            let s = step_length(p.speed, dt_ms);
            let q = chase_spec(p, target, obstacles, dt_ms).pos;
            &&& s >= d ==> q == target
            &&& s < d ==> (d - s) * (d - s) <= dist_sq_spec(q, target) <= (d - s + 4) * (d - s + 4)
        }),
{
    let d2 = dist_sq_spec(p.pos, target);
    let d = floor_sqrt(d2);
    let s = step_length(p.speed, dt_ms);
    if s < d {
        let dx = target.x - p.pos.x;
        let dy = target.y - p.pos.y;
        let dz = target.z - p.pos.z;
        let ax = abs_int(dx as int);
        let ay = abs_int(dy as int);
        let az = abs_int(dz as int);
        assert(0 <= s) by (nonlinear_arith)
            requires
                0 <= p.speed,
                0 <= dt_ms,
                s == (p.speed * dt_ms) / 1000,
        ;
        assert(ax * ax == dx * dx && ay * ay == dy * dy && az * az == dz * dz) by (nonlinear_arith)
            requires
                ax == abs_int(dx as int),
                ay == abs_int(dy as int),
                az == abs_int(dz as int),
        ;
        assert(0 <= dx * dx <= d2 && 0 <= dy * dy <= d2 && 0 <= dz * dz <= d2) by (nonlinear_arith)
            requires
                d2 == dx * dx + dy * dy + dz * dz,
        ;
        lemma_floor_sqrt_exists(d2);
        assert(d * d <= d2 < (d + 1) * (d + 1));
        assert(ax <= d && ay <= d && az <= d) by (nonlinear_arith)
            requires
                0 <= ax,
                0 <= ay,
                0 <= az,
                0 <= d,
                ax * ax < (d + 1) * (d + 1),
                ay * ay < (d + 1) * (d + 1),
                az * az < (d + 1) * (d + 1),
        ;
        lemma_axis_gap(ax, s, d);
        lemma_axis_gap(ay, s, d);
        lemma_axis_gap(az, s, d);
        lemma_axis_coord(p.pos.x as int, target.x as int, s, d);
        lemma_axis_coord(p.pos.y as int, target.y as int, s, d);
        lemma_axis_coord(p.pos.z as int, target.z as int, s, d);
        lemma_advance_between(p.pos.x as int, target.x as int, s, d);
        lemma_advance_between(p.pos.y as int, target.y as int, s, d);
        lemma_advance_between(p.pos.z as int, target.z as int, s, d);
        let q = chase_spec(p, target, obstacles, dt_ms).pos;
        let rx = ax - (ax * s) / d;
        let ry = ay - (ay * s) / d;
        let rz = az - (az * s) / d;
        let x2 = dist_sq_spec(q, target);
        assert(x2 == rx * rx + ry * ry + rz * rz);
        let k = d - s;
        assert((d + 1) * (d + 1) == d * d + 2 * d + 1) by (nonlinear_arith);
        assert(d * d * x2 >= d2 * (k * k) && d * d * x2 <= d2 * (k * k) + 6 * k * (d * d) + 3 * (d * d))
            by (nonlinear_arith)
            requires
                x2 == rx * rx + ry * ry + rz * rz,
                d2 == ax * ax + ay * ay + az * az,
                d * d * (rx * rx) >= (ax * ax) * (k * k),
                d * d * (ry * ry) >= (ay * ay) * (k * k),
                d * d * (rz * rz) >= (az * az) * (k * k),
                d * d * (rx * rx) <= (ax * ax) * (k * k) + 2 * k * (d * d) + d * d,
                d * d * (ry * ry) <= (ay * ay) * (k * k) + 2 * k * (d * d) + d * d,
                d * d * (rz * rz) <= (az * az) * (k * k) + 2 * k * (d * d) + d * d,
        ;
        assert(k * k <= x2 <= (k + 4) * (k + 4)) by (nonlinear_arith)
            requires
                d * d * x2 >= d2 * (k * k),
                d * d * x2 <= d2 * (k * k) + 6 * k * (d * d) + 3 * (d * d),
                d * d <= d2,
                d2 <= d * d + 2 * d,
                1 <= k <= d,
        ;
    }
}

/// A chase step keeps a pursuer in range well-formed, in range, at its speed,
/// and no farther from the target.
proof fn lemma_chase_keeps_range(p: Pursuer, target: Point3, obstacles: Seq<Obstacle>, dt_ms: i64)
    requires
        p.wf(),
        target.in_world(),
        frame_ok(dt_ms),
        in_range(p.pos, target),
    ensures
        chase_spec(p, target, obstacles, dt_ms).wf(),
        chase_spec(p, target, obstacles, dt_ms).speed == p.speed,
        dist_sq_spec(chase_spec(p, target, obstacles, dt_ms).pos, target) <= dist_sq_spec(p.pos, target),
        in_range(chase_spec(p, target, obstacles, dt_ms).pos, target),
{
    lemma_pursuit_no_overshoot(p, target, obstacles, dt_ms);
    let q = chase_spec(p, target, obstacles, dt_ms).pos;
    let ox = target.x - p.pos.x;
    let oy = target.y - p.pos.y;
    let oz = target.z - p.pos.z;
    let nx = target.x - q.x;
    let ny = target.y - q.y;
    let nz = target.z - q.z;
    assert(nx * nx <= ox * ox && ny * ny <= oy * oy && nz * nz <= oz * oz) by (nonlinear_arith)
        requires
            (0 <= nx <= ox) || (ox <= nx <= 0),
            (0 <= ny <= oy) || (oy <= ny <= 0),
            (0 <= nz <= oz) || (oz <= nz <= 0),
    ;
}

/// Over any run of frames, a pursuer that starts in range closes in on a
/// still target by the distance its steps cover, losing at most four
/// milli-units to rounding in each frame: its distance left (rounded down) is
/// at most the starting distance less the distance covered, or zero, plus
/// four milli-units per frame.
pub proof fn lemma_pursuit_converges(p: Pursuer, target: Point3, obstacles: Seq<Obstacle>, frames: Seq<i64>)
    requires
        p.wf(),
        target.in_world(),
        in_range(p.pos, target),
        all_frames_ok(frames),
    ensures
        ({
            let q = pursue_after(p, target, obstacles, frames);
            let left = floor_sqrt(dist_sq_spec(p.pos, target)) - steps_total(p.speed, frames);
            &&& q.wf()
            &&& q.speed == p.speed
            &&& in_range(q.pos, target)
            &&& 0 <= floor_sqrt(dist_sq_spec(q.pos, target)) <= (if left > 0 { left } else { 0 }) + 4
                * frames.len()
        }),
    decreases frames.len(),
{
    let d2 = dist_sq_spec(p.pos, target);
    let dx = target.x - p.pos.x;
    let dy = target.y - p.pos.y;
    let dz = target.z - p.pos.z;
    assert(0 <= d2) by (nonlinear_arith)
        requires
            d2 == dx * dx + dy * dy + dz * dz,
    ;
    lemma_floor_sqrt_exists(d2);
    if frames.len() > 0 {
        let init = frames.drop_last();
        let f = frames.last();
        assert(f == frames[frames.len() - 1]);
        assert forall|i: int| 0 <= i < init.len() implies frame_ok(#[trigger] init[i]) by {
            assert(init[i] == frames[i]);
        }
        lemma_pursuit_converges(p, target, obstacles, init);
        let q = pursue_after(p, target, obstacles, init);
        lemma_chase_keeps_range(q, target, obstacles, f);
        lemma_pursuit_gap(q, target, obstacles, f);
        let nq = chase_spec(q, target, obstacles, f);
        let d = floor_sqrt(dist_sq_spec(q.pos, target));
        let st = step_length(q.speed, f);
        assert(0 <= st) by (nonlinear_arith)
            requires
                0 <= q.speed,
                0 <= f,
                st == (q.speed * f) / 1000,
        ;
        let n2 = dist_sq_spec(nq.pos, target);
        let ex = target.x - nq.pos.x;
        let ey = target.y - nq.pos.y;
        let ez = target.z - nq.pos.z;
        assert(0 <= n2) by (nonlinear_arith)
            requires
                n2 == ex * ex + ey * ey + ez * ez,
        ;
        lemma_floor_sqrt_exists(n2);
        let nd = floor_sqrt(n2);
        if st >= d {
            assert(nq.pos == target);
            assert(ex == 0 && ey == 0 && ez == 0);
            assert(n2 == 0) by (nonlinear_arith)
                requires
                    n2 == ex * ex + ey * ey + ez * ez,
                    ex == 0,
                    ey == 0,
                    ez == 0,
            ;
            crate::geometry::lemma_floor_sqrt_of(0, 0);
        } else {
            assert(nd <= d - st + 4) by (nonlinear_arith)
                requires
                    0 <= nd,
                    nd * nd <= n2,
                    n2 <= (d - st + 4) * (d - st + 4),
                    0 <= d - st,
            ;
        }
    } else {
        crate::geometry::lemma_floor_sqrt_of(d2, floor_sqrt(d2));
    }
}

} // verus!
