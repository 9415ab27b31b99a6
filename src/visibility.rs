use vstd::prelude::*;
use vstd::arithmetic::div_mod::lemma_fundamental_div_mod_converse;
use crate::geometry::{Point3, Obstacle, WORLD_LIMIT, MILLI, coord_ok, dist_sq_spec, floor_sqrt, distance};

verus! {

/// Spacing of the sample points along a sight line: two world units.
pub const SAMPLE_SPACING: i64 = 2 * MILLI;

/// How many points of the segment are tested: one per started sampling step,
/// plus one, so never fewer than one.
pub open spec fn sample_count(from: Point3, to: Point3) -> int {
    floor_sqrt(dist_sq_spec(from, to)) / (SAMPLE_SPACING as int) + 1
}

/// The point `i` of `m` equal steps from `a` to `b`, rounded down. The
/// coordinates are shifted by the world limit so that the weighted sum is
/// non-negative.
pub open spec fn lerp(a: int, b: int, i: int, m: int) -> int {
    ((a + WORLD_LIMIT) * (m - i) + (b + WORLD_LIMIT) * i) / m - WORLD_LIMIT
}

/// Coordinate of sample `i` of `n`, evenly spaced with both endpoints
/// included; a single sample stands at the start.
pub open spec fn sample_coord(a: int, b: int, i: int, n: int) -> int {
    lerp(a, b, i, if n > 1 { n - 1 } else { 1 })
}

/// The obstacle's box holds sample `i` of `n` on the segment.
pub open spec fn blocks(o: Obstacle, from: Point3, to: Point3, i: int, n: int) -> bool {
    o.contains_spec(
        sample_coord(from.x as int, to.x as int, i, n),
        sample_coord(from.y as int, to.y as int, i, n),
        sample_coord(from.z as int, to.z as int, i, n),
    )
}

/// The sight line is clear: no sample point lies in any obstacle.
pub open spec fn line_of_sight_spec(from: Point3, to: Point3, obstacles: Seq<Obstacle>) -> bool {
    !exists|i: int, k: int|
        0 <= i < sample_count(from, to) && 0 <= k < obstacles.len() && #[trigger] blocks(
            obstacles[k],
            from,
            to,
            i,
            sample_count(from, to),
        )
}

pub open spec fn all_wf(obstacles: Seq<Obstacle>) -> bool {
    forall|k: int| 0 <= k < obstacles.len() ==> (#[trigger] obstacles[k]).wf()
}

pub open spec fn min_int(a: int, b: int) -> int {
    if a <= b { a } else { b }
}

pub open spec fn max_int(a: int, b: int) -> int {
    if a <= b { b } else { a }
}

/// A point of `m` steps lies between the endpoints.
pub proof fn lemma_lerp_between(a: int, b: int, i: int, m: int)
    requires
        coord_ok(a),
        coord_ok(b),
        0 <= i <= m,
        1 <= m,
    ensures
        min_int(a, b) <= lerp(a, b, i, m) <= max_int(a, b),
{
    let aa = a + WORLD_LIMIT;
    let bb = b + WORLD_LIMIT;
    let s = aa * (m - i) + bb * i;
    let lo = min_int(aa, bb);
    let hi = max_int(aa, bb);
    assert(lo * m <= s <= hi * m) by (nonlinear_arith)
        requires
            s == aa * (m - i) + bb * i,
            lo == min_int(aa, bb),
            hi == max_int(aa, bb),
            0 <= i <= m,
    ;
    assert(lo <= s / m <= hi) by (nonlinear_arith)
        requires
            lo * m <= s <= hi * m,
            1 <= m,
    ;
}

/// The middle sample of an odd count stands at the midpoint, rounded down.
pub proof fn lemma_lerp_middle(a: int, b: int, h: int)
    requires
        coord_ok(a),
        coord_ok(b),
        1 <= h,
    ensures
        lerp(a, b, h, 2 * h) == (a + b) / 2,
{
    let t = a + WORLD_LIMIT + b + WORLD_LIMIT;
    let q = t / 2;
    let r = t % 2;
    assert((a + WORLD_LIMIT) * (2 * h - h) + (b + WORLD_LIMIT) * h == t * h) by (nonlinear_arith)
        requires
            t == a + WORLD_LIMIT + b + WORLD_LIMIT,
    ;
    assert(t * h == q * (2 * h) + r * h && 0 <= r * h < 2 * h) by (nonlinear_arith)
        requires
            t == q * 2 + r,
            0 <= r < 2,
            1 <= h,
    ;
    lemma_fundamental_div_mod_converse(t * h, 2 * h, q, r * h);
}

/// Coordinate of a sample point, as `lerp` states it.
pub fn lerp_coord(a: i64, b: i64, i: i64, m: i64) -> (r: i64)
    requires
        coord_ok(a as int),
        coord_ok(b as int),
        0 <= i <= m,
        1 <= m <= 2_000_000,
    ensures
        r == lerp(a as int, b as int, i as int, m as int),
        coord_ok(r as int),
{
    proof {
        lemma_lerp_between(a as int, b as int, i as int, m as int);
        assert(0 <= (a + WORLD_LIMIT) * (m - i) <= 200_000_000 * 2_000_000) by (nonlinear_arith)
            requires
                0 <= a + WORLD_LIMIT <= 200_000_000,
                0 <= m - i <= 2_000_000,
        ;
        assert(0 <= (b + WORLD_LIMIT) * i <= 200_000_000 * 2_000_000) by (nonlinear_arith)
            requires
                0 <= b + WORLD_LIMIT <= 200_000_000,
                0 <= i <= 2_000_000,
        ;
    }
    ((a + WORLD_LIMIT) * (m - i) + (b + WORLD_LIMIT) * i) / m - WORLD_LIMIT
}

/// Whether the straight segment from `from` to `to` is clear of every
/// obstacle box. The segment is tested at evenly spaced points about two
/// units apart, so a box thinner than that step may slip between two samples.
pub fn has_line_of_sight(from: Point3, to: Point3, obstacles: &Vec<Obstacle>) -> (r: bool)
    requires
        from.in_world(),
        to.in_world(),
        all_wf(obstacles@),
    ensures
        r == line_of_sight_spec(from, to, obstacles@),
        obstacles@.len() == 0 ==> r,
{
    if obstacles.len() == 0 {
        return true;
    }
    let d = distance(from, to);
    let n: i64 = d / SAMPLE_SPACING + 1;
    let m: i64 = if n > 1 { n - 1 } else { 1 };
    let ghost cnt = sample_count(from, to);
    assert(n == cnt);
    let mut i: i64 = 0;
    while i < n
        invariant
            0 <= i <= n,
            n == cnt,
            cnt == sample_count(from, to),
            1 <= m <= 2_000_000,
            m == (if n > 1 { n - 1 } else { 1 }),
            from.in_world(),
            to.in_world(),
            all_wf(obstacles@),
            forall|j: int, k: int|
                0 <= j < i && 0 <= k < obstacles@.len() ==> !#[trigger] blocks(
                    obstacles@[k],
                    from,
                    to,
                    j,
                    cnt,
                ),
        decreases n - i,
    {
        let p = Point3 {
            x: lerp_coord(from.x, to.x, i, m),
            y: lerp_coord(from.y, to.y, i, m),
            z: lerp_coord(from.z, to.z, i, m),
        };
        let mut k: usize = 0;
        while k < obstacles.len()
            invariant
                0 <= i < n,
                n == cnt,
                cnt == sample_count(from, to),
                p.in_world(),
                p.x == sample_coord(from.x as int, to.x as int, i as int, cnt),
                p.y == sample_coord(from.y as int, to.y as int, i as int, cnt),
                p.z == sample_coord(from.z as int, to.z as int, i as int, cnt),
                all_wf(obstacles@),
                forall|kk: int|
                    0 <= kk < k ==> !#[trigger] blocks(obstacles@[kk], from, to, i as int, cnt),
            decreases obstacles.len() - k,
        {
            if obstacles[k].contains(p) {
                assert(blocks(obstacles@[k as int], from, to, i as int, cnt));
                return false;
            }
            k += 1;
        }
        i += 1;
    }
    true
}

/// With no obstacles at all, every sight line is clear.
pub proof fn lemma_clear_without_obstacles(from: Point3, to: Point3)
    ensures
        line_of_sight_spec(from, to, Seq::<Obstacle>::empty()),
{
}

/// The box lies wholly outside the segment's bounding box on some axis.
pub open spec fn outside_bounds(o: Obstacle, from: Point3, to: Point3) -> bool {
    o.center.x + o.half.x < min_int(from.x as int, to.x as int) || o.center.x - o.half.x > max_int(
        from.x as int,
        to.x as int,
    ) || o.center.y + o.half.y < min_int(from.y as int, to.y as int) || o.center.y - o.half.y
        > max_int(from.y as int, to.y as int) || o.center.z + o.half.z < min_int(
        from.z as int,
        to.z as int,
    ) || o.center.z - o.half.z > max_int(from.z as int, to.z as int)
}

/// Obstacles that all lie outside the segment's bounding box never block the
/// sight line: every sample point lies within that bounding box.
pub proof fn lemma_clear_outside_bounds(from: Point3, to: Point3, obstacles: Seq<Obstacle>)
    requires
        from.in_world(),
        to.in_world(),
        forall|k: int| 0 <= k < obstacles.len() ==> outside_bounds(#[trigger] obstacles[k], from, to),
    ensures
        line_of_sight_spec(from, to, obstacles),
{
    let n = sample_count(from, to);
    assert forall|i: int, k: int| 0 <= i < n && 0 <= k < obstacles.len() implies !#[trigger] blocks(
        obstacles[k],
        from,
        to,
        i,
        n,
    ) by {
        let m = if n > 1 { n - 1 } else { 1 };
        lemma_lerp_between(from.x as int, to.x as int, i, m);
        lemma_lerp_between(from.y as int, to.y as int, i, m);
        lemma_lerp_between(from.z as int, to.z as int, i, m);
        assert(outside_bounds(obstacles[k], from, to));
    }
}

/// A box that holds the midpoint of the segment blocks the sight line when
/// the number of samples is odd and above one, since the middle sample then
/// stands at the midpoint. With an even count the midpoint is not sampled
/// and a small box around it can go unseen.
pub proof fn lemma_blocked_at_midpoint(from: Point3, to: Point3, obstacles: Seq<Obstacle>, k: int)
    requires
        from.in_world(),
        to.in_world(),
        0 <= k < obstacles.len(),
        sample_count(from, to) >= 3,
        sample_count(from, to) % 2 == 1,
        obstacles[k].contains_spec(
            (from.x + to.x) / 2,
            (from.y + to.y) / 2,
            (from.z + to.z) / 2,
        ),
    ensures
        !line_of_sight_spec(from, to, obstacles),
{
    let n = sample_count(from, to);
    let h = (n - 1) / 2;
    lemma_lerp_middle(from.x as int, to.x as int, h);
    lemma_lerp_middle(from.y as int, to.y as int, h);
    lemma_lerp_middle(from.z as int, to.z as int, h);
    assert(blocks(obstacles[k], from, to, h, n));
}

} // verus!
