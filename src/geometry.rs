use vstd::prelude::*;

verus! {

/// Number of fixed-point steps in one world unit: every coordinate, distance
/// and extent of the simulation is a whole number of milli-units.
pub const MILLI: i64 = 1000;

/// Largest magnitude of a coordinate: a square of 100 km around the origin.
pub const WORLD_LIMIT: i64 = 100_000_000;

/// A position or offset in 3D space, in milli-units.
#[derive(Clone, Copy, Debug, PartialEq, Eq, Structural)]
pub struct Point3 {
    pub x: i64,
    pub y: i64,
    pub z: i64,
}

pub open spec fn coord_ok(c: int) -> bool {
    -WORLD_LIMIT <= c <= WORLD_LIMIT
}

impl Point3 {
    /// Every coordinate lies within the world limit.
    pub open spec fn in_world(self) -> bool {
        coord_ok(self.x as int) && coord_ok(self.y as int) && coord_ok(self.z as int)
    }

    pub fn new(x: i64, y: i64, z: i64) -> (r: Point3)
        ensures
            r == (Point3 { x, y, z }),
    {
        Point3 { x, y, z }
    }
}

/// Squared Euclidean distance between two points.
pub open spec fn dist_sq_spec(a: Point3, b: Point3) -> int {
    let dx = b.x - a.x;
    let dy = b.y - a.y;
    let dz = b.z - a.z;
    dx * dx + dy * dy + dz * dz
}

/// Largest squared distance between two points of the world: three axes,
/// each spanning twice the world limit.
pub open spec fn max_dist_sq() -> int {
    120_000_000_000_000_000
}

pub proof fn lemma_square_bound(d: int)
    requires
        -2 * WORLD_LIMIT <= d <= 2 * WORLD_LIMIT,
    ensures
        0 <= d * d <= 40_000_000_000_000_000,
{
    assert(0 <= d * d <= 200_000_000 * 200_000_000) by (nonlinear_arith)
        requires
            -200_000_000 <= d <= 200_000_000,
    ;
}

pub fn dist_sq(a: Point3, b: Point3) -> (r: i64)
    requires
        a.in_world(),
        b.in_world(),
    ensures
        r == dist_sq_spec(a, b),
        0 <= r <= max_dist_sq(),
{
    let dx = b.x - a.x;
    let dy = b.y - a.y;
    let dz = b.z - a.z;
    proof {
        lemma_square_bound(dx as int);
        lemma_square_bound(dy as int);
        lemma_square_bound(dz as int);
    }
    dx * dx + dy * dy + dz * dz
}

/// `r` is the integer square root of `n`: the largest whole number whose
/// square does not exceed `n`.
pub open spec fn is_floor_sqrt(n: int, r: int) -> bool {
    0 <= r && r * r <= n < (r + 1) * (r + 1)
}

pub open spec fn floor_sqrt(n: int) -> int {
    choose|r: int| is_floor_sqrt(n, r)
}

pub proof fn lemma_floor_sqrt_unique(n: int, r1: int, r2: int)
    requires
        is_floor_sqrt(n, r1),
        is_floor_sqrt(n, r2),
    ensures
        r1 == r2,
{
    if r1 < r2 {
        assert((r1 + 1) * (r1 + 1) <= r2 * r2) by (nonlinear_arith)
            requires
                0 <= r1 + 1 <= r2,
        ;
    } else if r2 < r1 {
        assert((r2 + 1) * (r2 + 1) <= r1 * r1) by (nonlinear_arith)
            requires
                0 <= r2 + 1 <= r1,
        ;
    }
}

pub proof fn lemma_floor_sqrt_of(n: int, r: int)
    requires
        is_floor_sqrt(n, r),
    ensures
        floor_sqrt(n) == r,
{
    assert(is_floor_sqrt(n, r));
    let c = floor_sqrt(n);
    lemma_floor_sqrt_unique(n, c, r);
}

/// Every non-negative number has an integer square root.
pub proof fn lemma_floor_sqrt_exists(n: int)
    requires
        0 <= n,
    ensures
        is_floor_sqrt(n, floor_sqrt(n)),
    decreases n,
{
    if n == 0 {
        assert(is_floor_sqrt(0, 0));
    } else {
        lemma_floor_sqrt_exists(n - 1);
        let r = floor_sqrt(n - 1);
        if (r + 1) * (r + 1) <= n {
            assert(n < (r + 2) * (r + 2)) by (nonlinear_arith)
                requires
                    n - 1 < (r + 1) * (r + 1),
                    0 <= r,
            ;
            assert(is_floor_sqrt(n, r + 1));
        } else {
            assert(is_floor_sqrt(n, r));
        }
    }
}

/// Integer square root, by bisection.
pub fn isqrt(n: i64) -> (r: i64)
    requires
        0 <= n <= 0x4000_0000_0000_0000,
    ensures
        is_floor_sqrt(n as int, r as int),
        r == floor_sqrt(n as int),
        0 <= r <= 0x8000_0000,
{
    let mut lo: i64 = 0;
    let mut hi: i64 = 0x8000_0001;
    assert(0x8000_0001 * 0x8000_0001 > 0x4000_0000_0000_0000) by (nonlinear_arith);
    while hi - lo > 1
        invariant
            0 <= lo < hi <= 0x8000_0001,
            lo * lo <= n,
            n < hi * hi,
        decreases hi - lo,
    {
        let mid: i64 = lo + (hi - lo) / 2;
        assert(mid * mid <= 0x8000_0000 * 0x8000_0000) by (nonlinear_arith)
            requires
                0 <= mid <= 0x8000_0000,
        ;
        if mid * mid <= n {
            lo = mid;
        } else {
            hi = mid;
        }
    }
    proof {
        lemma_floor_sqrt_of(n as int, lo as int);
    }
    lo
}

/// Euclidean distance between two points, rounded down to a milli-unit.
pub fn distance(a: Point3, b: Point3) -> (r: i64)
    requires
        a.in_world(),
        b.in_world(),
    ensures
        r == floor_sqrt(dist_sq_spec(a, b)),
        is_floor_sqrt(dist_sq_spec(a, b), r as int),
        0 <= r <= 0x8000_0000,
{
    let d = dist_sq(a, b);
    isqrt(d)
}

/// A world-space axis-aligned box: the owner's position and its half extent on
/// each axis.
#[derive(Clone, Copy, Debug, PartialEq, Eq, Structural)]
pub struct Obstacle {
    pub center: Point3,
    pub half: Point3,
}

impl Obstacle {
    /// The half extent is non-negative on every axis and the box lies in the
    /// world.
    pub open spec fn wf(self) -> bool {
        self.center.in_world() && self.half.in_world() && self.half.x >= 0 && self.half.y >= 0
            && self.half.z >= 0
    }

    pub open spec fn contains_spec(self, x: int, y: int, z: int) -> bool {
        self.center.x - self.half.x <= x <= self.center.x + self.half.x
            && self.center.y - self.half.y <= y <= self.center.y + self.half.y
            && self.center.z - self.half.z <= z <= self.center.z + self.half.z
    }

    /// Whether the point lies in the closed box.
    pub fn contains(&self, p: Point3) -> (r: bool)
        requires
            self.wf(),
            p.in_world(),
        ensures
            r == self.contains_spec(p.x as int, p.y as int, p.z as int),
    {
        let c = self.center;
        let h = self.half;
        c.x - h.x <= p.x && p.x <= c.x + h.x && c.y - h.y <= p.y && p.y <= c.y + h.y && c.z - h.z
            <= p.z && p.z <= c.z + h.z
    }
}

} // verus!
