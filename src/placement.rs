use vstd::prelude::*;
use vstd::wrapping::u64_specs::{wrapping_add, wrapping_mul};
use crate::geometry::{WORLD_LIMIT, floor_sqrt, isqrt, lemma_floor_sqrt_exists};

verus! {

/// Increment of the SplitMix64 generator's state.
pub const GOLDEN_GAMMA: u64 = 0x9E37_79B9_7F4A_7C15;

/// Next state of the SplitMix64 generator.
pub open spec fn rng_step(s: u64) -> u64 {
    wrapping_add(s, GOLDEN_GAMMA)
}

/// SplitMix64's output for a state: two xor-shift-multiply rounds and a final
/// xor-shift.
#[verifier::opaque]
pub open spec fn rng_mix(s: u64) -> u64 {
    let a = wrapping_mul(s ^ (s >> 30u64), 0xBF58_476D_1CE4_E5B9);
    let b = wrapping_mul(a ^ (a >> 27u64), 0x94D0_49BB_1331_11EB);
    b ^ (b >> 31u64)
}

/// The SplitMix64 pseudo-random generator: each draw advances the state by a
/// fixed odd constant and scrambles it. The same seed always yields the same
/// stream.
#[derive(Clone, Copy, Debug, PartialEq, Eq, Structural)]
pub struct SplitMix64 {
    pub state: u64,
}

impl SplitMix64 {
    pub fn new(seed: u64) -> (r: SplitMix64)
        ensures
            r.state == seed,
    {
        SplitMix64 { state: seed }
    }

    /// Draws the next 64-bit value.
    pub fn next_u64(&mut self) -> (r: u64)
        ensures
            final(self).state == rng_step(old(self).state),
            r == rng_mix(final(self).state),
    {
        proof {
            reveal(rng_mix);
        }
        self.state = self.state.wrapping_add(GOLDEN_GAMMA);
        let s = self.state;
        let a = (s ^ (s >> 30u64)).wrapping_mul(0xBF58_476D_1CE4_E5B9);
        let b = (a ^ (a >> 27u64)).wrapping_mul(0x94D0_49BB_1331_11EB);
        b ^ (b >> 31u64)
    }

    /// Draws a whole number in `lo..=hi`.
    pub fn next_in(&mut self, lo: i64, hi: i64) -> (r: i64)
        requires
            0 <= hi - lo <= 0x4000_0000_0000_0000,
        ensures
            final(self).state == rng_step(old(self).state),
            r == lo + (rng_mix(final(self).state) % ((hi - lo + 1) as u64)) as int,
            lo <= r <= hi,
    {
        let v = self.next_u64();
        let span = (hi - lo + 1) as u64;
        lo + (v % span) as i64
    }
}

/// A position on the ground plane, in milli-units.
#[derive(Clone, Copy, Debug, PartialEq, Eq, Structural)]
pub struct GroundPoint {
    pub x: i64,
    pub z: i64,
}

impl GroundPoint {
    pub open spec fn in_world(self) -> bool {
        -WORLD_LIMIT <= self.x <= WORLD_LIMIT && -WORLD_LIMIT <= self.z <= WORLD_LIMIT
    }
}

/// Squared distance between two ground points.
pub open spec fn ground_dist_sq(a: GroundPoint, b: GroundPoint) -> int {
    (b.x - a.x) * (b.x - a.x) + (b.z - a.z) * (b.z - a.z)
}

/// The constraints of one placement: the least distance to every point placed
/// before, the ring of radii around the origin to draw from, and how many
/// candidates to try before taking the last one anyway.
#[derive(Clone, Copy, Debug, PartialEq, Eq, Structural)]
pub struct PlacementRules {
    pub min_separation: i64,
    pub radius_min: i64,
    pub radius_max: i64,
    pub max_attempts: u32,
}

impl PlacementRules {
    pub open spec fn wf(self) -> bool {
        &&& 0 <= self.min_separation <= WORLD_LIMIT
        &&& 0 <= self.radius_min <= self.radius_max <= WORLD_LIMIT
        &&& self.max_attempts >= 1
    }
}

/// A whole number in `lo..=hi` drawn from generator state `s` (uniform up to
/// the bias of a remainder), and the state after the draw.
pub open spec fn draw_in(s: u64, lo: int, hi: int) -> (int, u64) {
    (lo + (rng_mix(rng_step(s)) % ((hi - lo + 1) as u64)) as int, rng_step(s))
}

/// Half-width of the square that directions are drawn from.
pub const DIRECTION_SPAN: i64 = 1024;

/// Directions drawn for one candidate before falling back to the x axis.
pub const DIRECTION_TRIES: u32 = 32;

/// A drawn direction is kept when it lies between half the span and the span
/// from the origin. That region looks the same from every angle, so the
/// angle of a kept direction is uniform, and its length is known to within
/// one part in 512.
pub open spec fn direction_ok(u: int, v: int) -> bool {
    512 * 512 <= u * u + v * v <= 1024 * 1024
}

/// The direction drawn from state `s` with `tries` draws left, and the state
/// after: pairs are drawn from the square until one is kept; if none is, the
/// x axis.
pub open spec fn direction_spec(s: u64, tries: nat) -> (int, int, u64)
    decreases tries,
{
    if tries == 0 {
        (1024, 0, s)
    } else {
        let u = draw_in(s, -1024, 1024);
        let v = draw_in(u.1, -1024, 1024);
        if direction_ok(u.0, v.0) {
            (u.0, v.0, v.1)
        } else {
            direction_spec(v.1, (tries - 1) as nat)
        }
    }
}

/// Component `a` of a direction of length just under `c`, stretched to
/// radius `r` and rounded toward zero.
pub open spec fn stretch(a: int, r: int, c: int) -> int {
    if a >= 0 {
        (a * r) / c
    } else {
        -((-a * r) / c)
    }
}

/// The candidate drawn from state `s`, and the state after it: a radius drawn
/// from the rules' ring, then a direction of uniform angle, stretched to that
/// radius.
pub open spec fn candidate_spec(s: u64, rules: PlacementRules) -> (GroundPoint, u64) {
    let rad = draw_in(s, rules.radius_min as int, rules.radius_max as int);
    let d = direction_spec(rad.1, DIRECTION_TRIES as nat);
    let c = floor_sqrt(d.0 * d.0 + d.1 * d.1) + 1;
    (GroundPoint { x: stretch(d.0, rad.0, c) as i64, z: stretch(d.1, rad.0, c) as i64 }, d.2)
}

/// The generator state before candidate `i` of a placement seeded with `seed`.
pub open spec fn candidate_state(seed: u64, rules: PlacementRules, i: nat) -> u64
    decreases i,
{
    if i == 0 {
        seed
    } else {
        candidate_spec(candidate_state(seed, rules, (i - 1) as nat), rules).1
    }
}

/// Candidate `i` of a placement seeded with `seed`.
pub open spec fn nth_candidate(seed: u64, rules: PlacementRules, i: nat) -> GroundPoint {
    candidate_spec(candidate_state(seed, rules, i), rules).0
}

/// The point keeps at least `min_sep` from each of `existing`.
pub open spec fn separated(p: GroundPoint, existing: Seq<GroundPoint>, min_sep: int) -> bool {
    forall|k: int| 0 <= k < existing.len() ==> ground_dist_sq(p, #[trigger] existing[k]) >= min_sep * min_sep
}

pub open spec fn all_in_world(s: Seq<GroundPoint>) -> bool {
    forall|k: int| 0 <= k < s.len() ==> (#[trigger] s[k]).in_world()
}

pub open spec fn abs_i(a: int) -> int {
    if a < 0 { -a } else { a }
}

/// Stretching one component: `c` times its size is within `c` below
/// `|a| * r`.
proof fn lemma_stretch_axis(a: int, r: int, c: int)
    requires
        -1024 <= a <= 1024,
        0 <= r,
        1 <= c,
    ensures
        c * abs_i(stretch(a, r, c)) <= abs_i(a) * r < c * (abs_i(stretch(a, r, c)) + 1),
        0 <= abs_i(stretch(a, r, c)) <= abs_i(a) * r,
{
    let b = abs_i(a);
    let m = (b * r) / c;
    assert(abs_i(stretch(a, r, c)) == m);
    vstd::arithmetic::div_mod::lemma_fundamental_div_mod(b * r, c);
    assert(0 <= (b * r) % c < c) by (nonlinear_arith)
        requires
            1 <= c,
    ;
    assert(0 <= m <= b * r) by (nonlinear_arith)
        requires
            m == (b * r) / c,
            0 <= b,
            0 <= r,
            1 <= c,
    ;
    assert(c * m <= b * r < c * (m + 1)) by (nonlinear_arith)
        requires
            b * r == c * m + (b * r) % c,
            0 <= (b * r) % c < c,
    ;
}

/// Squaring keeps the order of non-negative numbers.
proof fn lemma_square_le(p: int, q: int)
    requires
        0 <= p <= q,
    ensures
        p * p <= q * q,
{
    assert(p * p <= q * q) by (nonlinear_arith)
        requires
            0 <= p <= q,
    ;
}

/// A kept direction stretched to radius `r` lands inside the circle of that
/// radius, and outside it shrunk by one part in 513, allowing one milli-unit
/// per axis of rounding.
proof fn lemma_stretch_ring(u: int, v: int, r: int)
    requires
        direction_ok(u, v),
        -1024 <= u <= 1024,
        -1024 <= v <= 1024,
        0 <= r,
    ensures
        ({
            let c = floor_sqrt(u * u + v * v) + 1;
            let x = stretch(u, r, c);
            let z = stretch(v, r, c);
            &&& x * x + z * z <= r * r
            &&& 512 * 512 * (r * r) <= 513 * 513 * ((abs_i(x) + 1) * (abs_i(x) + 1) + (abs_i(z) + 1) * (abs_i(z)
                + 1))
            &&& abs_i(x) <= r
            &&& abs_i(z) <= r
        }),
{
    let n = u * u + v * v;
    lemma_floor_sqrt_exists(n);
    let c = floor_sqrt(n) + 1;
    assert((c - 1) * (c - 1) <= n < c * c);
    assert(c >= 513) by (nonlinear_arith)
        requires
            512 * 512 <= n < c * c,
            1 <= c,
    ;
    let x = stretch(u, r, c);
    let z = stretch(v, r, c);
    let mx = abs_i(x);
    let mz = abs_i(z);
    let a = abs_i(u);
    let b = abs_i(v);
    lemma_stretch_axis(u, r, c);
    lemma_stretch_axis(v, r, c);
    assert(a * a + b * b == n && x * x == mx * mx && z * z == mz * mz) by (nonlinear_arith)
        requires
            a == abs_i(u),
            b == abs_i(v),
            n == u * u + v * v,
            mx == abs_i(x),
            mz == abs_i(z),
    ;
    lemma_square_le(c * mx, a * r);
    lemma_square_le(c * mz, b * r);
    lemma_square_le(a * r, c * (mx + 1));
    lemma_square_le(b * r, c * (mz + 1));
    assert((c * mx) * (c * mx) == c * c * (mx * mx) && (c * mz) * (c * mz) == c * c * (mz * mz) && (a * r) * (
    a * r) == a * a * (r * r) && (b * r) * (b * r) == b * b * (r * r) && (c * (mx + 1)) * (c * (mx + 1)) == c
        * c * ((mx + 1) * (mx + 1)) && (c * (mz + 1)) * (c * (mz + 1)) == c * c * ((mz + 1) * (mz + 1)))
        by (nonlinear_arith);
    assert(c * c * (mx * mx + mz * mz) <= n * (r * r)) by (nonlinear_arith)
        requires
            c * c * (mx * mx) <= a * a * (r * r),
            c * c * (mz * mz) <= b * b * (r * r),
            a * a + b * b == n,
    ;
    assert(c * c * ((mx + 1) * (mx + 1) + (mz + 1) * (mz + 1)) >= n * (r * r)) by (nonlinear_arith)
        requires
            a * a * (r * r) <= c * c * ((mx + 1) * (mx + 1)),
            b * b * (r * r) <= c * c * ((mz + 1) * (mz + 1)),
            a * a + b * b == n,
    ;
    assert(mx * mx + mz * mz <= r * r) by (nonlinear_arith)
        requires
            c * c * (mx * mx + mz * mz) <= n * (r * r),
            n < c * c,
            1 <= c,
            0 <= r,
    ;
    let q = (mx + 1) * (mx + 1) + (mz + 1) * (mz + 1);
    assert(c * c * q >= (c - 1) * (c - 1) * (r * r)) by (nonlinear_arith)
        requires
            c * c * q >= n * (r * r),
            (c - 1) * (c - 1) <= n,
            0 <= r,
    ;
    assert(513 * 513 * ((c - 1) * (c - 1)) >= 512 * 512 * (c * c)) by (nonlinear_arith)
        requires
            c >= 513,
    ;
    assert(512 * 512 * (r * r) <= 513 * 513 * q) by (nonlinear_arith)
        requires
            c * c * q >= (c - 1) * (c - 1) * (r * r),
            513 * 513 * ((c - 1) * (c - 1)) >= 512 * 512 * (c * c),
            c >= 513,
            0 <= r,
            0 <= q,
    ;
    assert(mx <= r && mz <= r) by (nonlinear_arith)
        requires
            mx * mx + mz * mz <= r * r,
            0 <= mx,
            0 <= mz,
            0 <= r,
    ;
}

/// Draws a direction from the generator, as `direction_spec` states.
fn draw_direction(rng: &mut SplitMix64) -> (r: (i64, i64))
    ensures
        (r.0 as int, r.1 as int, final(rng).state) == direction_spec(old(rng).state, DIRECTION_TRIES as nat),
        direction_ok(r.0 as int, r.1 as int),
        -1024 <= r.0 <= 1024,
        -1024 <= r.1 <= 1024,
{
    let mut tries: u32 = DIRECTION_TRIES;
    while tries > 0
        invariant
            direction_spec(old(rng).state, DIRECTION_TRIES as nat) == direction_spec(rng.state, tries as nat),
        decreases tries,
    {
        let u = rng.next_in(-1024, 1024);
        let v = rng.next_in(-1024, 1024);
        assert(-1024 <= u <= 1024 && -1024 <= v <= 1024);
        assert(0 <= u * u <= 1024 * 1024 && 0 <= v * v <= 1024 * 1024) by (nonlinear_arith)
            requires
                -1024 <= u <= 1024,
                -1024 <= v <= 1024,
        ;
        if 512 * 512 <= u * u + v * v && u * u + v * v <= 1024 * 1024 {
            return (u, v);
        }
        tries = tries - 1;
    }
    (1024, 0)
}

/// Stretches one component of a direction to radius `r`.
fn stretch_exec(a: i64, r: i64, c: i64) -> (out: i64)
    requires
        -1024 <= a <= 1024,
        0 <= r <= WORLD_LIMIT,
        1 <= c,
    ensures
        out == stretch(a as int, r as int, c as int),
{
    assert(-1024 * 100_000_000 <= a * r <= 1024 * 100_000_000) by (nonlinear_arith)
        requires
            -1024 <= a <= 1024,
            0 <= r <= 100_000_000,
    ;
    if a >= 0 {
        (a * r) / c
    } else {
        let b = -a;
        assert(0 <= b * r <= 1024 * 100_000_000) by (nonlinear_arith)
            requires
                0 <= b <= 1024,
                0 <= r <= 100_000_000,
        ;
        -((b * r) / c)
    }
}

/// Draws one candidate from the generator, as `candidate_spec` states. It lies
/// in the rules' ring, as `in_ring` states.
pub fn draw_candidate(rng: &mut SplitMix64, rules: PlacementRules) -> (r: GroundPoint)
    requires
        rules.wf(),
    ensures
        (r, final(rng).state) == candidate_spec(old(rng).state, rules),
        r.in_world(),
        in_ring(r, rules),
{
    let rad = rng.next_in(rules.radius_min, rules.radius_max);
    let (u, v) = draw_direction(rng);
    assert(0 <= u * u <= 1024 * 1024 && 0 <= v * v <= 1024 * 1024) by (nonlinear_arith)
        requires
            -1024 <= u <= 1024,
            -1024 <= v <= 1024,
    ;
    let c = isqrt(u * u + v * v) + 1;
    let x = stretch_exec(u, rad, c);
    let z = stretch_exec(v, rad, c);
    proof {
        lemma_stretch_ring(u as int, v as int, rad as int);
        let rmin = rules.radius_min as int;
        let rmax = rules.radius_max as int;
        let q = (abs_i(x as int) + 1) * (abs_i(x as int) + 1) + (abs_i(z as int) + 1) * (abs_i(z as int) + 1);
        assert(rad * rad <= rmax * rmax && rmin * rmin <= rad * rad) by (nonlinear_arith)
            requires
                0 <= rmin <= rad <= rmax,
        ;
    }
    GroundPoint { x, z }
}

fn ground_dist_sq_exec(a: GroundPoint, b: GroundPoint) -> (r: i64)
    requires
        a.in_world(),
        b.in_world(),
    ensures
        r == ground_dist_sq(a, b),
{
    let dx = b.x - a.x;
    let dz = b.z - a.z;
    assert(0 <= dx * dx <= 40_000_000_000_000_000) by (nonlinear_arith)
        requires
            -200_000_000 <= dx <= 200_000_000,
    ;
    assert(0 <= dz * dz <= 40_000_000_000_000_000) by (nonlinear_arith)
        requires
            -200_000_000 <= dz <= 200_000_000,
    ;
    dx * dx + dz * dz
}

/// Whether `p` keeps at least `min_sep` from every point of `existing`.
pub fn is_separated(p: GroundPoint, existing: &Vec<GroundPoint>, min_sep: i64) -> (r: bool)
    requires
        p.in_world(),
        all_in_world(existing@),
        0 <= min_sep <= WORLD_LIMIT,
    ensures
        r == separated(p, existing@, min_sep as int),
{
    let mut k: usize = 0;
    while k < existing.len()
        invariant
            0 <= k <= existing@.len(),
            p.in_world(),
            all_in_world(existing@),
            0 <= min_sep <= WORLD_LIMIT,
            forall|j: int| 0 <= j < k ==> ground_dist_sq(p, #[trigger] existing@[j]) >= min_sep * min_sep,
        decreases existing.len() - k,
    {
        let d = ground_dist_sq_exec(p, existing[k]);
        assert(min_sep * min_sep <= 10_000_000_000_000_000) by (nonlinear_arith)
            requires
                0 <= min_sep <= 100_000_000,
        ;
        if d < min_sep * min_sep {
            return false;
        }
        k += 1;
    }
    true
}

/// The point lies in the rules' ring of distances from the origin: within
/// the outer circle, and outside the inner circle shrunk by one part in 513,
/// allowing one milli-unit of rounding per axis.
pub open spec fn in_ring(p: GroundPoint, rules: PlacementRules) -> bool {
    &&& p.x * p.x + p.z * p.z <= rules.radius_max * rules.radius_max
    &&& 512 * 512 * (rules.radius_min * rules.radius_min) <= 513 * 513 * ((abs_i(p.x as int) + 1) * (abs_i(
        p.x as int,
    ) + 1) + (abs_i(p.z as int) + 1) * (abs_i(p.z as int) + 1))
}

/// Index of the candidate a placement takes, searching from candidate `i`:
/// the first far enough from all of `existing`, or else the last one tried.
pub open spec fn chosen_index(seed: u64, rules: PlacementRules, existing: Seq<GroundPoint>, i: nat) -> nat
    decreases rules.max_attempts - i,
{
    if i + 1 >= rules.max_attempts || separated(nth_candidate(seed, rules, i), existing, rules.min_separation as int) {
        i
    } else {
        chosen_index(seed, rules, existing, i + 1)
    }
}

/// The outcome of a placement seeded with `seed`: the chosen candidate; the
/// number of candidates turned down before it, or all of them when even the
/// last was too close; and the generator state after it.
pub open spec fn placement_spec(existing: Seq<GroundPoint>, rules: PlacementRules, seed: u64) -> Placement {
    let i = chosen_index(seed, rules, existing, 0);
    let p = nth_candidate(seed, rules, i);
    Placement {
        point: p,
        rejections: if separated(p, existing, rules.min_separation as int) {
            i as u32
        } else {
            rules.max_attempts
        },
        next_seed: candidate_state(seed, rules, i + 1),
    }
}

/// The outcome of a placement: the point taken, how many candidates were
/// turned down before it, and the generator state to continue from.
#[derive(Clone, Copy, Debug, PartialEq, Eq, Structural)]
pub struct Placement {
    pub point: GroundPoint,
    pub rejections: u32,
    pub next_seed: u64,
}

/// Samples a position in the rules' ring that keeps the least separation
/// from every point placed before, by rejection: candidates are drawn from
/// the generator seeded with `seed` until one is far enough from all of
/// `existing`. After `max_attempts` rejections the last candidate is taken
/// anyway, so placement never fails. With nothing placed before, the first
/// candidate is taken.
pub fn sample_position(existing: &Vec<GroundPoint>, rules: PlacementRules, seed: u64) -> (r: Placement)
    requires
        rules.wf(),
        all_in_world(existing@),
    ensures
        r.point.in_world(),
        r.rejections <= rules.max_attempts,
        separated(r.point, existing@, rules.min_separation as int) || r.rejections == rules.max_attempts,
        r.rejections < rules.max_attempts ==> r.point == nth_candidate(seed, rules, r.rejections as nat)
            && r.next_seed == candidate_state(seed, rules, (r.rejections + 1) as nat),
        r.rejections == rules.max_attempts ==> r.point == nth_candidate(
            seed,
            rules,
            (rules.max_attempts - 1) as nat,
        ) && r.next_seed == candidate_state(seed, rules, rules.max_attempts as nat),
        forall|j: nat|
            j < r.rejections ==> !separated(
                #[trigger] nth_candidate(seed, rules, j),
                existing@,
                rules.min_separation as int,
            ),
        existing@.len() == 0 ==> r.rejections == 0,
        r == placement_spec(existing@, rules, seed),
        in_ring(r.point, rules),
        r.rejections == rules.max_attempts <==> forall|j: nat|
            j < rules.max_attempts ==> !separated(
                #[trigger] nth_candidate(seed, rules, j),
                existing@,
                rules.min_separation as int,
            ),
{
    let mut rng = SplitMix64::new(seed);
    let mut attempt: u32 = 0;
    loop
        invariant
            rules.wf(),
            all_in_world(existing@),
            attempt < rules.max_attempts,
            rng.state == candidate_state(seed, rules, attempt as nat),
            forall|j: nat|
                j < attempt ==> !separated(
                    #[trigger] nth_candidate(seed, rules, j),
                    existing@,
                    rules.min_separation as int,
                ),
            existing@.len() == 0 ==> attempt == 0,
            chosen_index(seed, rules, existing@, 0) == chosen_index(seed, rules, existing@, attempt as nat),
        decreases rules.max_attempts - attempt,
    {
        let ghost before = rng.state;
        let p = draw_candidate(&mut rng, rules);
        assert(candidate_state(seed, rules, (attempt + 1) as nat) == rng.state);
        if is_separated(p, existing, rules.min_separation) {
            return Placement { point: p, rejections: attempt, next_seed: rng.state };
        }
        assert(attempt + 1 < rules.max_attempts ==> chosen_index(seed, rules, existing@, attempt as nat)
            == chosen_index(seed, rules, existing@, (attempt + 1) as nat));
        attempt = attempt + 1;
        if attempt == rules.max_attempts {
            return Placement { point: p, rejections: attempt, next_seed: rng.state };
        }
    }
}

} // verus!
