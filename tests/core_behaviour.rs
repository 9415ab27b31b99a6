use pursuit_sim::combat::{resolve_contacts, Health, AGENT_MAX_HEALTH};
use pursuit_sim::effects::{update_footsteps, update_smoke, Footstep, SmokeParticle};
use pursuit_sim::geometry::{distance, isqrt, Obstacle, Point3};
use pursuit_sim::placement::{sample_position, GroundPoint, PlacementRules, SplitMix64};
use pursuit_sim::pursuit::{chase, Pursuer, DEFAULT_SPEED};
use pursuit_sim::simulation::{Agent, World};
use pursuit_sim::spawner::{RepeatingTimer, Spawner, PURSUER_CAP, SPAWN_PERIOD_MS};
use pursuit_sim::visibility::has_line_of_sight;

fn p(x: i64, y: i64, z: i64) -> Point3 {
    Point3::new(x, y, z)
}

fn in_ring(x: i64, z: i64, lo: i64, hi: i64) -> bool {
    let q = (x.abs() + 1) * (x.abs() + 1) + (z.abs() + 1) * (z.abs() + 1);
    x * x + z * z <= hi * hi && 512 * 512 * lo * lo <= 513 * 513 * q
}

fn cube(center: Point3, half: i64) -> Obstacle {
    Obstacle { center, half: p(half, half, half) }
}

#[test]
fn integer_square_root() {
    assert_eq!(isqrt(0), 0);
    assert_eq!(isqrt(1), 1);
    assert_eq!(isqrt(15), 3);
    assert_eq!(isqrt(16), 4);
    assert_eq!(isqrt(17), 4);
    assert_eq!(isqrt(2_500_000_000), 50_000);
    assert_eq!(isqrt(0x4000_0000_0000_0000), 0x8000_0000);
    assert_eq!(distance(p(0, 0, 0), p(3000, 4000, 0)), 5000);
}

#[test]
fn splitmix_matches_reference_stream() {
    let mut rng = SplitMix64::new(0);
    assert_eq!(rng.next_u64(), 0xE220_A839_7B1D_CDAF);
    assert_eq!(rng.next_u64(), 0x6E78_9E6A_A1B9_65F4);
    let mut again = SplitMix64::new(0);
    assert_eq!(again.next_u64(), 0xE220_A839_7B1D_CDAF);
}

#[test]
fn placement_first_call_accepts_first_candidate() {
    let rules = PlacementRules { min_separation: 25_000, radius_min: 100_000, radius_max: 180_000, max_attempts: 50 };
    let r = sample_position(&Vec::new(), rules, 7);
    assert_eq!(r.rejections, 0);
    assert!(in_ring(r.point.x, r.point.z, 100_000, 180_000));
}

#[test]
fn placement_keeps_separation_or_exhausts_attempts() {
    let rules = PlacementRules { min_separation: 25_000, radius_min: 100_000, radius_max: 180_000, max_attempts: 50 };
    let mut placed: Vec<GroundPoint> = Vec::new();
    let mut seed: u64 = 99;
    for _ in 0..15 {
        let r = sample_position(&placed, rules, seed);
        seed = r.next_seed;
        let clear = placed.iter().all(|q| {
            let dx = q.x - r.point.x;
            let dz = q.z - r.point.z;
            dx * dx + dz * dz >= 25_000 * 25_000
        });
        assert!(clear || r.rejections == 50);
        assert!(r.rejections <= 50);
        placed.push(r.point);
    }
}

#[test]
fn placement_exhausts_attempts_when_ring_is_crowded() {
    // The whole ring lies within the separation of a point at the origin.
    let rules = PlacementRules { min_separation: 50_000, radius_min: 10_000, radius_max: 20_000, max_attempts: 50 };
    let existing = vec![GroundPoint { x: 0, z: 0 }];
    let r = sample_position(&existing, rules, 3);
    assert_eq!(r.rejections, 50);
}

#[test]
fn placement_is_deterministic() {
    let rules = PlacementRules { min_separation: 25_000, radius_min: 30_000, radius_max: 80_000, max_attempts: 50 };
    let existing = vec![GroundPoint { x: 40_000, z: 0 }];
    assert_eq!(sample_position(&existing, rules, 1234), sample_position(&existing, rules, 1234));
}

#[test]
fn sight_clear_without_obstacles() {
    assert!(has_line_of_sight(p(0, 0, 0), p(50_000, 0, 0), &Vec::new()));
    assert!(has_line_of_sight(p(5, 5, 5), p(5, 5, 5), &Vec::new()));
}

#[test]
fn sight_blocked_by_box_on_midpoint() {
    // 12 units: seven samples, the middle one on the midpoint.
    let obstacles = vec![cube(p(6000, 0, 0), 100)];
    assert!(!has_line_of_sight(p(0, 0, 0), p(12_000, 0, 0), &obstacles));
}

#[test]
fn sight_clear_with_box_outside_segment_bounds() {
    let obstacles = vec![cube(p(6000, 5000, 0), 1000)];
    assert!(has_line_of_sight(p(0, 0, 0), p(12_000, 0, 0), &obstacles));
}

#[test]
fn thin_box_between_samples_goes_unseen() {
    // 10 units: samples every 2 units; a box of half a unit around 5 units
    // holds no sample.
    let obstacles = vec![cube(p(5000, 0, 0), 500)];
    assert!(has_line_of_sight(p(0, 0, 0), p(10_000, 0, 0), &obstacles));
}

#[test]
fn pursuer_arrives_after_distance_over_speed() {
    let mut q = Pursuer::new(p(50_000, 0, 0), DEFAULT_SPEED);
    // 50 units at 3 units per second: 16.667 seconds.
    chase(&mut q, p(0, 0, 0), &Vec::new(), 16_667);
    assert_eq!(q.pos, p(0, 0, 0));
    assert!(q.sees_target);
}

#[test]
fn pursuer_never_overshoots() {
    let mut q = Pursuer::new(p(30_000, 0, 40_000), DEFAULT_SPEED);
    let target = p(0, 0, 0);
    let mut last = 50_000;
    for _ in 0..30 {
        chase(&mut q, target, &Vec::new(), 1000);
        let d = distance(q.pos, target);
        assert!(d <= last);
        assert!(q.pos.x >= 0 && q.pos.x <= 30_000);
        assert!(q.pos.z >= 0 && q.pos.z <= 40_000);
        last = d;
    }
    assert_eq!(q.pos, target);
}

#[test]
fn pursuer_moves_speed_times_dt() {
    let mut q = Pursuer::new(p(50_000, 0, 0), DEFAULT_SPEED);
    chase(&mut q, p(0, 0, 0), &Vec::new(), 1000);
    assert_eq!(q.pos, p(47_000, 0, 0));
    assert_eq!((q.facing_x, q.facing_z), (-50_000, 0));
}

#[test]
fn pursuer_out_of_range_stays_dormant() {
    let mut q = Pursuer::new(p(100_000, 0, 0), DEFAULT_SPEED);
    q.sees_target = true;
    chase(&mut q, p(0, 0, 0), &Vec::new(), 1000);
    assert_eq!(q.pos, p(100_000, 0, 0));
    assert!(!q.sees_target);
}

#[test]
fn pursuer_on_target_keeps_facing() {
    let mut q = Pursuer::new(p(0, 0, 0), DEFAULT_SPEED);
    q.facing_x = 7;
    q.facing_z = -3;
    chase(&mut q, p(0, 0, 0), &Vec::new(), 1000);
    assert_eq!(q.pos, p(0, 0, 0));
    assert_eq!((q.facing_x, q.facing_z), (7, -3));
}

#[test]
fn one_contact_costs_ten_health() {
    let mut health = Health::new(AGENT_MAX_HEALTH);
    assert_eq!(health, Health { current: 100, max: 100 });
    let mut pursuers = vec![Pursuer::new(p(1000, 0, 0), DEFAULT_SPEED), Pursuer::new(p(2000, 0, 0), DEFAULT_SPEED)];
    let mut smoke: Vec<SmokeParticle> = Vec::new();
    let hits = resolve_contacts(p(0, 0, 0), &mut health, &mut pursuers, &mut smoke);
    assert_eq!(hits, 1);
    assert_eq!(health.current, 90);
    assert_eq!(pursuers.len(), 1);
    assert_eq!(pursuers[0].pos, p(2000, 0, 0));
    assert_eq!(smoke.len(), 8);
    assert_eq!(smoke[0].pos, p(1500, 0, 0));
    assert_eq!(smoke[0].velocity, p(250, 1000, 0));
    assert_eq!(smoke[2].pos, p(1000, 0, 500));
    assert_eq!(smoke[0].remaining_ms, 2000);
}

#[test]
fn twenty_contacts_clamp_health_at_zero() {
    let mut health = Health::new(AGENT_MAX_HEALTH);
    let mut pursuers: Vec<Pursuer> = (0..20).map(|i| Pursuer::new(p(i * 10, 0, 0), DEFAULT_SPEED)).collect();
    let mut smoke: Vec<SmokeParticle> = Vec::new();
    let hits = resolve_contacts(p(0, 0, 0), &mut health, &mut pursuers, &mut smoke);
    assert_eq!(hits, 20);
    assert_eq!(health.current, 0);
    assert!(pursuers.is_empty());
    assert_eq!(smoke.len(), 160);
}

#[test]
fn damage_stops_at_zero() {
    let mut health = Health { current: 5, max: 100 };
    health.apply_damage(10);
    assert_eq!(health.current, 0);
}

fn smoke_at_rest() -> SmokeParticle {
    SmokeParticle { pos: p(0, 0, 0), velocity: p(250, 1000, 0), remaining_ms: 2000, max_ms: 2000, scale_permille: 1000 }
}

#[test]
fn smoke_lives_two_seconds() {
    let mut smoke = vec![smoke_at_rest()];
    update_smoke(&mut smoke, 500);
    update_smoke(&mut smoke, 500);
    update_smoke(&mut smoke, 500);
    assert_eq!(smoke.len(), 1);
    assert_eq!(smoke[0].remaining_ms, 500);
    update_smoke(&mut smoke, 500);
    assert!(smoke.is_empty());
}

#[test]
fn smoke_drifts_and_shrinks() {
    let mut smoke = vec![smoke_at_rest()];
    update_smoke(&mut smoke, 1000);
    assert_eq!(smoke[0].pos, p(250, 1000, 0));
    assert_eq!(smoke[0].scale_permille, 550);
    update_smoke(&mut smoke, 999);
    assert_eq!(smoke.len(), 1);
    update_smoke(&mut smoke, 1);
    assert!(smoke.is_empty());
}

#[test]
fn footsteps_fade_then_vanish() {
    let mut steps = vec![Footstep { pos: p(0, 50, 0), age_ms: 0, max_ms: 3000, scale_permille: 1000 }];
    update_footsteps(&mut steps, 1500);
    assert_eq!(steps[0].scale_permille, 650);
    update_footsteps(&mut steps, 1499);
    assert_eq!(steps.len(), 1);
    update_footsteps(&mut steps, 1);
    assert!(steps.is_empty());
}

#[test]
fn timer_fires_each_period() {
    let mut t = RepeatingTimer::new(SPAWN_PERIOD_MS);
    assert!(!t.tick(9_999));
    assert!(t.tick(1));
    assert_eq!(t.elapsed_ms, 0);
    assert!(t.tick(25_000));
    assert_eq!(t.elapsed_ms, 5_000);
}

#[test]
fn spawner_respects_cap() {
    let mut s = Spawner::new(42);
    let mut pursuers: Vec<Pursuer> = (0..PURSUER_CAP as i64).map(|i| Pursuer::new(p(i, 0, 0), DEFAULT_SPEED)).collect();
    assert!(!s.update(SPAWN_PERIOD_MS, &mut pursuers));
    assert_eq!(pursuers.len(), PURSUER_CAP);
    pursuers.pop();
    assert!(!s.update(SPAWN_PERIOD_MS - 1, &mut pursuers));
    assert!(s.update(1, &mut pursuers));
    assert_eq!(pursuers.len(), PURSUER_CAP);
    let fresh = pursuers[PURSUER_CAP - 1];
    assert_eq!(fresh.speed, DEFAULT_SPEED);
    assert_eq!(fresh.pos.y, 0);
    assert!(in_ring(fresh.pos.x, fresh.pos.z, 30_000, 80_000));
}

#[test]
fn end_to_end_single_pursuer() {
    let mut w = World::new(Some(Agent::new(p(0, 0, 0))), Vec::new(), 1);
    w.pursuers.push(Pursuer::new(p(50_000, 0, 0), DEFAULT_SPEED));
    let mut total_hits = 0;
    for second in 1..=17 {
        let r = w.step(1000);
        total_hits += r.hits;
        if second < 17 {
            assert_eq!(w.pursuers[0].pos, p(50_000 - 3000 * second, 0, 0));
        }
    }
    assert_eq!(total_hits, 1);
    assert_eq!(w.agent.unwrap().health.current, 90);
    // The pursuer spawned after ten seconds is still on its way.
    assert_eq!(w.pursuers.len(), 1);
    assert!(distance(w.pursuers[0].pos, p(0, 0, 0)) > 1500);
    assert_eq!(w.smoke.len(), 8);
}

#[test]
fn world_without_agent_does_nothing_to_pursuers() {
    let mut w = World::new(None, Vec::new(), 1);
    w.pursuers.push(Pursuer::new(p(5000, 0, 0), DEFAULT_SPEED));
    let r = w.step(1000);
    assert_eq!(r.hits, 0);
    assert_eq!(w.pursuers[0].pos, p(5000, 0, 0));
}

#[test]
fn world_spawns_after_period() {
    let mut w = World::new(Some(Agent::new(p(0, 500, 0))), Vec::new(), 5);
    for _ in 0..9 {
        assert!(!w.step(1000).spawned);
    }
    assert!(w.step(1000).spawned);
    assert_eq!(w.pursuers.len(), 1);
}

#[test]
fn very_long_frame_snaps_pursuer_onto_target() {
    let mut q = Pursuer::new(p(30_000, 0, 40_000), 1_000_000_000);
    chase(&mut q, p(0, 0, 0), &Vec::new(), i64::MAX / 2);
    assert_eq!(q.pos, p(0, 0, 0));
}

#[test]
fn chase_gap_follows_step_in_any_direction() {
    // 50 units away along (3, 4, 0); a 7-unit step leaves about 43 units.
    let mut q = Pursuer::new(p(30_000, 0, 40_000), 7000);
    chase(&mut q, p(0, 0, 0), &Vec::new(), 1000);
    let left = distance(q.pos, p(0, 0, 0));
    assert!(left >= 43_000 && left <= 43_004);
    assert_eq!(q.pos, p(25_800, 0, 34_400));
}

#[test]
fn footsteps_vanish_after_a_long_frame() {
    let mut steps = vec![Footstep { pos: p(0, 50, 0), age_ms: 0, max_ms: 3000, scale_permille: 1000 }];
    update_footsteps(&mut steps, 3_600_000);
    assert!(steps.is_empty());
}

#[test]
fn world_accepts_long_frames() {
    let mut w = World::new(Some(Agent::new(p(0, 0, 0))), Vec::new(), 9);
    w.pursuers.push(Pursuer::new(p(50_000, 0, 0), DEFAULT_SPEED));
    let r = w.step(3_600_000);
    assert_eq!(r.hits, 1);
    assert_eq!(w.agent.unwrap().health.current, 90);
    // One spawn for a frame spanning many periods.
    assert!(r.spawned);
    assert_eq!(w.pursuers.len(), 1);
}

#[test]
fn candidate_angles_cover_every_quadrant() {
    let rules = PlacementRules { min_separation: 0, radius_min: 50_000, radius_max: 50_000, max_attempts: 1 };
    let mut quadrants = [0usize; 4];
    let mut seed: u64 = 17;
    for _ in 0..400 {
        let r = sample_position(&Vec::new(), rules, seed);
        seed = r.next_seed;
        assert!(in_ring(r.point.x, r.point.z, 50_000, 50_000));
        let k = (if r.point.x >= 0 { 0 } else { 1 }) + (if r.point.z >= 0 { 0 } else { 2 });
        quadrants[k] += 1;
    }
    for n in quadrants {
        assert!(n >= 60);
    }
}

#[test]
fn fast_long_lived_smoke_drifts() {
    let mut smoke = vec![SmokeParticle {
        pos: p(0, 0, 0),
        velocity: p(1_000_000, -1_000_000, 0),
        remaining_ms: 3_000_000_000_000,
        max_ms: 3_000_000_000_000,
        scale_permille: 1000,
    }];
    update_smoke(&mut smoke, 1_000_000_000_000);
    assert_eq!(smoke[0].pos, p(1_000_000_000_000_000, -1_000_000_000_000_000, 0));
    assert_eq!(smoke[0].remaining_ms, 2_000_000_000_000);
    assert_eq!(smoke[0].scale_permille, 700);
}
