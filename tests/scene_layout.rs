use pursuit_sim::control::{adjust_pitch, drive_from_keys, Drive, DriveKeys};
use pursuit_sim::geometry::Point3;
use pursuit_sim::scenery::{layout_scenery, scenery_obstacles, SceneryKind, SCENERY_COUNT};
use pursuit_sim::simulation::{Agent, World};
use pursuit_sim::pursuit::{Pursuer, DEFAULT_SPEED};
use pursuit_sim::geometry::Obstacle;
use pursuit_sim::spawner::RepeatingTimer;
use pursuit_sim::trail::lay_footprints;
use pursuit_sim::effects::Footstep;

fn in_ring(x: i64, z: i64, lo: i64, hi: i64) -> bool {
    let q = (x.abs() + 1) * (x.abs() + 1) + (z.abs() + 1) * (z.abs() + 1);
    x * x + z * z <= hi * hi && 512 * 512 * lo * lo <= 513 * 513 * q
}

#[test]
fn layout_has_every_object_in_order() {
    let items = layout_scenery(2024);
    assert_eq!(items.len(), SCENERY_COUNT);
    assert_eq!(items[0].kind, SceneryKind::Ground);
    assert_eq!(items[1].kind, SceneryKind::Building);
    assert!(items[2..13].iter().all(|i| i.kind == SceneryKind::Glacier));
    assert!(items[13..19].iter().all(|i| i.kind == SceneryKind::Radar));
    assert_eq!(items[19].kind, SceneryKind::Boulder);
    assert_eq!(items[19].pos.y, items[19].scale_permille / 2);
}

#[test]
fn layout_keeps_scattered_objects_apart() {
    let items = layout_scenery(77);
    for i in 2..19 {
        if items[i].crowded {
            continue;
        }
        for j in 2..i {
            let dx = items[i].pos.x - items[j].pos.x;
            let dz = items[i].pos.z - items[j].pos.z;
            assert!(dx * dx + dz * dz >= 25_000 * 25_000);
        }
    }
    for item in &items[2..13] {
        assert!(in_ring(item.pos.x, item.pos.z, 100_000, 180_000));
    }
}

#[test]
fn layout_is_deterministic() {
    assert_eq!(layout_scenery(5), layout_scenery(5));
    assert_ne!(layout_scenery(5), layout_scenery(6));
}

#[test]
fn obstacles_follow_kinds_and_sizes() {
    let items = layout_scenery(11);
    let boxes = scenery_obstacles(&items);
    assert_eq!(boxes.len(), 1 + 2 + 2 * 11 + 2 * 6 + 1);
    assert_eq!(boxes[0], Obstacle { center: Point3::new(0, 0, 0), half: Point3::new(200_000, 100, 200_000) });
    let b = items[1];
    assert_eq!(boxes[1].center, b.pos);
    assert_eq!(boxes[1].half.x, 10_000 * b.scale_permille / 1000);
    assert_eq!(boxes[1].half.y, 7_500 * b.scale_permille / 1000);
    assert_eq!(boxes[2].center, b.pos);
    assert_eq!(boxes[2].half.y, 5_000 * b.scale_permille / 1000);
    let g = items[2];
    assert_eq!(boxes[3].center, Point3::new(g.pos.x, -4_000, g.pos.z));
    assert_eq!(boxes[3].half.y, 7_500 * g.scale_permille / 1000);
    assert_eq!(boxes[4].center, g.pos);
    assert_eq!(boxes[4].half.x, 80_000 * g.scale_permille / 1000);
    let boulder = items[19];
    assert_eq!(boxes[37].center, boulder.pos);
    assert_eq!(boxes[37].half, Point3::new(boulder.scale_permille, boulder.scale_permille, boulder.scale_permille));
}

#[test]
fn layout_objects_stand_in_their_rings() {
    for seed in [1u64, 2, 3, 400] {
        let items = layout_scenery(seed);
        for item in &items[1..] {
            let (lo, hi): (i64, i64) = match item.kind {
                SceneryKind::Building | SceneryKind::Glacier => (100_000, 180_000),
                SceneryKind::Radar => (150_000, 170_000),
                SceneryKind::Boulder => (20_000, 50_000),
                SceneryKind::Ground => unreachable!(),
            };
            assert!(in_ring(item.pos.x, item.pos.z, lo, hi));
        }
    }
}

#[test]
fn sight_lines_only_for_pursuers_in_range() {
    let blocker = Obstacle { center: Point3::new(6000, 0, 0), half: Point3::new(500, 500, 500) };
    let mut w = World::new(Some(Agent::new(Point3::new(0, 0, 0))), vec![blocker], 1);
    w.pursuers.push(Pursuer::new(Point3::new(12_000, 0, 0), DEFAULT_SPEED));
    w.pursuers.push(Pursuer::new(Point3::new(0, 0, 150_000), DEFAULT_SPEED));
    w.pursuers.push(Pursuer::new(Point3::new(0, 0, -12_000), DEFAULT_SPEED));
    let lines = w.sight_lines();
    assert_eq!(lines.len(), 2);
    assert!(!lines[0].clear);
    assert!(lines[1].clear);
    assert_eq!(lines[1].from, Point3::new(0, 0, -12_000));
}

#[test]
fn keys_drive_the_agent() {
    let none = DriveKeys {
        forward: false,
        back: false,
        turn_left: false,
        turn_right: false,
        turn_left_alt: false,
        turn_right_alt: false,
        sprint: false,
    };
    assert_eq!(drive_from_keys(none), Drive { speed: 0, turn_rate: 0 });
    let run_left = DriveKeys { forward: true, sprint: true, turn_left: true, turn_left_alt: true, ..none };
    assert_eq!(drive_from_keys(run_left), Drive { speed: 10_000, turn_rate: 4000 });
    let back_right = DriveKeys { back: true, turn_right: true, ..none };
    assert_eq!(drive_from_keys(back_right), Drive { speed: -5000, turn_rate: -2000 });
    let both = DriveKeys { forward: true, back: true, ..none };
    assert_eq!(drive_from_keys(both).speed, 0);
}

#[test]
fn pitch_is_clamped() {
    assert_eq!(adjust_pitch(0, true, false, 500), 1000);
    assert_eq!(adjust_pitch(1000, true, false, 500), 1500);
    assert_eq!(adjust_pitch(-1400, false, true, 100), -1500);
    assert_eq!(adjust_pitch(300, true, true, 100), 300);
}

#[test]
fn footprints_laid_behind_agent() {
    let mut timer = RepeatingTimer::new(300);
    let mut steps: Vec<Footstep> = Vec::new();
    // Heading down -z, the default forward direction.
    assert!(!lay_footprints(&mut timer, 200, Point3::new(0, 500, 0), 0, -1000, 200, &mut steps));
    assert!(steps.is_empty());
    assert!(lay_footprints(&mut timer, 100, Point3::new(0, 500, 0), 0, -1000, 300, &mut steps));
    assert_eq!(steps.len(), 2);
    // Right of -z is +x; the right foot leads by 0.2 units in the first half
    // second.
    assert_eq!(steps[0].pos, Point3::new(300, 50, 300));
    assert_eq!(steps[1].pos, Point3::new(-300, 50, 700));
    assert_eq!(steps[0].max_ms, 3000);
}

#[test]
fn pitch_out_of_bounds_is_brought_back() {
    assert_eq!(adjust_pitch(9_000, false, false, 0), 1500);
    assert_eq!(adjust_pitch(-9_000, true, false, 100), -1500);
    assert_eq!(adjust_pitch(0, true, false, i64::MAX), 1500);
}
