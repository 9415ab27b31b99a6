use vstd::prelude::*;
use crate::geometry::{Point3, Obstacle, MILLI};
use crate::visibility::all_wf;
use crate::placement::{
    SplitMix64, GroundPoint, PlacementRules, sample_position, separated, all_in_world, in_ring,
    placement_spec, nth_candidate, draw_in,
};

verus! {

/// Number of glaciers scattered around the scene.
pub const GLACIER_COUNT: usize = 11;

/// Number of radar masts scattered around the scene.
pub const RADAR_COUNT: usize = 6;

/// Least distance between two scattered glaciers or radars: 25 units.
pub const SCATTER_SEPARATION: i64 = 25 * MILLI;

/// Candidates tried for one scattered object before the last is taken.
pub const SCATTER_ATTEMPTS: u32 = 50;

/// Index of the first scattered object in a layout (after ground and
/// building), and one past the last.
pub const FIRST_SCATTERED: usize = 2;

pub const END_SCATTERED: usize = FIRST_SCATTERED + GLACIER_COUNT + RADAR_COUNT;

/// Number of objects in a layout.
pub const SCENERY_COUNT: usize = END_SCATTERED + 1;

/// Largest yaw drawn for an object: just under a full turn, in milliradians.
pub const FULL_TURN_MRAD: i64 = 6283;

/// What a static object of the scene is.
#[derive(Clone, Copy, Debug, PartialEq, Eq, Structural)]
pub enum SceneryKind {
    Ground,
    Building,
    Glacier,
    Radar,
    Boulder,
}

/// One static object: its kind, position, size (thousandths of the model's
/// size; for a boulder, its radius in milli-units), yaw in milliradians, and
/// whether its placement ran out of attempts and may stand too close to
/// another object.
#[derive(Clone, Copy, Debug, PartialEq, Eq, Structural)]
pub struct SceneryItem {
    pub kind: SceneryKind,
    pub pos: Point3,
    pub scale_permille: i64,
    pub yaw_mrad: i64,
    pub crowded: bool,
}

/// The range of sizes drawn for each kind.
pub open spec fn scale_range(kind: SceneryKind) -> (int, int) {
    match kind {
        SceneryKind::Ground => (1000, 1000),
        SceneryKind::Building => (50, 150),
        SceneryKind::Glacier => (50, 130),
        SceneryKind::Radar => (10, 25),
        SceneryKind::Boulder => (6000, 10000),
    }
}

/// The ring of distances from the origin in which each kind is placed, in
/// milli-units.
pub open spec fn ring_of(kind: SceneryKind) -> (int, int) {
    match kind {
        SceneryKind::Ground => (0, 0),
        SceneryKind::Building => (100_000, 180_000),
        SceneryKind::Glacier => (100_000, 180_000),
        SceneryKind::Radar => (150_000, 170_000),
        SceneryKind::Boulder => (20_000, 50_000),
    }
}

impl SceneryItem {
    pub open spec fn wf(self) -> bool {
        &&& self.pos.in_world()
        &&& 0 <= self.pos.y <= 10_000
        &&& scale_range(self.kind).0 <= self.scale_permille <= scale_range(self.kind).1
        &&& 0 <= self.yaw_mrad <= FULL_TURN_MRAD
    }
}

pub open spec fn ground_of(item: SceneryItem) -> GroundPoint {
    GroundPoint { x: item.pos.x, z: item.pos.z }
}

/// Ground positions of the items `lo..hi`.
pub open spec fn grounds(items: Seq<SceneryItem>, lo: int, hi: int) -> Seq<GroundPoint> {
    Seq::new((hi - lo) as nat, |k: int| ground_of(items[lo + k]))
}

/// The kind of object `i` of a layout: ground, building, the glaciers, the
/// radars, and last the boulder.
pub open spec fn layout_kind(i: int) -> SceneryKind {
    if i == 0 {
        SceneryKind::Ground
    } else if i == 1 {
        SceneryKind::Building
    } else if i < FIRST_SCATTERED + GLACIER_COUNT {
        SceneryKind::Glacier
    } else if i < END_SCATTERED {
        SceneryKind::Radar
    } else {
        SceneryKind::Boulder
    }
}

/// The placement rules for an object of `kind`: its ring, with the given
/// separation and number of attempts.
pub open spec fn rules_spec(kind: SceneryKind, separation: i64, attempts: u32) -> PlacementRules {
    PlacementRules {
        min_separation: separation,
        radius_min: ring_of(kind).0 as i64,
        radius_max: ring_of(kind).1 as i64,
        max_attempts: attempts,
    }
}

/// The rules of the scattered glaciers and radars.
pub open spec fn scatter_rules(kind: SceneryKind) -> PlacementRules {
    rules_spec(kind, SCATTER_SEPARATION, SCATTER_ATTEMPTS)
}

/// The item stands in its kind's ring of distances from the origin (the
/// inner edge allowing for one milli-unit of rounding).
pub open spec fn in_kind_ring(item: SceneryItem) -> bool {
    in_ring(ground_of(item), rules_spec(item.kind, 0, 1))
}

/// The object of `kind` placed from generator state `s` against `placed`,
/// and the state after it: the sampled position on the ground, then a size
/// drawn from the kind's range and a yaw drawn from a full turn. It is marked
/// crowded when every candidate was too close.
pub open spec fn item_spec(
    kind: SceneryKind,
    placed: Seq<GroundPoint>,
    separation: i64,
    attempts: u32,
    s: u64,
) -> (SceneryItem, u64) {
    let at = placement_spec(placed, rules_spec(kind, separation, attempts), s);
    let scale = draw_in(at.next_seed, scale_range(kind).0, scale_range(kind).1);
    let yaw = draw_in(scale.1, 0, FULL_TURN_MRAD as int);
    (
        SceneryItem {
            kind,
            pos: Point3 { x: at.point.x, y: 0, z: at.point.z },
            scale_permille: scale.0 as i64,
            yaw_mrad: yaw.0 as i64,
            crowded: at.rejections == attempts,
        },
        yaw.1,
    )
}

/// The ground plane, centred on the origin.
pub open spec fn ground_item() -> SceneryItem {
    SceneryItem {
        kind: SceneryKind::Ground,
        pos: Point3 { x: 0, y: 0, z: 0 },
        scale_permille: 1000,
        yaw_mrad: 0,
        crowded: false,
    }
}

/// A boulder raised so that half of it stands above the ground.
pub open spec fn lifted(b: SceneryItem) -> SceneryItem {
    SceneryItem { pos: Point3 { x: b.pos.x, y: (b.scale_permille / 2) as i64, z: b.pos.z }, ..b }
}

/// The first `n` objects of the layout of `seed`, and the generator state
/// after them. The ground takes no draw; the building and the boulder are
/// placed with no separation and one attempt; each glacier and radar keeps
/// the scatter separation from the glaciers and radars before it.
pub open spec fn layout_prefix(seed: u64, n: nat) -> (Seq<SceneryItem>, u64)
    decreases n,
{
    if n == 0 {
        (Seq::empty(), seed)
    } else if n == 1 {
        (seq![ground_item()], seed)
    } else {
        let prev = layout_prefix(seed, (n - 1) as nat);
        let i = n - 1;
        let next = if i == 1 {
            item_spec(SceneryKind::Building, Seq::empty(), 0, 1, prev.1)
        } else if i < END_SCATTERED {
            item_spec(
                layout_kind(i),
                grounds(prev.0, FIRST_SCATTERED as int, i),
                SCATTER_SEPARATION,
                SCATTER_ATTEMPTS,
                prev.1,
            )
        } else {
            let b = item_spec(SceneryKind::Boulder, Seq::empty(), 0, 1, prev.1);
            (lifted(b.0), b.1)
        };
        (prev.0.push(next.0), next.1)
    }
}

/// The whole layout of `seed`.
pub open spec fn layout_spec(seed: u64) -> Seq<SceneryItem> {
    layout_prefix(seed, SCENERY_COUNT as nat).0
}

/// Every one of the candidates drawn for scattered object `i` of the layout
/// of `seed` came within the scatter separation of a glacier or radar placed
/// before it.
#[verifier::opaque]
pub open spec fn all_rejected(seed: u64, items: Seq<SceneryItem>, i: int) -> bool {
    forall|c: nat|
        c < SCATTER_ATTEMPTS ==> !separated(
            #[trigger] nth_candidate(layout_prefix(seed, i as nat).1, scatter_rules(layout_kind(i)), c),
            grounds(items, FIRST_SCATTERED as int, i),
            SCATTER_SEPARATION as int,
        )
}

fn rules_for(kind: SceneryKind, separation: i64, attempts: u32) -> (r: PlacementRules)
    requires
        kind != SceneryKind::Ground,
    ensures
        r == rules_spec(kind, separation, attempts),
{
    let (lo, hi): (i64, i64) = match kind {
        SceneryKind::Building => (100_000, 180_000),
        SceneryKind::Glacier => (100_000, 180_000),
        SceneryKind::Radar => (150_000, 170_000),
        _ => (20_000, 50_000),
    };
    PlacementRules { min_separation: separation, radius_min: lo, radius_max: hi, max_attempts: attempts }
}

/// Places one object of `kind` on the ground, as `item_spec` states.
fn place_item(
    kind: SceneryKind,
    placed: &Vec<GroundPoint>,
    separation: i64,
    attempts: u32,
    rng: &mut SplitMix64,
) -> (r: SceneryItem)
    requires
        kind != SceneryKind::Ground,
        0 <= separation <= 25_000,
        attempts >= 1,
        all_in_world(placed@),
    ensures
        (r, final(rng).state) == item_spec(kind, placed@, separation, attempts, old(rng).state),
        r.wf(),
        in_kind_ring(r),
        !r.crowded ==> separated(ground_of(r), placed@, separation as int),
        r.crowded <==> forall|j: nat|
            j < attempts ==> !separated(
                #[trigger] nth_candidate(old(rng).state, rules_spec(kind, separation, attempts), j),
                placed@,
                separation as int,
            ),
{
    let rules = rules_for(kind, separation, attempts);
    let at = sample_position(placed, rules, rng.state);
    rng.state = at.next_seed;
    let (lo, hi): (i64, i64) = match kind {
        SceneryKind::Building => (50, 150),
        SceneryKind::Glacier => (50, 130),
        SceneryKind::Radar => (10, 25),
        _ => (6000, 10000),
    };
    let scale = rng.next_in(lo, hi);
    let yaw = rng.next_in(0, FULL_TURN_MRAD);
    SceneryItem {
        kind,
        pos: Point3 { x: at.point.x, y: 0, z: at.point.z },
        scale_permille: scale,
        yaw_mrad: yaw,
        crowded: at.rejections == attempts,
    }
}

/// Lays out the static scenery from a seed, as `layout_spec` states: the
/// ground, a distant building, eleven glaciers and six radar masts scattered
/// with at least 25 units between any two of them (unless all 50 candidates
/// of one came too close, which the item records as crowded), and a boulder
/// near the centre. Every object after the ground stands in its kind's ring.
pub fn layout_scenery(seed: u64) -> (r: Vec<SceneryItem>)
    ensures
        r@ == layout_spec(seed),
        r@.len() == SCENERY_COUNT,
        forall|i: int| 0 <= i < r@.len() ==> (#[trigger] r@[i]).wf() && r@[i].kind == layout_kind(i),
        r@[0] == ground_item(),
        forall|i: int| 1 <= i < r@.len() ==> in_kind_ring(#[trigger] r@[i]),
        forall|i: int|
            FIRST_SCATTERED <= i < END_SCATTERED && !(#[trigger] r@[i]).crowded ==> separated(
                ground_of(r@[i]),
                grounds(r@, FIRST_SCATTERED as int, i),
                SCATTER_SEPARATION as int,
            ),
        forall|i: int|
            FIRST_SCATTERED <= i < END_SCATTERED ==> ((#[trigger] r@[i]).crowded <==> all_rejected(seed, r@, i)),
{
    let mut rng = SplitMix64::new(seed);
    let mut items: Vec<SceneryItem> = Vec::new();
    items.push(
        SceneryItem {
            kind: SceneryKind::Ground,
            pos: Point3 { x: 0, y: 0, z: 0 },
            scale_permille: 1000,
            yaw_mrad: 0,
            crowded: false,
        },
    );
    assert(items@ =~= layout_prefix(seed, 1).0);
    let none: Vec<GroundPoint> = Vec::new();
    let building = place_item(SceneryKind::Building, &none, 0, 1, &mut rng);
    items.push(building);
    assert(none@ =~= Seq::<GroundPoint>::empty());
    assert(items@ =~= layout_prefix(seed, 2).0);
    let mut placed: Vec<GroundPoint> = Vec::new();
    assert(placed@ =~= grounds(items@, FIRST_SCATTERED as int, items@.len() as int));
    let mut i: usize = FIRST_SCATTERED;
    while i < END_SCATTERED
        invariant
            FIRST_SCATTERED <= i <= END_SCATTERED,
            items@.len() == i,
            items@ == layout_prefix(seed, i as nat).0,
            rng.state == layout_prefix(seed, i as nat).1,
            placed@ == grounds(items@, FIRST_SCATTERED as int, i as int),
            all_in_world(placed@),
            forall|j: int| 0 <= j < items@.len() ==> (#[trigger] items@[j]).wf() && items@[j].kind == layout_kind(j),
            items@[0] == ground_item(),
            forall|j: int| 1 <= j < items@.len() ==> in_kind_ring(#[trigger] items@[j]),
            forall|j: int|
                FIRST_SCATTERED <= j < i && !(#[trigger] items@[j]).crowded ==> separated(
                    ground_of(items@[j]),
                    grounds(items@, FIRST_SCATTERED as int, j),
                    SCATTER_SEPARATION as int,
                ),
            forall|j: int|
                FIRST_SCATTERED <= j < i ==> ((#[trigger] items@[j]).crowded <==> all_rejected(seed, items@, j)),
        decreases END_SCATTERED - i,
    {
        let kind = if i < FIRST_SCATTERED + GLACIER_COUNT {
            SceneryKind::Glacier
        } else {
            SceneryKind::Radar
        };
        let item = place_item(kind, &placed, SCATTER_SEPARATION, SCATTER_ATTEMPTS, &mut rng);
        let ghost before = items@;
        items.push(item);
        proof {
            assert forall|j: int| FIRST_SCATTERED <= j <= i implies grounds(items@, FIRST_SCATTERED as int, j)
                =~= grounds(before, FIRST_SCATTERED as int, j) by {}
            assert(items@ =~= layout_prefix(seed, (i + 1) as nat).0);
            assert(kind == layout_kind(i as int));
            assert(rules_spec(kind, SCATTER_SEPARATION, SCATTER_ATTEMPTS) == scatter_rules(layout_kind(i as int)));
            assert(placed@ == grounds(items@, FIRST_SCATTERED as int, i as int));
            assert(items@[i as int] == item);
            reveal(all_rejected);
            assert(item.crowded <==> all_rejected(seed, items@, i as int));
        }
        placed.push(GroundPoint { x: item.pos.x, z: item.pos.z });
        assert(placed@ =~= grounds(items@, FIRST_SCATTERED as int, i as int + 1));
        i += 1;
    }
    let boulder = place_item(SceneryKind::Boulder, &none, 0, 1, &mut rng);
    let raised = SceneryItem {
        pos: Point3 { x: boulder.pos.x, y: boulder.scale_permille / 2, z: boulder.pos.z },
        ..boulder
    };
    let ghost before = items@;
    items.push(raised);
    proof {
        assert forall|j: int| FIRST_SCATTERED <= j <= END_SCATTERED implies grounds(items@, FIRST_SCATTERED as int, j)
            =~= grounds(before, FIRST_SCATTERED as int, j) by {}
        assert(items@ =~= layout_prefix(seed, SCENERY_COUNT as nat).0);
        reveal(all_rejected);
        assert forall|j: int| FIRST_SCATTERED <= j < END_SCATTERED implies all_rejected(seed, items@, j)
            == all_rejected(seed, before, j) by {
            assert(grounds(items@, FIRST_SCATTERED as int, j) == grounds(before, FIRST_SCATTERED as int, j));
        }
    }
    items
}

/// An obstacle box of a kind at full size: its half extent, and how far its
/// centre stands above the object's position, in milli-units.
#[derive(Clone, Copy, Debug, PartialEq, Eq, Structural)]
pub struct LocalBox {
    pub half: Point3,
    pub lift: i64,
}

/// The obstacle boxes that an object of each kind carries. The building, the
/// glaciers and the radars carry their model's box and a second box for their
/// collision mesh; a glacier's model sinks four units into the ground.
pub open spec fn kind_boxes(kind: SceneryKind) -> Seq<LocalBox> {
    match kind {
        SceneryKind::Ground => seq![LocalBox { half: Point3 { x: 200_000, y: 100, z: 200_000 }, lift: 0 }],
        SceneryKind::Building => seq![
            LocalBox { half: Point3 { x: 10_000, y: 7_500, z: 10_000 }, lift: 0 },
            LocalBox { half: Point3 { x: 10_000, y: 5_000, z: 10_000 }, lift: 0 },
        ],
        SceneryKind::Glacier => seq![
            LocalBox { half: Point3 { x: 10_000, y: 7_500, z: 10_000 }, lift: -4_000i64 },
            LocalBox { half: Point3 { x: 80_000, y: 40_000, z: 80_000 }, lift: 0 },
        ],
        SceneryKind::Radar => seq![
            LocalBox { half: Point3 { x: 10_000, y: 7_500, z: 10_000 }, lift: 0 },
            LocalBox { half: Point3 { x: 1_500, y: 1_000, z: 1_500 }, lift: 0 },
        ],
        SceneryKind::Boulder => seq![LocalBox { half: Point3 { x: 1_000, y: 1_000, z: 1_000 }, lift: 0 }],
    }
}

/// The world box of `item` for one of its kind's boxes: centred on the item
/// (raised by the box's lift), its half extent scaled by the item's size.
pub open spec fn scaled_box(item: SceneryItem, b: LocalBox) -> Obstacle {
    Obstacle {
        center: Point3 { x: item.pos.x, y: (item.pos.y + b.lift) as i64, z: item.pos.z },
        half: Point3 {
            x: (b.half.x * item.scale_permille / 1000) as i64,
            y: (b.half.y * item.scale_permille / 1000) as i64,
            z: (b.half.z * item.scale_permille / 1000) as i64,
        },
    }
}

pub open spec fn item_boxes(item: SceneryItem) -> Seq<Obstacle> {
    kind_boxes(item.kind).map_values(|b: LocalBox| scaled_box(item, b))
}

/// All obstacle boxes of the items, item by item.
pub open spec fn scenery_boxes(items: Seq<SceneryItem>) -> Seq<Obstacle>
    decreases items.len(),
{
    if items.len() == 0 {
        Seq::empty()
    } else {
        scenery_boxes(items.drop_last()) + item_boxes(items.last())
    }
}

fn boxes_of(kind: SceneryKind) -> (r: Vec<LocalBox>)
    ensures
        r@ == kind_boxes(kind),
{
    match kind {
        SceneryKind::Ground => vec![LocalBox { half: Point3 { x: 200_000, y: 100, z: 200_000 }, lift: 0 }],
        SceneryKind::Building => vec![
            LocalBox { half: Point3 { x: 10_000, y: 7_500, z: 10_000 }, lift: 0 },
            LocalBox { half: Point3 { x: 10_000, y: 5_000, z: 10_000 }, lift: 0 },
        ],
        SceneryKind::Glacier => vec![
            LocalBox { half: Point3 { x: 10_000, y: 7_500, z: 10_000 }, lift: -4_000 },
            LocalBox { half: Point3 { x: 80_000, y: 40_000, z: 80_000 }, lift: 0 },
        ],
        SceneryKind::Radar => vec![
            LocalBox { half: Point3 { x: 10_000, y: 7_500, z: 10_000 }, lift: 0 },
            LocalBox { half: Point3 { x: 1_500, y: 1_000, z: 1_500 }, lift: 0 },
        ],
        SceneryKind::Boulder => vec![LocalBox { half: Point3 { x: 1_000, y: 1_000, z: 1_000 }, lift: 0 }],
    }
}

fn scale_extent(h: i64, scale: i64) -> (r: i64)
    requires
        0 <= h <= 200_000,
        0 <= scale <= 10_000,
    ensures
        r == h * scale / 1000,
        0 <= r <= 2_000_000,
{
    assert(0 <= h * scale <= 2_000_000_000) by (nonlinear_arith)
        requires
            0 <= h <= 200_000,
            0 <= scale <= 10_000,
    ;
    h * scale / 1000
}

/// The obstacle boxes of a layout, which block lines of sight: for each
/// object, each of its kind's boxes scaled by the object's size and centred
/// on it.
pub fn scenery_obstacles(items: &Vec<SceneryItem>) -> (r: Vec<Obstacle>)
    requires
        forall|i: int| 0 <= i < items@.len() ==> (#[trigger] items@[i]).wf(),
    ensures
        r@ == scenery_boxes(items@),
        all_wf(r@),
{
    let mut out: Vec<Obstacle> = Vec::new();
    let mut i: usize = 0;
    while i < items.len()
        invariant
            0 <= i <= items@.len(),
            forall|j: int| 0 <= j < items@.len() ==> (#[trigger] items@[j]).wf(),
            out@ == scenery_boxes(items@.subrange(0, i as int)),
            all_wf(out@),
        decreases items.len() - i,
    {
        let item = items[i];
        let boxes = boxes_of(item.kind);
        let ghost start = out@;
        let mut k: usize = 0;
        while k < boxes.len()
            invariant
                0 <= k <= boxes@.len(),
                boxes@ == kind_boxes(item.kind),
                item.wf(),
                out@ == start + item_boxes(item).subrange(0, k as int),
                all_wf(out@),
            decreases boxes.len() - k,
        {
            let h = boxes[k];
            let b = Obstacle {
                center: Point3 { x: item.pos.x, y: item.pos.y + h.lift, z: item.pos.z },
                half: Point3 {
                    x: scale_extent(h.half.x, item.scale_permille),
                    y: scale_extent(h.half.y, item.scale_permille),
                    z: scale_extent(h.half.z, item.scale_permille),
                },
            };
            assert(b == scaled_box(item, kind_boxes(item.kind)[k as int]));
            out.push(b);
            assert(item_boxes(item).subrange(0, k as int + 1) =~= item_boxes(item).subrange(0, k as int).push(b));
            k += 1;
        }
        assert(item_boxes(item).subrange(0, boxes@.len() as int) =~= item_boxes(item));
        let ghost prefix = items@.subrange(0, i as int + 1);
        assert(prefix.drop_last() =~= items@.subrange(0, i as int));
        i += 1;
    }
    assert(items@.subrange(0, items@.len() as int) =~= items@);
    out
}

} // verus!
