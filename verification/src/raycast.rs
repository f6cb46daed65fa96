use crate::fixed::{
    div_trunc, lemma_mul_bound, lemma_tdiv_bound, lemma_tdiv_neg_neg, lemma_tdiv_nonneg, tdiv,
    MAX_COORD, MAX_DISTANCE, SCALE,
};
use crate::geometry::{
    in_coord_range, lemma_rot_abs_bound, lemma_rotation_round_trip, rot_x, rot_y,
    rotate_point_around_origin, trig_in_range, Point,
};
use crate::map::{side_wf, Orientation, Shape, ShapeType, Side, WorldMap};
use vstd::math::abs;
use vstd::prelude::*;

verus! {

/// The result of one ray crossing one side: the world position of the
/// crossing, its distance along the ray, how far along the side it lies
/// (0 at `point1`, SCALE at `point2`) and a copy of the side itself.
#[derive(Clone, Copy, PartialEq, Eq, Structural, Debug)]
pub struct RayHit {
    pub position: Point,
    pub distance: i64,
    pub proportion_along_side: i64,
    pub side: Side,
}

/// The two crossings a ray makes through one block: `entry_hit` is the
/// nearer crossing, `exit_hit` the farther one.
#[derive(Clone, Copy, PartialEq, Eq, Structural, Debug)]
pub struct BlockSlice {
    pub entry_hit: RayHit,
    pub exit_hit: RayHit,
}

/// Everything one column's ray passes through: the terminating wall hit,
/// if any, and the paired crossings of the blocks in front of it.
#[derive(Clone, Debug)]
pub struct MapSlice {
    pub wall_hit: Option<RayHit>,
    pub bottom_block_slices: Vec<BlockSlice>,
    pub top_block_slices: Vec<BlockSlice>,
}

/// A hit with in-range fields, as every hit the intersector returns has.
pub open spec fn ray_hit_wf(h: RayHit) -> bool {
    &&& 0 <= h.distance <= MAX_DISTANCE
    &&& 0 <= h.proportion_along_side <= SCALE
    &&& side_wf(h.side)
    &&& -16 * MAX_COORD <= h.position.x <= 16 * MAX_COORD
    &&& -16 * MAX_COORD <= h.position.y <= 16 * MAX_COORD
}

/// X coordinate of `p` in ray space: the ray's origin is translated to
/// the origin and the world is rotated by the negated ray angle, so the
/// ray runs along the positive x axis.
pub open spec fn transformed_x(origin: Point, c: int, s: int, p: Point) -> int {
    rot_x(p.x - origin.x, p.y - origin.y, c, -s)
}

/// Y coordinate of `p` in ray space.
pub open spec fn transformed_y(origin: Point, c: int, s: int, p: Point) -> int {
    rot_y(p.x - origin.x, p.y - origin.y, c, -s)
}

/// The ray's carrier line separates the two transformed endpoints: one
/// lies strictly above it, the other on or below it.
pub open spec fn crosses_ray_line(y1: int, y2: int) -> bool {
    (y1 > 0) != (y2 > 0)
}

/// Fraction of the way from the first transformed endpoint to the second
/// at which the segment meets the ray's carrier line, in thousandths.
pub open spec fn proportion_spec(y1: int, y2: int) -> int {
    tdiv(-y1 * (SCALE as int), y2 - y1)
}

/// Signed distance along the ray at which the segment meets the ray's
/// carrier line: the x coordinate of the crossing in ray space.
pub open spec fn distance_spec(x1: int, y1: int, x2: int, y2: int) -> int {
    tdiv((x2 - x1) * proportion_spec(y1, y2), SCALE as int) + x1
}

/// What intersecting the ray `(origin, c, s)` with `side` returns: no hit
/// when the segment does not cross the ray's carrier line or crosses it
/// behind the origin, and otherwise the crossing's record, with the world
/// position recovered by rotating `(distance, 0)` back and translating.
#[verifier::opaque]
pub open spec fn intersect_spec(origin: Point, c: int, s: int, side: Side) -> Option<RayHit> {
    let x1 = transformed_x(origin, c, s, side.point1);
    let y1 = transformed_y(origin, c, s, side.point1);
    let x2 = transformed_x(origin, c, s, side.point2);
    let y2 = transformed_y(origin, c, s, side.point2);
    if !crosses_ray_line(y1, y2) {
        None
    } else {
        let dist = distance_spec(x1, y1, x2, y2);
        if dist < 0 {
            None
        } else {
            Some(
                RayHit {
                    position: Point {
                        x: (rot_x(dist, 0, c, s) + origin.x) as i64,
                        y: (rot_y(dist, 0, c, s) + origin.y) as i64,
                    },
                    distance: dist as i64,
                    proportion_along_side: proportion_spec(y1, y2) as i64,
                    side: side,
                },
            )
        }
    }
}

/// A side whose endpoints lie strictly on the same side of the ray's
/// carrier line is never hit, whatever the ray's origin and angle.
pub proof fn lemma_intersect_same_side(origin: Point, c: int, s: int, side: Side)
    requires
        ({
            let y1 = transformed_y(origin, c, s, side.point1);
            let y2 = transformed_y(origin, c, s, side.point2);
            (y1 > 0 && y2 > 0) || (y1 < 0 && y2 < 0)
        }),
    ensures
        intersect_spec(origin, c, s, side).is_none(),
{
    reveal(intersect_spec);
}

/// A crossing that lies behind the ray's origin yields no hit.
pub proof fn lemma_intersect_behind_camera(origin: Point, c: int, s: int, side: Side)
    requires
        ({
            let x1 = transformed_x(origin, c, s, side.point1);
            let y1 = transformed_y(origin, c, s, side.point1);
            let x2 = transformed_x(origin, c, s, side.point2);
            let y2 = transformed_y(origin, c, s, side.point2);
            distance_spec(x1, y1, x2, y2) < 0
        }),
    ensures
        intersect_spec(origin, c, s, side).is_none(),
{
    reveal(intersect_spec);
}

/// The crossing fraction always lies between 0 and SCALE.
proof fn lemma_proportion_range(y1: int, y2: int)
    requires
        crosses_ray_line(y1, y2),
    ensures
        0 <= proportion_spec(y1, y2) <= 1000,
{
    if y1 <= 0 {
        lemma_tdiv_bound(-y1 * 1000, y2 - y1, 1000);
        lemma_tdiv_nonneg(-y1 * 1000, y2 - y1);
    } else {
        lemma_tdiv_neg_neg(-y1 * 1000, y2 - y1);
        lemma_tdiv_bound(y1 * 1000, y1 - y2, 1000);
        lemma_tdiv_nonneg(y1 * 1000, y1 - y2);
    }
}

/// Re-projecting a hit's world position into ray space (subtracting the
/// origin and rotating by the negated ray angle) recovers the crossing's
/// ray-space coordinates `(distance, 0)` up to two thousandths in each
/// coordinate: the rotate and un-rotate pair is an inverse, up to the
/// rounding of the fixed-point divisions. The cosine/sine pair must be
/// exactly unit length.
pub proof fn lemma_round_trip_position(origin: Point, c: int, s: int, side: Side)
    requires
        in_coord_range(origin),
        side_wf(side),
        trig_in_range(c, s),
        c * c + s * s == 1_000_000,
    ensures
        intersect_spec(origin, c, s, side) matches Some(h) ==> {
            &&& -2 <= transformed_x(origin, c, s, h.position) - h.distance <= 2
            &&& -2 <= transformed_y(origin, c, s, h.position) <= 2
        },
{
    reveal(intersect_spec);
    if let Some(h) = intersect_spec(origin, c, s, side) {
        let x1 = transformed_x(origin, c, s, side.point1);
        let y1 = transformed_y(origin, c, s, side.point1);
        let x2 = transformed_x(origin, c, s, side.point2);
        let y2 = transformed_y(origin, c, s, side.point2);
        lemma_rot_abs_bound(side.point1.x - origin.x, side.point1.y - origin.y, c, -s);
        lemma_rot_abs_bound(side.point2.x - origin.x, side.point2.y - origin.y, c, -s);
        lemma_proportion_range(y1, y2);
        let prop = proportion_spec(y1, y2);
        lemma_mul_bound(x2 - x1, prop, 8_000_000_000, 1000);
        lemma_tdiv_bound((x2 - x1) * prop, 1000, 8_000_000_000);
        let dist = distance_spec(x1, y1, x2, y2);
        lemma_rot_abs_bound(dist, 0, c, s);
        assert(h.position.x - origin.x == rot_x(dist, 0, c, s));
        assert(h.position.y - origin.y == rot_y(dist, 0, c, s));
        assert(h.distance == dist);
        lemma_rotation_round_trip(dist, 0, c, s);
        assert(transformed_x(origin, c, s, h.position) == rot_x(
            rot_x(dist, 0, c, s),
            rot_y(dist, 0, c, s),
            c,
            -s,
        ));
        assert(transformed_y(origin, c, s, h.position) == rot_y(
            rot_x(dist, 0, c, s),
            rot_y(dist, 0, c, s),
            c,
            -s,
        ));
    }
}

/// Intersect one ray with one side. The ray starts at `origin` and points
/// along the angle whose cosine and sine are `ray_cos / SCALE` and
/// `ray_sin / SCALE`.
#[verifier::rlimit(60)]
pub fn intersect(origin: Point, ray_cos: i64, ray_sin: i64, side: &Side) -> (r: Option<RayHit>)
    requires
        in_coord_range(origin),
        trig_in_range(ray_cos as int, ray_sin as int),
        side_wf(*side),
    ensures
        r == intersect_spec(origin, ray_cos as int, ray_sin as int, *side),
        r matches Some(h) ==> ray_hit_wf(h),
{
    proof {
        reveal(intersect_spec);
    }
    let ghost c = ray_cos as int;
    let ghost s = ray_sin as int;
    let side_point1_relative = side.point1.sub(origin);
    let side_point2_relative = side.point2.sub(origin);
    let t1 = rotate_point_around_origin(side_point1_relative, ray_cos, -ray_sin);
    let t2 = rotate_point_around_origin(side_point2_relative, ray_cos, -ray_sin);
    proof {
        assert(t1.x == transformed_x(origin, c, s, side.point1));
        assert(t1.y == transformed_y(origin, c, s, side.point1));
        assert(t2.x == transformed_x(origin, c, s, side.point2));
        assert(t2.y == transformed_y(origin, c, s, side.point2));
    }
    if (t1.y > 0) == (t2.y > 0) {
        return None;
    }
    // The endpoints sit on opposite sides of the ray's carrier line, so
    // the denominator below cannot be zero; normalising both operands to
    // a positive denominator keeps the truncated quotient unchanged.
    let mut num: i64 = -t1.y;
    let mut den: i64 = t2.y - t1.y;
    if den < 0 {
        num = -num;
        den = -den;
    }
    proof {
        lemma_tdiv_neg_neg(
            (-t1.y as int) * (SCALE as int),
            (t2.y - t1.y) as int,
        );
        assert((-t1.y as int) * (SCALE as int) * -1 == (t1.y as int) * (SCALE as int));
        assert(0 <= num <= den);
        lemma_tdiv_bound(num as int * (SCALE as int), den as int, SCALE as int);
        lemma_tdiv_nonneg(num as int * (SCALE as int), den as int);
    }
    let proportion = div_trunc(num * SCALE, den);
    proof {
        assert(proportion == proportion_spec(t1.y as int, t2.y as int));
        lemma_mul_bound(
            (t2.x - t1.x) as int,
            proportion as int,
            8 * MAX_COORD as int,
            SCALE as int,
        );
        lemma_tdiv_bound(
            (t2.x - t1.x) as int * proportion as int,
            SCALE as int,
            8 * MAX_COORD as int,
        );
    }
    let distance = div_trunc((t2.x - t1.x) * proportion, SCALE) + t1.x;
    if distance < 0 {
        return None;
    }
    let position_in_transformed_coords = Point { x: distance, y: 0 };
    let position = rotate_point_around_origin(position_in_transformed_coords, ray_cos, ray_sin)
        .add(origin);
    Some(
        RayHit {
            position: position,
            distance: distance,
            proportion_along_side: proportion,
            side: *side,
        },
    )
}

/// The nearest wall hit among `sides`, scanning in order; on an exact
/// distance tie the earlier side wins.
pub open spec fn closest_wall_spec(sides: Seq<Side>, origin: Point, c: int, s: int) -> Option<
    RayHit,
>
    decreases sides.len(),
{
    if sides.len() == 0 {
        None
    } else {
        let prev = closest_wall_spec(sides.drop_last(), origin, c, s);
        match intersect_spec(origin, c, s, sides.last()) {
            None => prev,
            Some(h) => match prev {
                None => Some(h),
                Some(p) => if p.distance <= h.distance {
                    Some(p)
                } else {
                    Some(h)
                },
            },
        }
    }
}

/// Whether a block hit survives the wall filter: it must lie strictly
/// nearer than the terminating wall hit; a block at or behind the wall is
/// invisible. With no wall hit every block hit survives.
pub open spec fn survives_wall(h: RayHit, wall: Option<RayHit>) -> bool {
    match wall {
        None => true,
        Some(w) => h.distance < w.distance,
    }
}

/// All block hits among `sides` that survive the wall filter, in scan
/// order.
pub open spec fn block_hits_spec(
    sides: Seq<Side>,
    origin: Point,
    c: int,
    s: int,
    wall: Option<RayHit>,
) -> Seq<RayHit>
    decreases sides.len(),
{
    if sides.len() == 0 {
        Seq::empty()
    } else {
        let prev = block_hits_spec(sides.drop_last(), origin, c, s, wall);
        match intersect_spec(origin, c, s, sides.last()) {
            None => prev,
            Some(h) => if survives_wall(h, wall) {
                prev.push(h)
            } else {
                prev
            },
        }
    }
}

/// Insert `h` into a run of hits sorted by descending distance, after
/// every hit at least as far away.
pub open spec fn insert_desc(sorted: Seq<RayHit>, h: RayHit) -> Seq<RayHit>
    decreases sorted.len(),
{
    if sorted.len() == 0 {
        seq![h]
    } else if sorted.last().distance >= h.distance {
        sorted.push(h)
    } else {
        insert_desc(sorted.drop_last(), h).push(sorted.last())
    }
}

/// Sort hits by descending distance (insertion sort, stable).
pub open spec fn sort_desc_spec(hits: Seq<RayHit>) -> Seq<RayHit>
    decreases hits.len(),
{
    if hits.len() == 0 {
        Seq::empty()
    } else {
        insert_desc(sort_desc_spec(hits.drop_last()), hits.last())
    }
}

/// Distances never increase along the run.
pub open spec fn sorted_desc(hits: Seq<RayHit>) -> bool {
    forall|i: int, j: int| 0 <= i <= j < hits.len() ==> hits[i].distance >= hits[j].distance
}

/// `insert_desc` returns `sorted.insert(p, h)` when `p` is the boundary
/// between the prefix at least as far as `h` and the strictly nearer
/// suffix.
proof fn lemma_insert_desc_at(sorted: Seq<RayHit>, h: RayHit, p: int)
    requires
        0 <= p <= sorted.len(),
        forall|k: int| 0 <= k < p ==> sorted[k].distance >= h.distance,
        forall|k: int| p <= k < sorted.len() ==> sorted[k].distance < h.distance,
    ensures
        insert_desc(sorted, h) == sorted.insert(p, h),
    decreases sorted.len(),
{
    if sorted.len() == 0 {
        assert(insert_desc(sorted, h) =~= sorted.insert(0, h));
    } else if p == sorted.len() {
        assert(sorted.last().distance >= h.distance);
        assert(insert_desc(sorted, h) =~= sorted.insert(p, h));
    } else {
        assert(sorted.last().distance < h.distance);
        lemma_insert_desc_at(sorted.drop_last(), h, p);
        assert(insert_desc(sorted.drop_last(), h).push(sorted.last()) =~= sorted.insert(p, h));
    }
}

/// Inserting into a descending run keeps it descending.
proof fn lemma_insert_desc_sorted(sorted: Seq<RayHit>, h: RayHit, p: int)
    requires
        sorted_desc(sorted),
        0 <= p <= sorted.len(),
        forall|k: int| 0 <= k < p ==> sorted[k].distance >= h.distance,
        forall|k: int| p <= k < sorted.len() ==> sorted[k].distance < h.distance,
    ensures
        sorted_desc(sorted.insert(p, h)),
{
}

/// Every element of `insert_desc(sorted, h)` is `h` or an element of
/// `sorted`, so a property of all inputs carries over.
proof fn lemma_insert_desc_members(sorted: Seq<RayHit>, h: RayHit, p: int, x: RayHit)
    requires
        0 <= p <= sorted.len(),
        sorted.insert(p, h).contains(x),
    ensures
        x == h || sorted.contains(x),
{
    let t = sorted.insert(p, h);
    let i = choose|i: int| 0 <= i < t.len() && t[i] == x;
    if i < p {
        assert(sorted[i] == x);
    } else if i > p {
        assert(sorted[i - 1] == x);
    }
}

/// Sort hits by descending distance, matching `sort_desc_spec` exactly.
pub fn sort_hits_desc(hits: Vec<RayHit>) -> (r: Vec<RayHit>)
    ensures
        r@ == sort_desc_spec(hits@),
        sorted_desc(r@),
{
    let mut out: Vec<RayHit> = Vec::new();
    let n = hits.len();
    for i in 0..n
        invariant
            n == hits@.len(),
            out@ == sort_desc_spec(hits@.take(i as int)),
            sorted_desc(out@),
    {
        let h = hits[i];
        let mut p = out.len();
        while p > 0 && out[p - 1].distance < h.distance
            invariant
                0 <= p <= out@.len(),
                forall|k: int| p <= k < out@.len() ==> out@[k].distance < h.distance,
            decreases p,
        {
            p = p - 1;
        }
        proof {
            assert(forall|k: int| 0 <= k < p ==> out@[k].distance >= h.distance) by {
                if p > 0 {
                    assert(out@[p - 1].distance >= h.distance);
                    assert(forall|k: int|
                        0 <= k < p ==> #[trigger] out@[k].distance >= out@[p - 1].distance);
                }
            }
            lemma_insert_desc_at(out@, h, p as int);
            lemma_insert_desc_sorted(out@, h, p as int);
            assert(hits@.take(i + 1).drop_last() =~= hits@.take(i as int));
            assert(hits@.take(i + 1).last() == h);
        }
        out.insert(p, h);
    }
    proof {
        assert(hits@.take(n as int) =~= hits@);
    }
    out
}

/// Index of the first pending hit belonging to shape `id`, or -1 when no
/// pending hit belongs to it.
pub open spec fn find_pending(pending: Seq<RayHit>, id: int) -> int
    decreases pending.len(),
{
    if pending.len() == 0 {
        -1
    } else if pending[0].side.shape.id == id {
        0
    } else {
        let r = find_pending(pending.skip(1), id);
        if r == -1 {
            -1
        } else {
            r + 1
        }
    }
}

proof fn lemma_find_pending_at(pending: Seq<RayHit>, id: int, j: int)
    requires
        0 <= j < pending.len(),
        pending[j].side.shape.id == id,
        forall|k: int| 0 <= k < j ==> (#[trigger] pending[k]).side.shape.id != id,
    ensures
        find_pending(pending, id) == j,
    decreases j,
{
    if j > 0 {
        assert(pending[0].side.shape.id != id);
        assert(pending.skip(1)[j - 1] == pending[j]);
        assert(forall|k: int| 0 <= k < j - 1 ==> #[trigger] pending.skip(1)[k] == pending[k + 1]);
        lemma_find_pending_at(pending.skip(1), id, j - 1);
    }
}

proof fn lemma_find_pending_none(pending: Seq<RayHit>, id: int)
    requires
        forall|k: int| 0 <= k < pending.len() ==> (#[trigger] pending[k]).side.shape.id != id,
    ensures
        find_pending(pending, id) == -1,
    decreases pending.len(),
{
    if pending.len() > 0 {
        assert(forall|k: int|
            0 <= k < pending.len() - 1 ==> #[trigger] pending.skip(1)[k] == pending[k + 1]);
        lemma_find_pending_none(pending.skip(1), id);
    }
}

/// One pairing step: a hit for a shape already pending closes that
/// shape's slice (the pending hit, found earlier in the farthest-first
/// scan, is the exit); a hit for a new shape becomes pending.
pub open spec fn pair_step(slices: Seq<BlockSlice>, pending: Seq<RayHit>, h: RayHit) -> (Seq<
    BlockSlice,
>, Seq<RayHit>) {
    let idx = find_pending(pending, h.side.shape.id as int);
    if idx >= 0 {
        (slices.push(BlockSlice { entry_hit: h, exit_hit: pending[idx] }), pending.remove(idx))
    } else {
        (slices, pending.push(h))
    }
}

/// Fold the pairing over the hits in order (farthest first), considering
/// only hits on blocks of orientation `o`. A shape crossed an odd number
/// of times leaves one hit pending and yields no slice for it.
pub open spec fn pair_fold(hits: Seq<RayHit>, o: Orientation) -> (Seq<BlockSlice>, Seq<RayHit>)
    decreases hits.len(),
{
    if hits.len() == 0 {
        (Seq::<BlockSlice>::empty(), Seq::<RayHit>::empty())
    } else {
        let prev = pair_fold(hits.drop_last(), o);
        if hits.last().side.shape.shape_type == ShapeType::Block(o) {
            pair_step(prev.0, prev.1, hits.last())
        } else {
            prev
        }
    }
}

/// Pair the block hits of orientation `o`, scanning farthest to nearest.
/// On a run sorted by descending distance every produced slice has its
/// entry no farther than its exit.
pub fn pair_block_slices(hits: &Vec<RayHit>, o: Orientation) -> (r: Vec<BlockSlice>)
    requires
        sorted_desc(hits@),
        forall|k: int| 0 <= k < hits@.len() ==> ray_hit_wf(#[trigger] hits@[k]),
    ensures
        r@ == pair_fold(hits@, o).0,
        forall|k: int|
            0 <= k < r@.len() ==> {
                let sl = #[trigger] r@[k];
                &&& sl.entry_hit.distance <= sl.exit_hit.distance
                &&& ray_hit_wf(sl.entry_hit)
                &&& ray_hit_wf(sl.exit_hit)
                &&& sl.entry_hit.side.shape.shape_type == ShapeType::Block(o)
                &&& sl.exit_hit.side.shape.shape_type == ShapeType::Block(o)
                &&& sl.entry_hit.side.shape.id == sl.exit_hit.side.shape.id
                &&& hits@.contains(sl.entry_hit)
                &&& hits@.contains(sl.exit_hit)
            },
{
    let mut slices: Vec<BlockSlice> = Vec::new();
    let mut pending: Vec<RayHit> = Vec::new();
    let n = hits.len();
    for i in 0..n
        invariant
            n == hits@.len(),
            sorted_desc(hits@),
            forall|k: int| 0 <= k < n ==> ray_hit_wf(#[trigger] hits@[k]),
            slices@ == pair_fold(hits@.take(i as int), o).0,
            pending@ == pair_fold(hits@.take(i as int), o).1,
            forall|k: int|
                0 <= k < pending@.len() ==> {
                    let p = #[trigger] pending@[k];
                    &&& ray_hit_wf(p)
                    &&& p.side.shape.shape_type == ShapeType::Block(o)
                    &&& hits@.contains(p)
                    &&& forall|m: int| i <= m < n ==> p.distance >= (#[trigger] hits@[m]).distance
                },
            forall|k: int|
                0 <= k < slices@.len() ==> {
                    let sl = #[trigger] slices@[k];
                    &&& sl.entry_hit.distance <= sl.exit_hit.distance
                    &&& ray_hit_wf(sl.entry_hit)
                    &&& ray_hit_wf(sl.exit_hit)
                    &&& sl.entry_hit.side.shape.shape_type == ShapeType::Block(o)
                    &&& sl.exit_hit.side.shape.shape_type == ShapeType::Block(o)
                    &&& sl.entry_hit.side.shape.id == sl.exit_hit.side.shape.id
                    &&& hits@.contains(sl.entry_hit)
                    &&& hits@.contains(sl.exit_hit)
                },
    {
        let h = hits[i];
        proof {
            assert(hits@.take(i + 1).drop_last() =~= hits@.take(i as int));
            assert(hits@.take(i + 1).last() == h);
            assert(hits@[i as int] == h);
            assert(hits@.contains(h));
        }
        if h.side.shape.shape_type == ShapeType::Block(o) {
            let mut j: usize = 0;
            while j < pending.len() && pending[j].side.shape.id != h.side.shape.id
                invariant
                    0 <= j <= pending@.len(),
                    forall|k: int|
                        0 <= k < j ==> (#[trigger] pending@[k]).side.shape.id != h.side.shape.id,
                decreases pending@.len() - j,
            {
                j = j + 1;
            }
            if j < pending.len() {
                proof {
                    lemma_find_pending_at(pending@, h.side.shape.id as int, j as int);
                }
                let exit = pending[j];
                pending.remove(j);
                slices.push(BlockSlice { entry_hit: h, exit_hit: exit });
            } else {
                proof {
                    lemma_find_pending_none(pending@, h.side.shape.id as int);
                }
                pending.push(h);
            }
        }
    }
    proof {
        assert(hits@.take(n as int) =~= hits@);
    }
    slices
}

/// The nearest wall hit is a true minimum: some side yields it, no side
/// yields a strictly nearer hit, and no earlier side yields one equally
/// near (the first-found hit wins ties). With no hit at all, no side
/// intersects the ray.
pub proof fn lemma_closest_wall_minimal(sides: Seq<Side>, origin: Point, c: int, s: int)
    ensures
        closest_wall_spec(sides, origin, c, s) matches Some(h) ==> exists|i: int|
            {
                &&& 0 <= i < sides.len()
                &&& #[trigger] intersect_spec(origin, c, s, sides[i]) == Some(h)
                &&& forall|j: int|
                    0 <= j < i ==> ((#[trigger] intersect_spec(origin, c, s, sides[j])) matches Some(
                        hj,
                    ) ==> hj.distance > h.distance)
            },
        closest_wall_spec(sides, origin, c, s) matches Some(h) ==> forall|j: int|
            0 <= j < sides.len() ==> ((#[trigger] intersect_spec(origin, c, s, sides[j])) matches Some(
                hj,
            ) ==> hj.distance >= h.distance),
        closest_wall_spec(sides, origin, c, s).is_none() ==> forall|j: int|
            0 <= j < sides.len() ==> (#[trigger] intersect_spec(origin, c, s, sides[j])).is_none(),
    decreases sides.len(),
{
    if sides.len() > 0 {
        lemma_closest_wall_minimal(sides.drop_last(), origin, c, s);
        let prev = closest_wall_spec(sides.drop_last(), origin, c, s);
        let cur = intersect_spec(origin, c, s, sides.last());
        let res = closest_wall_spec(sides, origin, c, s);
        assert(forall|j: int| 0 <= j < sides.len() - 1 ==> sides.drop_last()[j] == sides[j]);
        if let Some(hl) = cur {
            match prev {
                None => {
                    assert(res == Some(hl));
                    assert(intersect_spec(origin, c, s, sides[sides.len() - 1]) == Some(hl));
                },
                Some(p) => {
                    if p.distance <= hl.distance {
                        let i0 = choose|i: int|
                            {
                                &&& 0 <= i < sides.drop_last().len()
                                &&& #[trigger] intersect_spec(origin, c, s, sides.drop_last()[i])
                                    == Some(p)
                                &&& forall|j: int|
                                    0 <= j < i ==> ((#[trigger] intersect_spec(
                                        origin,
                                        c,
                                        s,
                                        sides.drop_last()[j],
                                    )) matches Some(hj) ==> hj.distance > p.distance)
                            };
                        assert(intersect_spec(origin, c, s, sides[i0]) == Some(p));
                    } else {
                        assert(res == Some(hl));
                        assert(intersect_spec(origin, c, s, sides[sides.len() - 1]) == Some(hl));
                    }
                },
            }
        } else {
            if let Some(p) = prev {
                let i0 = choose|i: int|
                    {
                        &&& 0 <= i < sides.drop_last().len()
                        &&& #[trigger] intersect_spec(origin, c, s, sides.drop_last()[i]) == Some(p)
                        &&& forall|j: int|
                            0 <= j < i ==> ((#[trigger] intersect_spec(
                                origin,
                                c,
                                s,
                                sides.drop_last()[j],
                            )) matches Some(hj) ==> hj.distance > p.distance)
                    };
                assert(intersect_spec(origin, c, s, sides[i0]) == Some(p));
            }
        }
    }
}

/// Cast one ray through the whole map: find the nearest wall hit, keep
/// the block hits strictly nearer than it, order them farthest first and
/// pair them per shape into slices, bottom and top blocks separately.
pub fn raycast(map: &WorldMap, position: Point, ray_cos: i64, ray_sin: i64) -> (r: MapSlice)
    requires
        map.well_formed(),
        in_coord_range(position),
        trig_in_range(ray_cos as int, ray_sin as int),
    ensures
        ({
            let c = ray_cos as int;
            let s = ray_sin as int;
            let wall = closest_wall_spec(map.wall_sides@, position, c, s);
            let hits = sort_desc_spec(block_hits_spec(map.block_sides@, position, c, s, wall));
            &&& r.wall_hit == wall
            &&& r.bottom_block_slices@ == pair_fold(hits, Orientation::Bottom).0
            &&& r.top_block_slices@ == pair_fold(hits, Orientation::Top).0
        }),
        r.wall_hit matches Some(h) ==> ray_hit_wf(h),
        forall|k: int|
            0 <= k < r.bottom_block_slices@.len() ==> block_slice_wf(
                #[trigger] r.bottom_block_slices@[k],
                Orientation::Bottom,
            ),
        forall|k: int|
            0 <= k < r.top_block_slices@.len() ==> block_slice_wf(
                #[trigger] r.top_block_slices@[k],
                Orientation::Top,
            ),
        r.wall_hit matches Some(w) ==> forall|k: int|
            0 <= k < r.bottom_block_slices@.len() ==> (#[trigger] r.bottom_block_slices@[k]).entry_hit.distance
                < w.distance && r.bottom_block_slices@[k].exit_hit.distance < w.distance,
        r.wall_hit matches Some(w) ==> forall|k: int|
            0 <= k < r.top_block_slices@.len() ==> (#[trigger] r.top_block_slices@[k]).entry_hit.distance
                < w.distance && r.top_block_slices@[k].exit_hit.distance < w.distance,
{
    let ghost c = ray_cos as int;
    let ghost s = ray_sin as int;
    let position_point = position;
    let mut closest_wall_hit: Option<RayHit> = None;
    let wn = map.wall_sides.len();
    for w in 0..wn
        invariant
            wn == map.wall_sides@.len(),
            map.well_formed(),
            in_coord_range(position),
            trig_in_range(c, s),
            c == ray_cos as int,
            s == ray_sin as int,
            closest_wall_hit == closest_wall_spec(map.wall_sides@.take(w as int), position, c, s),
            closest_wall_hit matches Some(h) ==> ray_hit_wf(h),
    {
        proof {
            assert(map.wall_sides@.take(w + 1).drop_last() =~= map.wall_sides@.take(w as int));
            assert(map.wall_sides@.take(w + 1).last() == map.wall_sides@[w as int]);
        }
        let intersection = intersect(position, ray_cos, ray_sin, &map.wall_sides[w]);
        if let Some(rayhit) = intersection {
            let replace = match &closest_wall_hit {
                None => true,
                Some(cw) => cw.distance > rayhit.distance,
            };
            if replace {
                closest_wall_hit = Some(rayhit);
            }
        }
    }
    proof {
        assert(map.wall_sides@.take(wn as int) =~= map.wall_sides@);
    }
    let mut block_rayhits: Vec<RayHit> = Vec::new();
    let bn = map.block_sides.len();
    for b in 0..bn
        invariant
            bn == map.block_sides@.len(),
            map.well_formed(),
            in_coord_range(position),
            trig_in_range(c, s),
            c == ray_cos as int,
            s == ray_sin as int,
            closest_wall_hit == closest_wall_spec(map.wall_sides@, position, c, s),
            block_rayhits@ == block_hits_spec(
                map.block_sides@.take(b as int),
                position,
                c,
                s,
                closest_wall_hit,
            ),
            forall|k: int| 0 <= k < block_rayhits@.len() ==> ray_hit_wf(#[trigger] block_rayhits@[k]),
            forall|k: int|
                0 <= k < block_rayhits@.len() ==> survives_wall(
                    #[trigger] block_rayhits@[k],
                    closest_wall_hit,
                ),
    {
        proof {
            assert(map.block_sides@.take(b + 1).drop_last() =~= map.block_sides@.take(b as int));
            assert(map.block_sides@.take(b + 1).last() == map.block_sides@[b as int]);
        }
        let intersection = intersect(position, ray_cos, ray_sin, &map.block_sides[b]);
        if let Some(rayhit) = intersection {
            let keep = match &closest_wall_hit {
                None => true,
                Some(cw) => rayhit.distance < cw.distance,
            };
            if keep {
                block_rayhits.push(rayhit);
            }
        }
    }
    proof {
        assert(map.block_sides@.take(bn as int) =~= map.block_sides@);
    }
    let ghost unsorted = block_rayhits@;
    let block_rayhits_ordered = sort_hits_desc(block_rayhits);
    proof {
        lemma_sort_desc_members(unsorted);
        assert forall|k: int| 0 <= k < block_rayhits_ordered@.len() implies ray_hit_wf(
            #[trigger] block_rayhits_ordered@[k],
        ) by {
            let x = block_rayhits_ordered@[k];
            assert(block_rayhits_ordered@.contains(x));
            assert(unsorted.contains(x));
            let i = choose|i: int| 0 <= i < unsorted.len() && unsorted[i] == x;
        }
    }
    proof {
        assert forall|x: RayHit| block_rayhits_ordered@.contains(x) implies survives_wall(
            x,
            closest_wall_hit,
        ) by {
            assert(unsorted.contains(x));
            let i = lemma_contains_witness(unsorted, x);
        }
    }
    let bottom_block_slices = pair_block_slices(&block_rayhits_ordered, Orientation::Bottom);
    let top_block_slices = pair_block_slices(&block_rayhits_ordered, Orientation::Top);
    MapSlice { wall_hit: closest_wall_hit, bottom_block_slices, top_block_slices }
}

/// A slice as the raycaster produces it for orientation `o`: two in-range
/// hits of one block shape of that orientation, the entry no farther than
/// the exit.
pub open spec fn block_slice_wf(sl: BlockSlice, o: Orientation) -> bool {
    &&& sl.entry_hit.distance <= sl.exit_hit.distance
    &&& ray_hit_wf(sl.entry_hit)
    &&& ray_hit_wf(sl.exit_hit)
    &&& sl.entry_hit.side.shape.shape_type == ShapeType::Block(o)
    &&& sl.exit_hit.side.shape.shape_type == ShapeType::Block(o)
    &&& sl.entry_hit.side.shape.id == sl.exit_hit.side.shape.id
}

/// A position at which a contained element sits.
proof fn lemma_contains_witness(s: Seq<RayHit>, x: RayHit) -> (i: int)
    requires
        s.contains(x),
    ensures
        0 <= i < s.len(),
        s[i] == x,
{
    choose|i: int| 0 <= i < s.len() && s[i] == x
}

/// Sorting keeps exactly the members: each element of the sorted run is
/// an element of the input and the other way round.
pub proof fn lemma_sort_desc_members(hits: Seq<RayHit>)
    ensures
        forall|x: RayHit|
            #![trigger sort_desc_spec(hits).contains(x)]
            #![trigger hits.contains(x)]
            sort_desc_spec(hits).contains(x) <==> hits.contains(x),
    decreases hits.len(),
{
    if hits.len() > 0 {
        lemma_sort_desc_members(hits.drop_last());
        let sorted = sort_desc_spec(hits.drop_last());
        let h = hits.last();
        lemma_insert_desc_contains(sorted, h);
        assert forall|x: RayHit| sort_desc_spec(hits).contains(x) implies hits.contains(x) by {
            if x == h {
                assert(hits[hits.len() - 1] == x);
            } else {
                assert(sorted.contains(x));
                let i = lemma_contains_witness(hits.drop_last(), x);
                assert(hits[i] == x);
            }
        }
        assert forall|x: RayHit| hits.contains(x) implies sort_desc_spec(hits).contains(x) by {
            let i = lemma_contains_witness(hits, x);
            if i == hits.len() - 1 {
                assert(insert_desc(sorted, h).contains(h));
            } else {
                assert(hits.drop_last()[i] == x);
                assert(sorted.contains(x));
                assert(insert_desc(sorted, h).contains(x));
            }
        }
    }
}

/// `insert_desc` holds exactly the old members plus the new hit.
proof fn lemma_insert_desc_contains(sorted: Seq<RayHit>, h: RayHit)
    ensures
        forall|x: RayHit|
            #![trigger insert_desc(sorted, h).contains(x)]
            #![trigger sorted.contains(x)]
            insert_desc(sorted, h).contains(x) <==> (x == h || sorted.contains(x)),
    decreases sorted.len(),
{
    if sorted.len() == 0 {
        assert forall|x: RayHit| insert_desc(sorted, h).contains(x) implies (x == h
            || sorted.contains(x)) by {
            let i = lemma_contains_witness(insert_desc(sorted, h), x);
            assert(i == 0);
        }
        assert(insert_desc(sorted, h)[0] == h);
        assert(insert_desc(sorted, h).contains(h));
    } else if sorted.last().distance >= h.distance {
        let t = sorted.push(h);
        assert forall|x: RayHit| t.contains(x) implies (x == h || sorted.contains(x)) by {
            let i = lemma_contains_witness(t, x);
            if i < sorted.len() {
                assert(sorted[i] == x);
            }
        }
        assert forall|x: RayHit| (x == h || sorted.contains(x)) implies t.contains(x) by {
            if x == h {
                assert(t[sorted.len() as int] == x);
            } else {
                let i = lemma_contains_witness(sorted, x);
                assert(t[i] == x);
            }
        }
    } else {
        lemma_insert_desc_contains(sorted.drop_last(), h);
        let inner = insert_desc(sorted.drop_last(), h);
        let t = inner.push(sorted.last());
        assert forall|x: RayHit| t.contains(x) implies (x == h || sorted.contains(x)) by {
            let i = lemma_contains_witness(t, x);
            if i < inner.len() {
                assert(inner[i] == x);
                assert(inner.contains(x));
                if x != h {
                    let j = lemma_contains_witness(sorted.drop_last(), x);
                    assert(sorted[j] == x);
                }
            } else {
                assert(sorted[sorted.len() - 1] == x);
            }
        }
        assert forall|x: RayHit| (x == h || sorted.contains(x)) implies t.contains(x) by {
            if x == h {
                assert(inner.contains(h));
                let j = lemma_contains_witness(inner, x);
                assert(t[j] == x);
            } else {
                let i = lemma_contains_witness(sorted, x);
                if i == sorted.len() - 1 {
                    assert(t[t.len() - 1] == x);
                } else {
                    assert(sorted.drop_last()[i] == x);
                    assert(inner.contains(x));
                    let j = lemma_contains_witness(inner, x);
                    assert(t[j] == x);
                }
            }
        }
    }
}


/// How many hits of a run belong to shape `id` with orientation `o`.
pub open spec fn count_hits(hits: Seq<RayHit>, id: int, o: Orientation) -> int
    decreases hits.len(),
{
    if hits.len() == 0 {
        0
    } else {
        count_hits(hits.drop_last(), id, o) + if hits.last().side.shape.id == id
            && hits.last().side.shape.shape_type == ShapeType::Block(o) {
            1int
        } else {
            0int
        }
    }
}

/// How many slices of a run belong to shape `id`.
pub open spec fn count_slices(slices: Seq<BlockSlice>, id: int) -> int
    decreases slices.len(),
{
    if slices.len() == 0 {
        0
    } else {
        count_slices(slices.drop_last(), id) + if slices.last().entry_hit.side.shape.id == id {
            1int
        } else {
            0int
        }
    }
}

/// How many pending hits belong to shape `id`.
pub open spec fn count_pending(pending: Seq<RayHit>, id: int) -> int
    decreases pending.len(),
{
    if pending.len() == 0 {
        0
    } else {
        (if pending[0].side.shape.id == id {
            1int
        } else {
            0int
        }) + count_pending(pending.skip(1), id)
    }
}

proof fn lemma_count_pending_nonneg(pending: Seq<RayHit>, id: int)
    ensures
        count_pending(pending, id) >= 0,
    decreases pending.len(),
{
    if pending.len() > 0 {
        lemma_count_pending_nonneg(pending.skip(1), id);
    }
}

proof fn lemma_find_pending_props(pending: Seq<RayHit>, id: int)
    ensures
        find_pending(pending, id) == -1 || 0 <= find_pending(pending, id) < pending.len(),
        find_pending(pending, id) == -1 ==> count_pending(pending, id) == 0,
        find_pending(pending, id) >= 0 ==> pending[find_pending(pending, id)].side.shape.id == id
            && count_pending(pending, id) >= 1,
    decreases pending.len(),
{
    if pending.len() > 0 {
        lemma_find_pending_props(pending.skip(1), id);
        lemma_count_pending_nonneg(pending.skip(1), id);
        if pending[0].side.shape.id != id {
            let r = find_pending(pending.skip(1), id);
            if r >= 0 {
                assert(pending.skip(1)[r] == pending[r + 1]);
            }
        }
    }
}

proof fn lemma_count_pending_push(pending: Seq<RayHit>, id: int, h: RayHit)
    ensures
        count_pending(pending.push(h), id) == count_pending(pending, id) + if h.side.shape.id
            == id {
            1int
        } else {
            0int
        },
    decreases pending.len(),
{
    let t = pending.push(h);
    assert(t.len() == pending.len() + 1);
    assert(count_pending(t, id) == (if t[0].side.shape.id == id {
        1int
    } else {
        0int
    }) + count_pending(t.skip(1), id));
    if pending.len() == 0 {
        assert(t.skip(1) =~= Seq::<RayHit>::empty());
        assert(t[0] == h);
        assert(count_pending(t.skip(1), id) == 0);
    } else {
        assert(t.skip(1) =~= pending.skip(1).push(h));
        assert(t[0] == pending[0]);
        lemma_count_pending_push(pending.skip(1), id, h);
        assert(count_pending(t.skip(1), id) == count_pending(pending.skip(1).push(h), id));
    }
}

proof fn lemma_count_pending_remove(pending: Seq<RayHit>, id: int, idx: int)
    requires
        0 <= idx < pending.len(),
    ensures
        count_pending(pending.remove(idx), id) == count_pending(pending, id) - if pending[idx].side.shape.id
            == id {
            1int
        } else {
            0int
        },
    decreases idx,
{
    if idx == 0 {
        assert(pending.remove(0) =~= pending.skip(1));
    } else {
        assert(pending.remove(idx).skip(1) =~= pending.skip(1).remove(idx - 1));
        assert(pending.remove(idx)[0] == pending[0]);
        assert(pending.skip(1)[idx - 1] == pending[idx]);
        lemma_count_pending_remove(pending.skip(1), id, idx - 1);
    }
}

/// The slice pairing, counted per shape: every two crossings of one
/// shape in front of the wall close exactly one slice of it, and an odd
/// crossing leaves exactly one hit of the shape pending, which yields no
/// slice. In particular a convex block crossed twice produces exactly
/// one slice.
pub proof fn lemma_slice_pairing(hits: Seq<RayHit>, o: Orientation, id: int)
    ensures
        count_slices(pair_fold(hits, o).0, id) == count_hits(hits, id, o) / 2,
        count_pending(pair_fold(hits, o).1, id) == count_hits(hits, id, o) % 2,
        count_hits(hits, id, o) >= 0,
    decreases hits.len(),
{
    if hits.len() > 0 {
        lemma_slice_pairing(hits.drop_last(), o, id);
        let h = hits.last();
        let prev = pair_fold(hits.drop_last(), o);
        let c = count_hits(hits.drop_last(), id, o);
        if h.side.shape.shape_type == ShapeType::Block(o) {
            let hid = h.side.shape.id as int;
            let idx = find_pending(prev.1, hid);
            lemma_find_pending_props(prev.1, hid);
            lemma_slice_pairing(hits.drop_last(), o, hid);
            vstd::arithmetic::div_mod::lemma_fundamental_div_mod(c, 2);
            vstd::arithmetic::div_mod::lemma_mod_division_less_than_divisor(c, 2);
            if c % 2 == 1 {
                vstd::arithmetic::div_mod::lemma_fundamental_div_mod_converse(
                    c + 1,
                    2,
                    c / 2 + 1,
                    0,
                );
            } else {
                vstd::arithmetic::div_mod::lemma_fundamental_div_mod_converse(c + 1, 2, c / 2, 1);
            }
            if idx >= 0 {
                lemma_count_pending_remove(prev.1, id, idx);
                let sl = BlockSlice { entry_hit: h, exit_hit: prev.1[idx] };
                assert(prev.0.push(sl).drop_last() =~= prev.0);
                assert(prev.0.push(sl).last() == sl);
                assert(count_slices(prev.0.push(sl), id) == count_slices(prev.0, id) + if hid
                    == id {
                    1int
                } else {
                    0int
                });
            } else {
                lemma_count_pending_push(prev.1, id, h);
            }
        }
    }
}

} // verus!
