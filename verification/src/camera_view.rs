use crate::fixed::{
    clamp, div_trunc, lemma_mul_bound, tdiv, MAX_COORD, MAX_DISTANCE, SCALE,
};
use crate::geometry::{in_coord_range, rot_x, rot_y, rotate_point_around_origin, trig_in_range,
    Point};
use crate::map::{Orientation, ShapeType, WorldMap, MAX_HEIGHT};
use crate::raycast::{block_hits_spec, block_slice_wf, closest_wall_spec, pair_fold, ray_hit_wf,
    raycast, sort_desc_spec, BlockSlice, MapSlice, RayHit};
use crate::renderer_init::{RendererData, MAX_DARKNESS, MAX_VERTICAL_SCALE};
use vstd::prelude::*;

verus! {

/// The player's pose as the renderer consumes it each frame: world
/// position, view height above the floor, and the cosine and sine of the
/// view angle in thousandths. The input component updates it between
/// frames; the renderer only reads it.
#[derive(Clone, Copy, PartialEq, Eq, Structural, Debug)]
pub struct PlayerPose {
    pub position: Point,
    pub view_height: i64,
    pub cos_view_angle: i64,
    pub sin_view_angle: i64,
}

/// The pose's fields are within the renderer's ranges.
pub open spec fn pose_wf(p: PlayerPose) -> bool {
    &&& in_coord_range(p.position)
    &&& -MAX_COORD <= p.view_height <= MAX_COORD
    &&& trig_in_range(p.cos_view_angle as int, p.sin_view_angle as int)
}

/// What kind of span a render task paints: a vertical side face, or a
/// horizontal floor or ceiling patch carrying its vertical distance from
/// the camera plane, which orders surfaces of the same kind among each
/// other.
#[derive(Clone, Copy, PartialEq, Eq, Structural, Debug)]
pub enum TaskKind {
    Side,
    Floor(i64),
    Ceiling(i64),
}

/// One drawable vertical span of a column: its colour, its brightness in
/// thousandths, its bottom and top rows as computed before clamping
/// (signed, row 0 is the bottom of the screen), and the horizontal
/// distance used for ordering against tasks of other kinds.
#[derive(Clone, Copy, PartialEq, Eq, Structural, Debug)]
pub struct RenderTask {
    pub kind: TaskKind,
    pub color: u32,
    pub brightness: i64,
    pub bottom: i64,
    pub top: i64,
    pub distance: i64,
}

/// Clamp, as executable code.
pub fn clamp_i64(x: i64, lo: i64, hi: i64) -> (r: i64)
    requires
        lo <= hi,
    ensures
        r == clamp(x as int, lo as int, hi as int),
{
    if x < lo {
        lo
    } else if x > hi {
        hi
    } else {
        x
    }
}

/// Brightness of a side face, in thousandths: half the cosine of the
/// side's world angle divided by the darkened distance, raised by one
/// half and clamped into [0.2, 1.0]. A zero denominator (a hit at the
/// ray's origin, or shading switched off) saturates to full brightness.
pub open spec fn brightness_spec(cos_aw: int, dist: int, ddc: int) -> int {
    let denom = dist * ddc;
    if denom <= 0 {
        1000
    } else {
        clamp(tdiv(cos_aw * 500_000, denom) + 500, 200, 1000)
    }
}

/// Whatever the distance and coefficients, a side's brightness lies in
/// [0.2, 1.0] of full: the formula's extremes are cut off by the clamp.
pub proof fn lemma_brightness_clamp(cos_aw: int, dist: int, ddc: int)
    ensures
        200 <= brightness_spec(cos_aw, dist, ddc) <= 1000,
{
}

/// Brightness of a side face, as executable code.
pub fn brightness(cos_aw: i64, dist: i64, ddc: i64) -> (b: i64)
    requires
        0 <= cos_aw <= SCALE,
        0 <= dist <= MAX_DISTANCE,
        0 <= ddc <= MAX_DARKNESS,
    ensures
        b == brightness_spec(cos_aw as int, dist as int, ddc as int),
        200 <= b <= 1000,
{
    proof {
        lemma_mul_bound(dist as int, ddc as int, MAX_DISTANCE as int, MAX_DARKNESS as int);
    }
    let denom = dist * ddc;
    if denom <= 0 {
        1000
    } else {
        let t = div_trunc(cos_aw * 500_000, denom);
        clamp_i64(t + 500, 200, 1000)
    }
}

/// Scale one colour channel by a brightness in thousandths, truncating.
pub open spec fn scale_channel(ch: u32, brightness: int) -> u32
    recommends
        ch <= 255,
        0 <= brightness <= 1000,
{
    ((ch * brightness) / 1000) as u32
}

/// Scale a packed 0xAARRGGBB colour's three colour channels by a
/// brightness in thousandths; the alpha channel passes through unscaled.
pub open spec fn scale_color_spec(color: u32, brightness: int) -> u32 {
    let a = (color >> 24) & 0xFF;
    let r = (color >> 16) & 0xFF;
    let g = (color >> 8) & 0xFF;
    let b = color & 0xFF;
    (a << 24) | (scale_channel(r, brightness) << 16) | (scale_channel(g, brightness) << 8)
        | scale_channel(b, brightness)
}

/// Scale a packed colour by a brightness, as executable code.
pub fn scale_color(color: u32, brightness: i64) -> (r: u32)
    requires
        0 <= brightness <= 1000,
    ensures
        r == scale_color_spec(color, brightness as int),
{
    let br = brightness as u32;
    let a = (color >> 24) & 0xFF;
    let rc = (color >> 16) & 0xFF;
    let gc = (color >> 8) & 0xFF;
    let bc = color & 0xFF;
    proof {
        assert((color >> 24) & 0xFF <= 255 && (color >> 16) & 0xFF <= 255 && (color >> 8) & 0xFF
            <= 255 && color & 0xFF <= 255) by (bit_vector);
        crate::fixed::lemma_mul_le(rc as int, br as int, 255, 1000);
        crate::fixed::lemma_mul_le(gc as int, br as int, 255, 1000);
        crate::fixed::lemma_mul_le(bc as int, br as int, 255, 1000);
    }
    let rs = (rc * br) / 1000;
    let gs = (gc * br) / 1000;
    let bs = (bc * br) / 1000;
    (a << 24) | (rs << 16) | (gs << 8) | bs
}

/// Anti-fisheye corrected distance: the hit's distance scaled by the
/// cosine of the column's angle relative to the view axis.
pub open spec fn normalized_distance(dist: int, cos_rel: int) -> int {
    tdiv(dist * cos_rel, SCALE as int)
}

/// Rows a span of world height `h` covers on screen at normalized
/// distance `nd`.
pub open spec fn onscreen_rows(h: int, nd: int, vs: int) -> int
    recommends
        nd > 0,
{
    tdiv(h * vs, nd * 1000)
}

/// Bottom row of a wall or of a floor-standing block's face: the screen
/// middle lowered by the view height's projection.
pub open spec fn low_anchor_bottom(vh: int, nd: int, vs: int, screen_h: int) -> int {
    screen_h / 2 - onscreen_rows(vh, nd, vs)
}

/// Bottom row of a ceiling-hanging block's face: its top edge anchors to
/// the level ceiling and the span's height hangs below it.
pub open spec fn top_anchor_bottom(
    level_h: int,
    shape_h: int,
    vh: int,
    nd: int,
    vs: int,
    screen_h: int,
) -> int {
    screen_h / 2 + onscreen_rows(level_h - vh, nd, vs) - onscreen_rows(shape_h, nd, vs)
}

/// The colour a side face takes from its shape's type.
pub open spec fn side_color_spec(t: ShapeType, rd: RendererData) -> u32 {
    match t {
        ShapeType::Wall => rd.wall_default_color,
        ShapeType::Block(Orientation::Bottom) => rd.bottom_block_default_color,
        ShapeType::Block(Orientation::Top) => rd.top_block_default_color,
    }
}

/// Brightness of a floor or ceiling patch: linearly interpolated between
/// one half and full by the block's height over the level height, and
/// clamped there defensively.
pub open spec fn surface_brightness_spec(shape_h: int, level_h: int) -> int {
    if level_h <= 0 {
        1000
    } else {
        clamp(500 + tdiv(500 * shape_h, level_h), 500, 1000)
    }
}

/// The side-face task one hit produces, if any: a hit whose normalized
/// distance is not positive (degenerate geometry) is skipped rather than
/// projected to unbounded extents.
pub open spec fn side_task_spec(
    h: RayHit,
    rd: RendererData,
    pose: PlayerPose,
    cos_rel: int,
) -> Option<RenderTask> {
    let nd = normalized_distance(h.distance as int, cos_rel);
    if nd <= 0 {
        None
    } else {
        let vs = rd.vertical_scale_coefficient as int;
        let sh = rd.screen_height as int;
        let height = onscreen_rows(h.side.shape.height as int, nd, vs);
        let bottom = match h.side.shape.shape_type {
            ShapeType::Block(Orientation::Top) => top_anchor_bottom(
                rd.level_height as int,
                h.side.shape.height as int,
                pose.view_height as int,
                nd,
                vs,
                sh,
            ),
            _ => low_anchor_bottom(pose.view_height as int, nd, vs, sh),
        };
        Some(
            RenderTask {
                kind: TaskKind::Side,
                color: side_color_spec(h.side.shape.shape_type, rd),
                brightness: brightness_spec(
                    h.side.cos_angle_in_world as int,
                    h.distance as int,
                    rd.distance_darkness_coefficient as int,
                ) as i64,
                bottom: bottom as i64,
                top: (bottom + height) as i64,
                distance: h.distance,
            },
        )
    }
}

/// The floor or ceiling task one block slice produces, if any. A floor
/// patch spans from the entry face's top row to the exit face's top row;
/// a ceiling patch from the exit face's bottom row to the entry face's
/// bottom row. The patch's vertical distance is the separation between
/// the camera plane and the surface plane.
pub open spec fn surface_task_spec(
    sl: BlockSlice,
    o: Orientation,
    rd: RendererData,
    pose: PlayerPose,
    cos_rel: int,
) -> Option<RenderTask> {
    let nd_e = normalized_distance(sl.entry_hit.distance as int, cos_rel);
    let nd_x = normalized_distance(sl.exit_hit.distance as int, cos_rel);
    if nd_e <= 0 || nd_x <= 0 {
        None
    } else {
        let vs = rd.vertical_scale_coefficient as int;
        let sh = rd.screen_height as int;
        let vh = pose.view_height as int;
        let lh = rd.level_height as int;
        let shape_h = sl.entry_hit.side.shape.height as int;
        let bright = surface_brightness_spec(shape_h, lh) as i64;
        match o {
            Orientation::Bottom => Some(
                RenderTask {
                    kind: TaskKind::Floor((vh - shape_h) as i64),
                    color: rd.bottom_block_default_color,
                    brightness: bright,
                    bottom: (low_anchor_bottom(vh, nd_e, vs, sh) + onscreen_rows(
                        shape_h,
                        nd_e,
                        vs,
                    )) as i64,
                    top: (low_anchor_bottom(vh, nd_x, vs, sh) + onscreen_rows(
                        shape_h,
                        nd_x,
                        vs,
                    )) as i64,
                    distance: sl.entry_hit.distance,
                },
            ),
            Orientation::Top => Some(
                RenderTask {
                    kind: TaskKind::Ceiling(((lh - shape_h) - vh) as i64),
                    color: rd.top_block_default_color,
                    brightness: bright,
                    bottom: top_anchor_bottom(lh, shape_h, vh, nd_x, vs, sh) as i64,
                    top: top_anchor_bottom(lh, shape_h, vh, nd_e, vs, sh) as i64,
                    distance: sl.entry_hit.distance,
                },
            ),
        }
    }
}

/// An optional task as a run of zero or one tasks.
pub open spec fn opt_task(t: Option<RenderTask>) -> Seq<RenderTask> {
    match t {
        None => Seq::empty(),
        Some(task) => seq![task],
    }
}

/// All tasks one slice produces: the entry face, the exit face and the
/// connecting floor or ceiling patch.
pub open spec fn slice_tasks_spec(
    sl: BlockSlice,
    o: Orientation,
    rd: RendererData,
    pose: PlayerPose,
    cos_rel: int,
) -> Seq<RenderTask> {
    opt_task(side_task_spec(sl.entry_hit, rd, pose, cos_rel)) + opt_task(
        side_task_spec(sl.exit_hit, rd, pose, cos_rel),
    ) + opt_task(surface_task_spec(sl, o, rd, pose, cos_rel))
}

/// All tasks a run of slices produces, in order.
pub open spec fn slices_tasks_spec(
    sls: Seq<BlockSlice>,
    o: Orientation,
    rd: RendererData,
    pose: PlayerPose,
    cos_rel: int,
) -> Seq<RenderTask>
    decreases sls.len(),
{
    if sls.len() == 0 {
        Seq::empty()
    } else {
        slices_tasks_spec(sls.drop_last(), o, rd, pose, cos_rel) + slice_tasks_spec(
            sls.last(),
            o,
            rd,
            pose,
            cos_rel,
        )
    }
}

/// Every task one column's map slice produces: the wall's face, then the
/// bottom blocks' tasks, then the top blocks' tasks.
pub open spec fn column_tasks_spec(
    wall: Option<RayHit>,
    bottoms: Seq<BlockSlice>,
    tops: Seq<BlockSlice>,
    rd: RendererData,
    pose: PlayerPose,
    cos_rel: int,
) -> Seq<RenderTask> {
    (match wall {
        None => Seq::empty(),
        Some(h) => opt_task(side_task_spec(h, rd, pose, cos_rel)),
    }) + slices_tasks_spec(bottoms, Orientation::Bottom, rd, pose, cos_rel) + slices_tasks_spec(
        tops,
        Orientation::Top,
        rd,
        pose,
        cos_rel,
    )
}

/// Every task carries a brightness the colour scaler accepts.
pub open spec fn tasks_bright_wf(ts: Seq<RenderTask>) -> bool {
    forall|k: int| 0 <= k < ts.len() ==> 0 <= (#[trigger] ts[k]).brightness <= 1000
}

/// Brightness of a floor or ceiling patch, as executable code.
fn surface_brightness(shape_h: i64, level_h: i64) -> (b: i64)
    requires
        0 <= shape_h <= MAX_HEIGHT,
        0 <= level_h <= MAX_HEIGHT,
    ensures
        b == surface_brightness_spec(shape_h as int, level_h as int),
        0 <= b <= 1000,
{
    if level_h <= 0 {
        1000
    } else {
        let t = div_trunc(500 * shape_h, level_h);
        clamp_i64(500 + t, 500, 1000)
    }
}

/// Append the side-face task of one hit, skipping hits whose normalized
/// distance is not positive.
fn push_side_task(
    tasks: &mut Vec<RenderTask>,
    h: &RayHit,
    rd: &RendererData,
    pose: &PlayerPose,
    cos_rel: i64,
)
    requires
        rd.well_formed(),
        pose_wf(*pose),
        0 <= cos_rel <= SCALE,
        ray_hit_wf(*h),
    ensures
        final(tasks)@ == old(tasks)@ + opt_task(side_task_spec(*h, *rd, *pose, cos_rel as int)),
        tasks_bright_wf(old(tasks)@) ==> tasks_bright_wf(final(tasks)@),
{
    proof {
        lemma_mul_bound(h.distance as int, cos_rel as int, MAX_DISTANCE as int, SCALE as int);
    }
    let nd = div_trunc(h.distance * cos_rel, SCALE);
    if nd <= 0 {
        proof {
            assert(final(tasks)@ =~= old(tasks)@ + opt_task(
                side_task_spec(*h, *rd, *pose, cos_rel as int),
            ));
        }
        return ;
    }
    let vs = rd.vertical_scale_coefficient;
    let sh_half = (rd.screen_height / 2) as i64;
    proof {
        lemma_mul_bound(
            h.side.shape.height as int,
            vs as int,
            MAX_HEIGHT as int,
            MAX_VERTICAL_SCALE as int,
        );
        lemma_mul_bound(pose.view_height as int, vs as int, MAX_COORD as int,
            MAX_VERTICAL_SCALE as int);
        lemma_mul_bound(
            rd.level_height as int - pose.view_height as int,
            vs as int,
            MAX_HEIGHT as int + MAX_COORD as int,
            MAX_VERTICAL_SCALE as int,
        );
    }
    let height = div_trunc(h.side.shape.height * vs, nd * 1000);
    let is_top = match h.side.shape.shape_type {
        ShapeType::Block(Orientation::Top) => true,
        _ => false,
    };
    let bottom: i64 = if is_top {
        let up = div_trunc((rd.level_height - pose.view_height) * vs, nd * 1000);
        sh_half + up - height
    } else {
        let down = div_trunc(pose.view_height * vs, nd * 1000);
        sh_half - down
    };
    let b = brightness(h.side.cos_angle_in_world, h.distance, rd.distance_darkness_coefficient);
    let color = match h.side.shape.shape_type {
        ShapeType::Wall => rd.wall_default_color,
        ShapeType::Block(Orientation::Bottom) => rd.bottom_block_default_color,
        ShapeType::Block(Orientation::Top) => rd.top_block_default_color,
    };
    let task = RenderTask {
        kind: TaskKind::Side,
        color,
        brightness: b,
        bottom,
        top: bottom + height,
        distance: h.distance,
    };
    tasks.push(task);
    proof {
        assert(final(tasks)@ =~= old(tasks)@ + opt_task(
            side_task_spec(*h, *rd, *pose, cos_rel as int),
        ));
    }
}

/// Append the floor or ceiling task of one slice, skipping slices either
/// of whose hits has a non-positive normalized distance.
fn push_surface_task(
    tasks: &mut Vec<RenderTask>,
    sl: &BlockSlice,
    o: Orientation,
    rd: &RendererData,
    pose: &PlayerPose,
    cos_rel: i64,
)
    requires
        rd.well_formed(),
        pose_wf(*pose),
        0 <= cos_rel <= SCALE,
        ray_hit_wf(sl.entry_hit),
        ray_hit_wf(sl.exit_hit),
    ensures
        final(tasks)@ == old(tasks)@ + opt_task(
            surface_task_spec(*sl, o, *rd, *pose, cos_rel as int),
        ),
        tasks_bright_wf(old(tasks)@) ==> tasks_bright_wf(final(tasks)@),
{
    proof {
        lemma_mul_bound(sl.entry_hit.distance as int, cos_rel as int, MAX_DISTANCE as int,
            SCALE as int);
        lemma_mul_bound(sl.exit_hit.distance as int, cos_rel as int, MAX_DISTANCE as int,
            SCALE as int);
    }
    let nd_e = div_trunc(sl.entry_hit.distance * cos_rel, SCALE);
    let nd_x = div_trunc(sl.exit_hit.distance * cos_rel, SCALE);
    if nd_e <= 0 || nd_x <= 0 {
        proof {
            assert(final(tasks)@ =~= old(tasks)@ + opt_task(
                surface_task_spec(*sl, o, *rd, *pose, cos_rel as int),
            ));
        }
        return ;
    }
    let vs = rd.vertical_scale_coefficient;
    let sh_half = (rd.screen_height / 2) as i64;
    let shape_h = sl.entry_hit.side.shape.height;
    proof {
        lemma_mul_bound(shape_h as int, vs as int, MAX_HEIGHT as int, MAX_VERTICAL_SCALE as int);
        lemma_mul_bound(pose.view_height as int, vs as int, MAX_COORD as int,
            MAX_VERTICAL_SCALE as int);
        lemma_mul_bound(
            rd.level_height as int - pose.view_height as int,
            vs as int,
            MAX_HEIGHT as int + MAX_COORD as int,
            MAX_VERTICAL_SCALE as int,
        );
    }
    let bright = surface_brightness(shape_h, rd.level_height);
    let task = match o {
        Orientation::Bottom => {
            let e_down = div_trunc(pose.view_height * vs, nd_e * 1000);
            let e_height = div_trunc(shape_h * vs, nd_e * 1000);
            let x_down = div_trunc(pose.view_height * vs, nd_x * 1000);
            let x_height = div_trunc(shape_h * vs, nd_x * 1000);
            RenderTask {
                kind: TaskKind::Floor(pose.view_height - shape_h),
                color: rd.bottom_block_default_color,
                brightness: bright,
                bottom: sh_half - e_down + e_height,
                top: sh_half - x_down + x_height,
                distance: sl.entry_hit.distance,
            }
        },
        Orientation::Top => {
            let e_up = div_trunc((rd.level_height - pose.view_height) * vs, nd_e * 1000);
            let e_height = div_trunc(shape_h * vs, nd_e * 1000);
            let x_up = div_trunc((rd.level_height - pose.view_height) * vs, nd_x * 1000);
            let x_height = div_trunc(shape_h * vs, nd_x * 1000);
            RenderTask {
                kind: TaskKind::Ceiling((rd.level_height - shape_h) - pose.view_height),
                color: rd.top_block_default_color,
                brightness: bright,
                bottom: sh_half + x_up - x_height,
                top: sh_half + e_up - e_height,
                distance: sl.entry_hit.distance,
            }
        },
    };
    tasks.push(task);
    proof {
        assert(final(tasks)@ =~= old(tasks)@ + opt_task(
            surface_task_spec(*sl, o, *rd, *pose, cos_rel as int),
        ));
    }
}

/// Collect every task of one column's map slice: the wall's face first,
/// then each bottom slice's faces and floor patch, then each top slice's
/// faces and ceiling patch.
pub fn column_tasks(
    ms: &MapSlice,
    rd: &RendererData,
    pose: &PlayerPose,
    cos_rel: i64,
) -> (r: Vec<RenderTask>)
    requires
        rd.well_formed(),
        pose_wf(*pose),
        0 <= cos_rel <= SCALE,
        ms.wall_hit matches Some(h) ==> ray_hit_wf(h),
        forall|k: int|
            0 <= k < ms.bottom_block_slices@.len() ==> block_slice_wf(
                #[trigger] ms.bottom_block_slices@[k],
                Orientation::Bottom,
            ),
        forall|k: int|
            0 <= k < ms.top_block_slices@.len() ==> block_slice_wf(
                #[trigger] ms.top_block_slices@[k],
                Orientation::Top,
            ),
    ensures
        r@ == column_tasks_spec(
            ms.wall_hit,
            ms.bottom_block_slices@,
            ms.top_block_slices@,
            *rd,
            *pose,
            cos_rel as int,
        ),
        tasks_bright_wf(r@),
{
    let mut tasks: Vec<RenderTask> = Vec::new();
    let ghost w_part = match ms.wall_hit {
        None => Seq::<RenderTask>::empty(),
        Some(h) => opt_task(side_task_spec(h, *rd, *pose, cos_rel as int)),
    };
    match &ms.wall_hit {
        Some(h) => {
            push_side_task(&mut tasks, h, rd, pose, cos_rel);
            proof {
                assert(tasks@ =~= w_part);
            }
        },
        None => {},
    }
    let bn = ms.bottom_block_slices.len();
    for i in 0..bn
        invariant
            bn == ms.bottom_block_slices@.len(),
            rd.well_formed(),
            pose_wf(*pose),
            0 <= cos_rel <= SCALE,
            forall|k: int|
                0 <= k < ms.bottom_block_slices@.len() ==> block_slice_wf(
                    #[trigger] ms.bottom_block_slices@[k],
                    Orientation::Bottom,
                ),
            tasks@ == w_part + slices_tasks_spec(
                ms.bottom_block_slices@.take(i as int),
                Orientation::Bottom,
                *rd,
                *pose,
                cos_rel as int,
            ),
            tasks_bright_wf(tasks@),
    {
        let sl = ms.bottom_block_slices[i];
        push_side_task(&mut tasks, &sl.entry_hit, rd, pose, cos_rel);
        push_side_task(&mut tasks, &sl.exit_hit, rd, pose, cos_rel);
        push_surface_task(&mut tasks, &sl, Orientation::Bottom, rd, pose, cos_rel);
        proof {
            assert(ms.bottom_block_slices@.take(i + 1).drop_last() =~= ms.bottom_block_slices@.take(
                i as int,
            ));
            assert(ms.bottom_block_slices@.take(i + 1).last() == sl);
            assert(tasks@ =~= w_part + slices_tasks_spec(
                ms.bottom_block_slices@.take(i + 1),
                Orientation::Bottom,
                *rd,
                *pose,
                cos_rel as int,
            ));
        }
    }
    let ghost b_part = slices_tasks_spec(
        ms.bottom_block_slices@,
        Orientation::Bottom,
        *rd,
        *pose,
        cos_rel as int,
    );
    proof {
        assert(ms.bottom_block_slices@.take(bn as int) =~= ms.bottom_block_slices@);
    }
    let tn = ms.top_block_slices.len();
    for i in 0..tn
        invariant
            tn == ms.top_block_slices@.len(),
            rd.well_formed(),
            pose_wf(*pose),
            0 <= cos_rel <= SCALE,
            forall|k: int|
                0 <= k < ms.top_block_slices@.len() ==> block_slice_wf(
                    #[trigger] ms.top_block_slices@[k],
                    Orientation::Top,
                ),
            tasks@ == w_part + b_part + slices_tasks_spec(
                ms.top_block_slices@.take(i as int),
                Orientation::Top,
                *rd,
                *pose,
                cos_rel as int,
            ),
            tasks_bright_wf(tasks@),
    {
        let sl = ms.top_block_slices[i];
        push_side_task(&mut tasks, &sl.entry_hit, rd, pose, cos_rel);
        push_side_task(&mut tasks, &sl.exit_hit, rd, pose, cos_rel);
        push_surface_task(&mut tasks, &sl, Orientation::Top, rd, pose, cos_rel);
        proof {
            assert(ms.top_block_slices@.take(i + 1).drop_last() =~= ms.top_block_slices@.take(
                i as int,
            ));
            assert(ms.top_block_slices@.take(i + 1).last() == sl);
            assert(tasks@ =~= w_part + b_part + slices_tasks_spec(
                ms.top_block_slices@.take(i + 1),
                Orientation::Top,
                *rd,
                *pose,
                cos_rel as int,
            ));
        }
    }
    proof {
        assert(ms.top_block_slices@.take(tn as int) =~= ms.top_block_slices@);
        assert(tasks@ =~= column_tasks_spec(
            ms.wall_hit,
            ms.bottom_block_slices@,
            ms.top_block_slices@,
            *rd,
            *pose,
            cos_rel as int,
        ));
    }
    tasks
}

/// `t1` paints no later than `t2`: two floors compare by their vertical
/// distance, two ceilings likewise, every other pairing by horizontal
/// distance; the farther task paints first and is overdrawn by nearer
/// ones.
pub open spec fn task_before(t1: RenderTask, t2: RenderTask) -> bool {
    match (t1.kind, t2.kind) {
        (TaskKind::Floor(v1), TaskKind::Floor(v2)) => v1 >= v2,
        (TaskKind::Ceiling(v1), TaskKind::Ceiling(v2)) => v1 >= v2,
        _ => t1.distance >= t2.distance,
    }
}

/// The painting order comparison, as executable code.
fn task_before_exec(t1: &RenderTask, t2: &RenderTask) -> (r: bool)
    ensures
        r == task_before(*t1, *t2),
{
    match (t1.kind, t2.kind) {
        (TaskKind::Floor(v1), TaskKind::Floor(v2)) => v1 >= v2,
        (TaskKind::Ceiling(v1), TaskKind::Ceiling(v2)) => v1 >= v2,
        _ => t1.distance >= t2.distance,
    }
}

/// Insert `t` into an ordered run, after every task that paints no later
/// than it.
pub open spec fn insert_task(sorted: Seq<RenderTask>, t: RenderTask) -> Seq<RenderTask>
    decreases sorted.len(),
{
    if sorted.len() == 0 {
        seq![t]
    } else if task_before(sorted.last(), t) {
        sorted.push(t)
    } else {
        insert_task(sorted.drop_last(), t).push(sorted.last())
    }
}

/// Order a run of tasks for painting (insertion sort, stable).
pub open spec fn order_tasks_spec(ts: Seq<RenderTask>) -> Seq<RenderTask>
    decreases ts.len(),
{
    if ts.len() == 0 {
        Seq::empty()
    } else {
        insert_task(order_tasks_spec(ts.drop_last()), ts.last())
    }
}

/// `insert_task` is positional insertion at the boundary between the
/// prefix that paints no later than `t` and the rest.
proof fn lemma_insert_task_at(sorted: Seq<RenderTask>, t: RenderTask, p: int)
    requires
        0 <= p <= sorted.len(),
        p == 0 || task_before(sorted[p - 1], t),
        forall|k: int| p <= k < sorted.len() ==> !task_before(#[trigger] sorted[k], t),
    ensures
        insert_task(sorted, t) == sorted.insert(p, t),
    decreases sorted.len(),
{
    if sorted.len() == 0 {
        assert(insert_task(sorted, t) =~= sorted.insert(0, t));
    } else if p == sorted.len() {
        assert(insert_task(sorted, t) =~= sorted.insert(p, t));
    } else {
        assert(!task_before(sorted.last(), t));
        lemma_insert_task_at(sorted.drop_last(), t, p);
        assert(insert_task(sorted.drop_last(), t).push(sorted.last()) =~= sorted.insert(p, t));
    }
}

/// Order the tasks for painting, matching `order_tasks_spec` exactly.
pub fn order_tasks(ts: Vec<RenderTask>) -> (r: Vec<RenderTask>)
    requires
        tasks_bright_wf(ts@),
    ensures
        r@ == order_tasks_spec(ts@),
        tasks_bright_wf(r@),
{
    let mut out: Vec<RenderTask> = Vec::new();
    let n = ts.len();
    for i in 0..n
        invariant
            n == ts@.len(),
            tasks_bright_wf(ts@),
            out@ == order_tasks_spec(ts@.take(i as int)),
            tasks_bright_wf(out@),
    {
        let t = ts[i];
        let mut p = out.len();
        while p > 0 && !task_before_exec(&out[p - 1], &t)
            invariant
                0 <= p <= out@.len(),
                forall|k: int| p <= k < out@.len() ==> !task_before(#[trigger] out@[k], t),
            decreases p,
        {
            p = p - 1;
        }
        proof {
            lemma_insert_task_at(out@, t, p as int);
            assert(ts@.take(i + 1).drop_last() =~= ts@.take(i as int));
            assert(ts@.take(i + 1).last() == t);
        }
        out.insert(p, t);
        proof {
            assert(tasks_bright_wf(out@));
        }
    }
    proof {
        assert(ts@.take(n as int) =~= ts@);
    }
    out
}

/// The column after one span is painted: the rows between the clamped
/// bottom (inclusive) and top (exclusive) take the scaled colour, the
/// rest keep their value.
pub open spec fn paint_task_spec(col: Seq<u32>, t: RenderTask) -> Seq<u32> {
    let lo = if t.bottom < 0 {
        0
    } else {
        t.bottom as int
    };
    let hi = if t.top > col.len() {
        col.len() as int
    } else {
        t.top as int
    };
    let px = scale_color_spec(t.color, t.brightness as int);
    Seq::new(col.len(), |r: int| if lo <= r < hi { px } else { col[r] })
}

/// The column after a run of tasks is painted in order.
pub open spec fn paint_all_spec(col: Seq<u32>, ts: Seq<RenderTask>) -> Seq<u32>
    decreases ts.len(),
{
    if ts.len() == 0 {
        col
    } else {
        paint_task_spec(paint_all_spec(col, ts.drop_last()), ts.last())
    }
}

/// Paint one span into the column, as executable code. Rows outside the
/// screen are skipped.
fn paint_task(col: &mut Vec<u32>, t: &RenderTask)
    requires
        0 <= t.brightness <= 1000,
        old(col)@.len() <= 16384,
    ensures
        final(col)@ == paint_task_spec(old(col)@, *t),
        final(col)@.len() == old(col)@.len(),
{
    let px = scale_color(t.color, t.brightness);
    let len = col.len();
    let lo: i64 = if t.bottom < 0 {
        0
    } else {
        t.bottom
    };
    let hi: i64 = if t.top > len as i64 {
        len as i64
    } else {
        t.top
    };
    let mut r: i64 = lo;
    proof {
        assert(col@ =~= Seq::new(old(col)@.len(), |q: int|
            if lo <= q < r { px } else { old(col)@[q] }));
    }
    while r < hi
        invariant
            0 <= lo <= r,
            hi <= len,
            r <= if lo <= hi { hi } else { lo },
            len == col@.len(),
            col@ == Seq::new(old(col)@.len(), |q: int|
                if lo <= q < r { px } else { old(col)@[q] }),
        decreases hi - r,
    {
        col.set(r as usize, px);
        proof {
            assert(col@ =~= Seq::new(old(col)@.len(), |q: int|
                if lo <= q < r + 1 { px } else { old(col)@[q] }));
        }
        r = r + 1;
    }
    proof {
        assert(final(col)@ =~= paint_task_spec(old(col)@, *t));
    }
}

/// Paint every task in order, as executable code.
fn paint_all_tasks(col: &mut Vec<u32>, ts: &Vec<RenderTask>)
    requires
        tasks_bright_wf(ts@),
        old(col)@.len() <= 16384,
    ensures
        final(col)@ == paint_all_spec(old(col)@, ts@),
        final(col)@.len() == old(col)@.len(),
{
    let n = ts.len();
    for i in 0..n
        invariant
            n == ts@.len(),
            tasks_bright_wf(ts@),
            col@.len() == old(col)@.len() <= 16384,
            col@ == paint_all_spec(old(col)@, ts@.take(i as int)),
    {
        paint_task(col, &ts[i]);
        proof {
            assert(ts@.take(i + 1).drop_last() =~= ts@.take(i as int));
            assert(ts@.take(i + 1).last() == ts@[i as int]);
        }
    }
    proof {
        assert(ts@.take(n as int) =~= ts@);
    }
}


/// Cosine of one column's ray angle: the view direction rotated by the
/// column's relative angle, clamped into the unit fixed-point range.
pub open spec fn ray_cos_spec(pose: PlayerPose, cos_rel: int, sin_rel: int) -> int {
    clamp(
        rot_x(pose.cos_view_angle as int, pose.sin_view_angle as int, cos_rel, sin_rel),
        -1000,
        1000,
    )
}

/// Sine of one column's ray angle.
pub open spec fn ray_sin_spec(pose: PlayerPose, cos_rel: int, sin_rel: int) -> int {
    clamp(
        rot_y(pose.cos_view_angle as int, pose.sin_view_angle as int, cos_rel, sin_rel),
        -1000,
        1000,
    )
}

/// Everything column `x` shows, bottom row first: the background with
/// the column's ordered render tasks painted over it.
pub open spec fn column_spec(map: WorldMap, rd: RendererData, pose: PlayerPose, x: int) -> Seq<
    u32,
> {
    let cos_rel = rd.column_cos@[x] as int;
    let sin_rel = rd.column_sin@[x] as int;
    let rc = ray_cos_spec(pose, cos_rel, sin_rel);
    let rs = ray_sin_spec(pose, cos_rel, sin_rel);
    let wall = closest_wall_spec(map.wall_sides@, pose.position, rc, rs);
    let hits = sort_desc_spec(block_hits_spec(map.block_sides@, pose.position, rc, rs, wall));
    let bottoms = pair_fold(hits, Orientation::Bottom).0;
    let tops = pair_fold(hits, Orientation::Top).0;
    let ordered = order_tasks_spec(column_tasks_spec(wall, bottoms, tops, rd, pose, cos_rel));
    paint_all_spec(Seq::new(rd.screen_height as nat, |q: int| rd.background_color), ordered)
}

/// Render one column: cast the column's ray, turn the map slice into
/// render tasks, order them and paint them over the background.
pub fn render_column(map: &WorldMap, rd: &RendererData, pose: &PlayerPose, x: usize) -> (r: Vec<
    u32,
>)
    requires
        map.well_formed(),
        rd.well_formed(),
        pose_wf(*pose),
        x < rd.screen_width,
    ensures
        r@ == column_spec(*map, *rd, *pose, x as int),
        r@.len() == rd.screen_height,
{
    let cos_rel = rd.column_cos[x];
    let sin_rel = rd.column_sin[x];
    let dir = rotate_point_around_origin(
        Point { x: pose.cos_view_angle, y: pose.sin_view_angle },
        cos_rel,
        sin_rel,
    );
    let ray_cos = clamp_i64(dir.x, -SCALE, SCALE);
    let ray_sin = clamp_i64(dir.y, -SCALE, SCALE);
    let ms = raycast(map, pose.position, ray_cos, ray_sin);
    let tasks = column_tasks(&ms, rd, pose, cos_rel);
    let ordered = order_tasks(tasks);
    let mut col: Vec<u32> = Vec::new();
    let h = rd.screen_height;
    for i in 0..h
        invariant
            h == rd.screen_height,
            rd.well_formed(),
            col@ == Seq::new(i as nat, |q: int| rd.background_color),
    {
        col.push(rd.background_color);
        proof {
            assert(col@ =~= Seq::new((i + 1) as nat, |q: int| rd.background_color));
        }
    }
    paint_all_tasks(&mut col, &ordered);
    col
}

/// One full frame as a row-major pixel run: the pixel at
/// `row * width + column` (row 0 at the top of the screen) is the
/// column's value at the vertically flipped row, so that downstream
/// consumers see conventional top-down scanline order.
pub open spec fn frame_spec(map: WorldMap, rd: RendererData, pose: PlayerPose) -> Seq<u32> {
    Seq::new(
        (rd.screen_width * rd.screen_height) as nat,
        |idx: int|
            {
                let row = idx / (rd.screen_width as int);
                let c = idx % (rd.screen_width as int);
                column_spec(map, rd, pose, c)[rd.screen_height - 1 - row]
            },
    )
}

/// A frame is a pure function of the configuration, the map and the
/// pose: rendering twice from unchanged inputs yields identical pixel
/// buffers.
pub proof fn lemma_frame_deterministic(
    map: WorldMap,
    rd: RendererData,
    pose: PlayerPose,
    b1: Seq<u32>,
    b2: Seq<u32>,
)
    requires
        b1 == frame_spec(map, rd, pose),
        b2 == frame_spec(map, rd, pose),
    ensures
        b1 == b2,
{
}

/// Render one frame into `buffer`: fill the background, then render
/// every column and write it in reverse vertical order, so row 0 of the
/// buffer is the top of the view.
pub fn draw(buffer: &mut Vec<u32>, rd: &RendererData, map: &WorldMap, pose: &PlayerPose)
    requires
        map.well_formed(),
        rd.well_formed(),
        pose_wf(*pose),
        old(buffer)@.len() == rd.screen_width * rd.screen_height,
    ensures
        final(buffer)@ == frame_spec(*map, *rd, *pose),
{
    let w = rd.screen_width;
    let h = rd.screen_height;
    let mut i: usize = 0;
    while i < buffer.len()
        invariant
            buffer@.len() == old(buffer)@.len(),
            rd.well_formed(),
        decreases buffer@.len() - i,
    {
        buffer.set(i, rd.background_color);
        i = i + 1;
    }
    let ghost frame = frame_spec(*map, *rd, *pose);
    for x in 0..w
        invariant
            w == rd.screen_width,
            h == rd.screen_height,
            map.well_formed(),
            rd.well_formed(),
            pose_wf(*pose),
            buffer@.len() == w * h,
            frame == frame_spec(*map, *rd, *pose),
            forall|idx: int|
                0 <= idx < w * h && idx % (w as int) < x ==> #[trigger] buffer@[idx] == frame[idx],
    {
        let colv = render_column(map, rd, pose, x);
        for y in 0..h
            invariant
                w == rd.screen_width,
                h == rd.screen_height,
                0 < w <= 16384,
                0 < h <= 16384,
                x < w,
                buffer@.len() == w * h,
                colv@.len() == h,
                colv@ == column_spec(*map, *rd, *pose, x as int),
                frame == frame_spec(*map, *rd, *pose),
                forall|idx: int|
                    0 <= idx < w * h && idx % (w as int) < x ==> #[trigger] buffer@[idx]
                        == frame[idx],
                forall|yp: int|
                    0 <= yp < y ==> #[trigger] buffer@[(h - 1 - yp) * w + x] == colv@[yp],
        {
            proof {
                crate::fixed::lemma_mul_le(
                    h as int - 1 - y as int,
                    w as int,
                    h as int - 1,
                    w as int,
                );
                crate::fixed::lemma_mul_le(h as int - 1, w as int, 16384, 16384);
                vstd::arithmetic::div_mod::lemma_fundamental_div_mod_converse(
                    (h - 1 - y as int) * w,
                    w as int,
                    h - 1 - y as int,
                    0,
                );
                vstd::arithmetic::div_mod::lemma_fundamental_div_mod_converse(
                    (h - 1 - y as int) * (w as int) + x,
                    w as int,
                    h - 1 - y as int,
                    x as int,
                );
                assert((h - 1 - y as int) * (w as int) >= 0) by (nonlinear_arith)
                    requires
                        h as int - 1 - y as int >= 0 && w as int >= 1,
                ;
                assert((h as int - 1) * (w as int) + (w as int) == (h as int) * (w as int))
                    by (nonlinear_arith);
                assert((h as int) * (w as int) == (w as int) * (h as int)) by (nonlinear_arith);
            }
            buffer.set((h - 1 - y) * w + x, colv[y]);
            proof {
                assert forall|yp: int| 0 <= yp < y + 1 implies #[trigger] buffer@[(h - 1 - yp) * w
                    + x] == colv@[yp] by {
                    if yp != y {
                        crate::fixed::lemma_mul_le(
                            h as int - 1 - yp,
                            w as int,
                            h as int - 1,
                            w as int,
                        );
                        assert((h - 1 - yp) * (w as int) != (h - 1 - y as int) * (w as int)
                            && (h - 1 - yp) * (w as int) >= 0) by (nonlinear_arith)
                            requires
                                yp != y as int && w as int >= 1 && 0 <= yp < h && y < h,
                        ;
                        assert((h - 1 - yp) * w + x != (h - 1 - y as int) * w + x);
                        assert(0 <= (h - 1 - yp) * w + x < w * h);
                    }
                }
            }
        }
        proof {
            assert forall|idx: int|
                0 <= idx < w * h && idx % (w as int) < x + 1 implies #[trigger] buffer@[idx]
                == frame[idx] by {
                if idx % (w as int) == x {
                    let row = idx / (w as int);
                    vstd::arithmetic::div_mod::lemma_fundamental_div_mod(idx, w as int);
                    vstd::arithmetic::div_mod::lemma_mod_division_less_than_divisor(
                        idx,
                        w as int,
                    );
                    assert(0 <= row < h) by (nonlinear_arith)
                        requires
                            idx == (w as int) * row + idx % (w as int) && 0 <= idx < w * h && 0
                                <= idx % (w as int) < w && w as int >= 1 && row == idx / (
                            w as int),
                    ;
                    let yp = h - 1 - row;
                    assert((h - 1 - yp) * (w as int) + x == idx) by (nonlinear_arith)
                        requires
                            idx == (w as int) * row + x && yp == h as int - 1 - row,
                    ;
                    assert(buffer@[idx] == colv@[yp]);
                }
            }
        }
    }
    proof {
        assert(final(buffer)@ =~= frame);
    }
}

} // verus!
