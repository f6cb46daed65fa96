use crate::fixed::SCALE;
use crate::map::MAX_HEIGHT;
use vstd::prelude::*;

verus! {

/// Largest screen dimension the renderer admits, in pixels.
pub const MAX_SCREEN_DIM: usize = 16384;

/// Largest vertical scale coefficient, in thousandths of a pixel per
/// world unit.
pub const MAX_VERTICAL_SCALE: i64 = 1_000_000_000;

/// Largest distance-darkness coefficient, in thousandths.
pub const MAX_DARKNESS: i64 = 1_000_000;

/// Projection constants and palette, derived once from the screen size
/// and the field of view and immutable afterwards. The per-column tables
/// hold the cosine and sine of each column's view angle relative to the
/// player, `atan((column - width/2) / projectionPlaneDistance)`, in
/// thousandths; the trigonometry behind them is evaluated by the caller
/// at startup, outside the renderer.
pub struct RendererData {
    pub screen_width: usize,
    pub screen_height: usize,
    pub horizontal_fov: i64,
    pub vertical_fov: i64,
    pub vertical_scale_coefficient: i64,
    pub projection_plane_distance: i64,
    pub background_color: u32,
    pub wall_default_color: u32,
    pub bottom_block_default_color: u32,
    pub top_block_default_color: u32,
    pub distance_darkness_coefficient: i64,
    pub level_height: i64,
    pub column_cos: Vec<i64>,
    pub column_sin: Vec<i64>,
}

impl RendererData {
    /// Dimensions, coefficients and per-column trigonometry tables are in
    /// range; the tables cover exactly one entry per column, and every
    /// relative view angle lies strictly within a quarter turn of the
    /// view axis, so its cosine is non-negative.
    pub open spec fn well_formed(self) -> bool {
        &&& 0 < self.screen_width <= MAX_SCREEN_DIM
        &&& 0 < self.screen_height <= MAX_SCREEN_DIM
        &&& 0 < self.vertical_scale_coefficient <= MAX_VERTICAL_SCALE
        &&& 0 < self.projection_plane_distance
        &&& 0 <= self.distance_darkness_coefficient <= MAX_DARKNESS
        &&& 0 < self.level_height <= MAX_HEIGHT
        &&& self.column_cos@.len() == self.screen_width
        &&& self.column_sin@.len() == self.screen_width
        &&& forall|i: int|
            0 <= i < self.screen_width ==> 0 <= #[trigger] self.column_cos@[i] <= SCALE
        &&& forall|i: int|
            0 <= i < self.screen_width ==> -SCALE <= #[trigger] self.column_sin@[i] <= SCALE
    }
}

/// Assemble and validate the renderer's configuration. Returns nothing
/// when a dimension, a coefficient or a trigonometry table is out of
/// range, and otherwise the bundle holding exactly the given values.
pub fn render_init(
    screen_width: usize,
    screen_height: usize,
    horizontal_fov: i64,
    vertical_fov: i64,
    vertical_scale_coefficient: i64,
    projection_plane_distance: i64,
    background_color: u32,
    distance_darkness_coefficient: i64,
    wall_default_color: u32,
    bottom_block_default_color: u32,
    top_block_default_color: u32,
    level_height: i64,
    column_cos: Vec<i64>,
    column_sin: Vec<i64>,
) -> (r: Option<RendererData>)
    ensures
        r matches Some(rd) ==> {
            &&& rd.well_formed()
            &&& rd.screen_width == screen_width
            &&& rd.screen_height == screen_height
            &&& rd.horizontal_fov == horizontal_fov
            &&& rd.vertical_fov == vertical_fov
            &&& rd.vertical_scale_coefficient == vertical_scale_coefficient
            &&& rd.projection_plane_distance == projection_plane_distance
            &&& rd.background_color == background_color
            &&& rd.wall_default_color == wall_default_color
            &&& rd.bottom_block_default_color == bottom_block_default_color
            &&& rd.top_block_default_color == top_block_default_color
            &&& rd.distance_darkness_coefficient == distance_darkness_coefficient
            &&& rd.level_height == level_height
            &&& rd.column_cos@ == column_cos@
            &&& rd.column_sin@ == column_sin@
        },
        r.is_none() <==> !({
            &&& 0 < screen_width <= MAX_SCREEN_DIM
            &&& 0 < screen_height <= MAX_SCREEN_DIM
            &&& 0 < vertical_scale_coefficient <= MAX_VERTICAL_SCALE
            &&& 0 < projection_plane_distance
            &&& 0 <= distance_darkness_coefficient <= MAX_DARKNESS
            &&& 0 < level_height <= MAX_HEIGHT
            &&& column_cos@.len() == screen_width
            &&& column_sin@.len() == screen_width
            &&& (forall|i: int| 0 <= i < screen_width ==> 0 <= #[trigger] column_cos@[i] <= SCALE)
            &&& (forall|i: int|
                0 <= i < screen_width ==> -SCALE <= #[trigger] column_sin@[i] <= SCALE)
        }),
{
    if !(0 < screen_width && screen_width <= MAX_SCREEN_DIM) {
        return None;
    }
    if !(0 < screen_height && screen_height <= MAX_SCREEN_DIM) {
        return None;
    }
    if !(0 < vertical_scale_coefficient && vertical_scale_coefficient <= MAX_VERTICAL_SCALE) {
        return None;
    }
    if !(0 < projection_plane_distance) {
        return None;
    }
    if !(0 <= distance_darkness_coefficient && distance_darkness_coefficient <= MAX_DARKNESS) {
        return None;
    }
    if !(0 < level_height && level_height <= MAX_HEIGHT) {
        return None;
    }
    if column_cos.len() != screen_width || column_sin.len() != screen_width {
        return None;
    }
    let mut i: usize = 0;
    while i < screen_width
        invariant
            0 <= i <= screen_width,
            column_cos@.len() == screen_width,
            column_sin@.len() == screen_width,
            forall|k: int| 0 <= k < i ==> 0 <= #[trigger] column_cos@[k] <= SCALE,
            forall|k: int| 0 <= k < i ==> -SCALE <= #[trigger] column_sin@[k] <= SCALE,
        decreases screen_width - i,
    {
        if !(0 <= column_cos[i] && column_cos[i] <= SCALE) {
            return None;
        }
        if !(-SCALE <= column_sin[i] && column_sin[i] <= SCALE) {
            return None;
        }
        i = i + 1;
    }
    Some(
        RendererData {
            screen_width,
            screen_height,
            horizontal_fov,
            vertical_fov,
            vertical_scale_coefficient,
            projection_plane_distance,
            background_color,
            wall_default_color,
            bottom_block_default_color,
            top_block_default_color,
            distance_darkness_coefficient,
            level_height,
            column_cos,
            column_sin,
        },
    )
}

} // verus!
