use crate::fixed::{
    div_trunc, is_isqrt, isqrt, isqrt_spec, lemma_mul_bound, lemma_tdiv_bound, lemma_tdiv_nonneg,
    tdiv, MAX_COORD, SCALE,
};
use crate::geometry::{in_coord_range, Point};
use vstd::math::abs;
use vstd::prelude::*;

verus! {

/// Height of the level's ceiling above its floor, in thousandths.
pub const LEVEL_HEIGHT: i64 = 25_000;

/// Largest height a shape may carry, in thousandths.
pub const MAX_HEIGHT: i64 = 10_000_000;

/// Whether a block rises from the floor or hangs from the ceiling.
#[derive(Clone, Copy, PartialEq, Eq, Structural, Debug)]
pub enum Orientation {
    Top,
    Bottom,
}

/// Whether a closed polygon bounds the level (a wall) or an obstacle
/// standing inside it (a block).
#[derive(Clone, Copy, PartialEq, Eq, Structural, Debug)]
pub enum ShapeType {
    Wall,
    Block(Orientation),
}

/// A closed polygon of the map. Identity is the `id`: several sides carry
/// copies of one shape record and the compositor recognises them as the
/// same shape purely by that number.
#[derive(Clone, Copy, PartialEq, Eq, Structural, Debug)]
pub struct Shape {
    pub id: usize,
    pub shape_type: ShapeType,
    pub height: i64,
}

/// One directed edge of a polygon, together with a copy of the record of
/// the shape that owns it. `cos_angle_in_world` is the cosine of the
/// edge's orientation angle `atan((p1.x - p2.x) / (p1.y - p2.y))`, in
/// thousandths; it is computed once at construction and drives shading.
#[derive(Clone, Copy, PartialEq, Eq, Structural, Debug)]
pub struct Side {
    pub id: usize,
    pub point1: Point,
    pub point2: Point,
    pub cos_angle_in_world: i64,
    pub shape: Shape,
}

/// The cosine of `atan(dx / dy)` for the edge vector `(dx, dy)` between a
/// side's endpoints, in thousandths: `|dy| / sqrt(dx^2 + dy^2)`. A
/// vertical slope (`dy == 0`) yields 0, the limit of the cosine at the
/// right angle; so does a degenerate zero-length edge.
pub open spec fn cos_angle_spec(p1: Point, p2: Point) -> int {
    let dx = p1.x - p2.x;
    let dy = p1.y - p2.y;
    tdiv(abs(dy) * (SCALE as int), isqrt_spec(dx * dx + dy * dy))
}

/// Squares are non-negative, and no component can exceed the integer
/// square root of the sum of two squares.
proof fn lemma_component_le_isqrt(dx: int, dy: int, r: int)
    by (nonlinear_arith)
    requires
        is_isqrt(dx * dx + dy * dy, r),
        dx * dx + dy * dy <= 9_000_000_000_000_000_000,
    ensures
        -r <= dx <= r,
        -r <= dy <= r,
        r <= 3_100_000_000,
{
}

/// Shape records with valid bounds.
pub open spec fn shape_wf(s: Shape) -> bool {
    0 <= s.height <= MAX_HEIGHT
}

/// A side whose endpoints, shading cosine and shape record are all within
/// the renderer's ranges.
pub open spec fn side_wf(s: Side) -> bool {
    &&& in_coord_range(s.point1)
    &&& in_coord_range(s.point2)
    &&& 0 <= s.cos_angle_in_world <= SCALE
    &&& shape_wf(s.shape)
}

impl Side {
    /// Build one side between `point1` and `point2`, owned by `shape`.
    pub fn new(id: usize, point1: Point, point2: Point, shape: Shape) -> (s: Side)
        requires
            in_coord_range(point1),
            in_coord_range(point2),
            shape_wf(shape),
        ensures
            s.id == id,
            s.point1 == point1,
            s.point2 == point2,
            s.shape == shape,
            s.cos_angle_in_world == cos_angle_spec(point1, point2),
            side_wf(s),
    {
        let dx = point1.x - point2.x;
        let dy = point1.y - point2.y;
        proof {
            lemma_mul_bound(dx as int, dx as int, 2 * MAX_COORD as int, 2 * MAX_COORD as int);
            lemma_mul_bound(dy as int, dy as int, 2 * MAX_COORD as int, 2 * MAX_COORD as int);
            assert(dx as int * dx as int >= 0) by (nonlinear_arith);
            assert(dy as int * dy as int >= 0) by (nonlinear_arith);
        }
        let sq: i64 = dx * dx + dy * dy;
        let root: u64 = isqrt(sq as u64);
        proof {
            lemma_component_le_isqrt(dx as int, dy as int, root as int);
        }
        let dy_abs: i64 = if dy < 0 {
            -dy
        } else {
            dy
        };
        let cos_angle: i64 = if root == 0 {
            0
        } else {
            proof {
                lemma_tdiv_bound(dy_abs as int * 1000, root as int, SCALE as int);
                lemma_tdiv_nonneg(dy_abs as int * 1000, root as int);
            }
            div_trunc(dy_abs * SCALE, root as i64)
        };
        Side { id, point1, point2, cos_angle_in_world: cos_angle, shape }
    }
}

/// The side a closed loop of `points` generates at position `i`: it runs
/// from the previous point (wrapping around at the front) to `points[i]`,
/// so that the whole run closes the loop.
pub open spec fn built_side(points: Seq<Point>, shape: Shape, base_id: int, i: int) -> Side {
    let p1 = if i == 0 {
        points[points.len() - 1]
    } else {
        points[i - 1]
    };
    let p2 = points[i];
    Side {
        id: (base_id + i) as usize,
        point1: p1,
        point2: p2,
        cos_angle_in_world: cos_angle_spec(p1, p2) as i64,
        shape: shape,
    }
}

/// The full run of sides the closed loop of `points` generates.
pub open spec fn built_sides(points: Seq<Point>, shape: Shape, base_id: int) -> Seq<Side> {
    Seq::new(points.len(), |i: int| built_side(points, shape, base_id, i))
}

/// The world's static geometry: wall sides and shapes, block sides and
/// shapes, in parallel lists, plus the counters that hand out fresh ids.
pub struct WorldMap {
    pub id: usize,
    pub wall_sides: Vec<Side>,
    pub wall_shapes: Vec<Shape>,
    pub block_sides: Vec<Side>,
    pub block_shapes: Vec<Shape>,
    pub side_count: usize,
    pub shape_count: usize,
}

impl WorldMap {
    /// Every stored side and shape is in range, wall lists hold only wall
    /// geometry and block lists only block geometry.
    pub open spec fn well_formed(self) -> bool {
        &&& forall|i: int|
            0 <= i < self.wall_sides@.len() ==> side_wf(#[trigger] self.wall_sides@[i])
                && self.wall_sides@[i].shape.shape_type == ShapeType::Wall
        &&& forall|i: int|
            0 <= i < self.block_sides@.len() ==> side_wf(#[trigger] self.block_sides@[i])
                && (self.block_sides@[i].shape.shape_type matches ShapeType::Block(_))
        &&& forall|i: int| 0 <= i < self.wall_shapes@.len() ==> shape_wf(#[trigger] self.wall_shapes@[i])
        &&& forall|i: int|
            0 <= i < self.block_shapes@.len() ==> shape_wf(#[trigger] self.block_shapes@[i])
    }

    /// Append one closed polygon built from `points`: one fresh shape
    /// record and one side per point, each side running from the previous
    /// point (wrapping around) to the current one, exactly as
    /// `built_sides` describes. An empty point list is refused and leaves
    /// the map untouched.
    pub fn add_shape_from_points(
        &mut self,
        points: Vec<Point>,
        shape_type: ShapeType,
        height: i64,
    ) -> (r: Option<()>)
        requires
            old(self).well_formed(),
            forall|i: int| 0 <= i < points@.len() ==> in_coord_range(#[trigger] points@[i]),
            0 <= height <= MAX_HEIGHT,
            old(self).side_count + points@.len() <= usize::MAX,
            old(self).shape_count < usize::MAX,
        ensures
            final(self).well_formed(),
            r.is_some() <==> points@.len() > 0,
            points@.len() == 0 ==> *final(self) == *old(self),
            points@.len() > 0 ==> ({
                let sh = Shape { id: old(self).shape_count, shape_type: shape_type, height: height };
                let run = built_sides(points@, sh, old(self).side_count as int);
                &&& final(self).id == old(self).id
                &&& final(self).side_count == old(self).side_count + points@.len()
                &&& final(self).shape_count == old(self).shape_count + 1
                &&& ((shape_type matches ShapeType::Wall) ==> {
                    &&& final(self).wall_sides@ == old(self).wall_sides@ + run
                    &&& final(self).wall_shapes@ == old(self).wall_shapes@.push(sh)
                    &&& final(self).block_sides@ == old(self).block_sides@
                    &&& final(self).block_shapes@ == old(self).block_shapes@
                })
                &&& ((shape_type matches ShapeType::Block(_)) ==> {
                    &&& final(self).block_sides@ == old(self).block_sides@ + run
                    &&& final(self).block_shapes@ == old(self).block_shapes@.push(sh)
                    &&& final(self).wall_sides@ == old(self).wall_sides@
                    &&& final(self).wall_shapes@ == old(self).wall_shapes@
                })
            }),
    {
        if points.len() == 0 {
            return None;
        }
        let shape = Shape { id: self.shape_count, shape_type, height };
        let ghost base_id = self.side_count as int;
        let n = points.len();
        let mut run: Vec<Side> = Vec::new();
        let mut point2: Point = points[n - 1];
        for i in 0..n
            invariant
                n == points@.len(),
                0 < n <= usize::MAX,
                forall|k: int| 0 <= k < n ==> in_coord_range(#[trigger] points@[k]),
                shape_wf(shape),
                point2 == (if i == 0 {
                    points@[n - 1]
                } else {
                    points@[i - 1]
                }),
                run@.len() == i,
                forall|k: int| 0 <= k < i ==> run@[k] == built_side(points@, shape, base_id, k),
                forall|k: int|
                    0 <= k < i ==> side_wf(#[trigger] run@[k]) && run@[k].shape == shape,
                *self == *old(self),
                base_id == self.side_count as int,
                base_id + n <= usize::MAX,
        {
            let point1 = point2;
            point2 = points[i];
            let ghost id_int = base_id + i as int;
            let side = Side::new((self.side_count + i), point1, point2, shape);
            proof {
                assert(side == built_side(points@, shape, base_id, i as int));
            }
            run.push(side);
        }
        proof {
            assert(run@ =~= built_sides(points@, shape, base_id));
        }
        match shape_type {
            ShapeType::Wall => {
                self.wall_sides.append(&mut run);
                self.wall_shapes.push(shape);
            },
            ShapeType::Block(_) => {
                self.block_sides.append(&mut run);
                self.block_shapes.push(shape);
            },
        }
        self.side_count = self.side_count + n;
        self.shape_count = self.shape_count + 1;
        Some(())
    }
}

/// The vertices of the demonstration level's wall polygon.
pub open spec fn demo_wall_points() -> Seq<Point> {
    seq![
        Point { x: 200_000, y: 100_000 },
        Point { x: 250_000, y: 200_000 },
        Point { x: 350_000, y: 200_000 },
        Point { x: 275_000, y: 250_000 },
        Point { x: 300_000, y: 350_000 },
        Point { x: 200_000, y: 300_000 },
        Point { x: 100_000, y: 350_000 },
        Point { x: 125_000, y: 250_000 },
        Point { x: 50_000, y: 200_000 },
        Point { x: 150_000, y: 200_000 },
    ]
}

/// The vertices of the demonstration level's floor-standing block.
pub open spec fn demo_bottom_points() -> Seq<Point> {
    seq![
        Point { x: 200_000, y: 200_000 },
        Point { x: 175_000, y: 200_000 },
        Point { x: 175_000, y: 175_000 },
    ]
}

/// The vertices of the demonstration level's ceiling-hanging block.
pub open spec fn demo_top_points() -> Seq<Point> {
    seq![
        Point { x: 205_000, y: 205_000 },
        Point { x: 180_000, y: 205_000 },
        Point { x: 180_000, y: 178_000 },
    ]
}

impl WorldMap {
    /// Build the demonstration level: one ten-sided wall polygon, one
    /// floor-standing block and one ceiling-hanging block.
    pub fn new() -> (r: Option<WorldMap>)
        ensures
            r.is_some(),
            r matches Some(m) ==> {
                let wall_shape = Shape { id: 0, shape_type: ShapeType::Wall, height: LEVEL_HEIGHT };
                let bottom_shape = Shape {
                    id: 1,
                    shape_type: ShapeType::Block(Orientation::Bottom),
                    height: 10_000,
                };
                let top_shape = Shape {
                    id: 2,
                    shape_type: ShapeType::Block(Orientation::Top),
                    height: 10_000,
                };
                &&& m.well_formed()
                &&& m.wall_sides@ == built_sides(demo_wall_points(), wall_shape, 0)
                &&& m.wall_shapes@ == seq![wall_shape]
                &&& m.block_sides@ == built_sides(demo_bottom_points(), bottom_shape, 10)
                    + built_sides(demo_top_points(), top_shape, 13)
                &&& m.block_shapes@ == seq![bottom_shape, top_shape]
                &&& m.side_count == 16
                &&& m.shape_count == 3
            },
    {
        let mut map = WorldMap {
            id: 0,
            wall_sides: Vec::new(),
            wall_shapes: Vec::new(),
            block_sides: Vec::new(),
            block_shapes: Vec::new(),
            side_count: 0,
            shape_count: 0,
        };
        let wall_points: Vec<Point> = vec![
            Point { x: 200_000, y: 100_000 },
            Point { x: 250_000, y: 200_000 },
            Point { x: 350_000, y: 200_000 },
            Point { x: 275_000, y: 250_000 },
            Point { x: 300_000, y: 350_000 },
            Point { x: 200_000, y: 300_000 },
            Point { x: 100_000, y: 350_000 },
            Point { x: 125_000, y: 250_000 },
            Point { x: 50_000, y: 200_000 },
            Point { x: 150_000, y: 200_000 },
        ];
        proof {
            assert(wall_points@ =~= demo_wall_points());
        }
        match map.add_shape_from_points(wall_points, ShapeType::Wall, LEVEL_HEIGHT) {
            Some(()) => {},
            None => {
                proof {
                    assert(false);
                }
                return None;
            },
        }
        let bottom_block_points: Vec<Point> = vec![
            Point { x: 200_000, y: 200_000 },
            Point { x: 175_000, y: 200_000 },
            Point { x: 175_000, y: 175_000 },
        ];
        proof {
            assert(bottom_block_points@ =~= demo_bottom_points());
        }
        match map.add_shape_from_points(
            bottom_block_points,
            ShapeType::Block(Orientation::Bottom),
            10_000,
        ) {
            Some(()) => {},
            None => {
                proof {
                    assert(false);
                }
                return None;
            },
        }
        let top_block_points: Vec<Point> = vec![
            Point { x: 205_000, y: 205_000 },
            Point { x: 180_000, y: 205_000 },
            Point { x: 180_000, y: 178_000 },
        ];
        proof {
            assert(top_block_points@ =~= demo_top_points());
        }
        match map.add_shape_from_points(
            top_block_points,
            ShapeType::Block(Orientation::Top),
            10_000,
        ) {
            Some(()) => {},
            None => {
                proof {
                    assert(false);
                }
                return None;
            },
        }
        proof {
            assert(map.wall_sides@ =~= built_sides(
                demo_wall_points(),
                Shape { id: 0, shape_type: ShapeType::Wall, height: LEVEL_HEIGHT },
                0,
            ));
            assert(map.block_sides@ =~= built_sides(
                demo_bottom_points(),
                Shape { id: 1, shape_type: ShapeType::Block(Orientation::Bottom), height: 10_000 },
                10,
            )
                + built_sides(
                demo_top_points(),
                Shape { id: 2, shape_type: ShapeType::Block(Orientation::Top), height: 10_000 },
                13,
            ));
            assert(map.wall_shapes@ =~= seq![
                Shape { id: 0, shape_type: ShapeType::Wall, height: LEVEL_HEIGHT },
            ]);
            assert(map.block_shapes@ =~= seq![
                Shape { id: 1, shape_type: ShapeType::Block(Orientation::Bottom), height: 10_000 },
                Shape { id: 2, shape_type: ShapeType::Block(Orientation::Top), height: 10_000 },
            ]);
        }
        Some(map)
    }
}

} // verus!
