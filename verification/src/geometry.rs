use crate::fixed::{div_trunc, lemma_mul_bound, lemma_mul_le, lemma_tdiv_bound,
    lemma_tdiv_scale_remainder, lemma_tdiv_scale_vs_floor, tdiv, MAX_COORD, SCALE};
use vstd::math::abs;
use vstd::prelude::*;

verus! {

/// A point of the 2D world, in fixed-point thousandths of a world unit.
#[derive(Clone, Copy, PartialEq, Eq, Structural, Debug)]
pub struct Point {
    pub x: i64,
    pub y: i64,
}

/// The point lies within the coordinate range the renderer admits.
pub open spec fn in_coord_range(p: Point) -> bool {
    -MAX_COORD <= p.x <= MAX_COORD && -MAX_COORD <= p.y <= MAX_COORD
}

/// A fixed-point cosine/sine pair: both components lie in `[-SCALE, SCALE]`.
pub open spec fn trig_in_range(c: int, s: int) -> bool {
    -SCALE <= c <= SCALE && -SCALE <= s <= SCALE
}

/// First component of rotating `(x, y)` by the angle whose cosine and sine
/// are `c / SCALE` and `s / SCALE`.
pub open spec fn rot_x(x: int, y: int, c: int, s: int) -> int {
    tdiv(x * c - y * s, SCALE as int)
}

/// Second component of the same rotation.
pub open spec fn rot_y(x: int, y: int, c: int, s: int) -> int {
    tdiv(x * s + y * c, SCALE as int)
}

impl Point {
    /// Component-wise difference `self - other`.
    pub fn sub(self, other: Point) -> (r: Point)
        requires
            abs(self.x as int) + abs(other.x as int) <= i64::MAX,
            abs(self.y as int) + abs(other.y as int) <= i64::MAX,
        ensures
            r.x == self.x - other.x,
            r.y == self.y - other.y,
    {
        Point { x: self.x - other.x, y: self.y - other.y }
    }

    /// Component-wise sum `self + other`.
    pub fn add(self, other: Point) -> (r: Point)
        requires
            abs(self.x as int) + abs(other.x as int) <= i64::MAX,
            abs(self.y as int) + abs(other.y as int) <= i64::MAX,
        ensures
            r.x == self.x + other.x,
            r.y == self.y + other.y,
    {
        Point { x: self.x + other.x, y: self.y + other.y }
    }
}

/// Rotate `p` around the origin by the angle whose cosine and sine are
/// `cos_a / SCALE` and `sin_a / SCALE`:
/// `x' = x cos - y sin`, `y' = x sin + y cos`, in fixed point.
pub fn rotate_point_around_origin(p: Point, cos_a: i64, sin_a: i64) -> (r: Point)
    requires
        trig_in_range(cos_a as int, sin_a as int),
        abs(p.x as int) <= 16 * MAX_COORD,
        abs(p.y as int) <= 16 * MAX_COORD,
    ensures
        r.x == rot_x(p.x as int, p.y as int, cos_a as int, sin_a as int),
        r.y == rot_y(p.x as int, p.y as int, cos_a as int, sin_a as int),
        abs(r.x as int) <= abs(p.x as int) + abs(p.y as int),
        abs(r.y as int) <= abs(p.x as int) + abs(p.y as int),
{
    proof {
        let px = p.x as int;
        let py = p.y as int;
        let c = cos_a as int;
        let s = sin_a as int;
        let ax = abs(px) as int;
        let ay = abs(py) as int;
        lemma_mul_bound(px, c, ax, SCALE as int);
        lemma_mul_bound(py, s, ay, SCALE as int);
        lemma_mul_bound(py, c, ay, SCALE as int);
        lemma_mul_bound(px, s, ax, SCALE as int);
        lemma_mul_le(ax, SCALE as int, 16 * MAX_COORD as int, SCALE as int);
        lemma_mul_le(ay, SCALE as int, 16 * MAX_COORD as int, SCALE as int);
        assert(ax * (SCALE as int) + ay * (SCALE as int) == (ax + ay) * (SCALE as int))
            by (nonlinear_arith);
        lemma_tdiv_bound(px * c - py * s, SCALE as int, ax + ay);
        lemma_tdiv_bound(px * s + py * c, SCALE as int, ax + ay);
    }
    let xc = p.x * cos_a;
    let ys = p.y * sin_a;
    let xs = p.x * sin_a;
    let yc = p.y * cos_a;
    let rx = div_trunc(xc - ys, SCALE);
    let ry = div_trunc(xs + yc, SCALE);
    Point { x: rx, y: ry }
}

/// Rotating by an exact unit cosine/sine pair and back recovers the point
/// up to two thousandths in each coordinate: each of the two truncating
/// divisions loses less than one thousandth.
pub proof fn lemma_rotation_round_trip(x: int, y: int, c: int, s: int)
    requires
        c * c + s * s == 1_000_000,
        -1000 <= c <= 1000,
        -1000 <= s <= 1000,
    ensures
        -2 <= rot_x(rot_x(x, y, c, s), rot_y(x, y, c, s), c, -s) - x <= 2,
        -2 <= rot_y(rot_x(x, y, c, s), rot_y(x, y, c, s), c, -s) - y <= 2,
{
    let u = x * c - y * s;
    let v = x * s + y * c;
    let x1 = tdiv(u, 1000);
    let y1 = tdiv(v, 1000);
    lemma_tdiv_scale_remainder(u);
    lemma_tdiv_scale_remainder(v);
    let r1 = u - 1000 * x1;
    let r2 = v - 1000 * y1;
    let ax = x1 * c - y1 * (-s);
    let ay = x1 * (-s) + y1 * c;
    assert(x1 * c - y1 * (-s) == x1 * c + y1 * s) by (nonlinear_arith);
    assert(x1 * (-s) + y1 * c == y1 * c - x1 * s) by (nonlinear_arith);
    lemma_inverse_numerator(x, y, c, s, x1, y1, r1, r2);
    lemma_mul_bound(r1, c, 999, 1000);
    lemma_mul_bound(r2, s, 999, 1000);
    lemma_mul_bound(r2, c, 999, 1000);
    lemma_mul_bound(r1, s, 999, 1000);
    let ex = x * 1000 - ax;
    let ey = y * 1000 - ay;
    assert(1000 * ex == r1 * c + r2 * s);
    assert(1000 * ey == r2 * c - r1 * s);
    assert(-1998 <= ex <= 1998);
    assert(-1998 <= ey <= 1998);
    lemma_bounded_near_multiple(ax, x);
    lemma_bounded_near_multiple(ay, y);
    assert(rot_x(x1, y1, c, -s) == tdiv(ax, 1000));
    assert(rot_y(x1, y1, c, -s) == tdiv(ay, 1000));
}

/// A rotation never grows a coordinate beyond the sum of the input
/// magnitudes.
pub proof fn lemma_rot_abs_bound(a: int, b: int, c: int, s: int)
    requires
        trig_in_range(c, s),
    ensures
        -(abs(a) + abs(b)) <= rot_x(a, b, c, s) <= abs(a) + abs(b),
        -(abs(a) + abs(b)) <= rot_y(a, b, c, s) <= abs(a) + abs(b),
{
    lemma_mul_bound(a, c, abs(a) as int, 1000);
    lemma_mul_bound(b, s, abs(b) as int, 1000);
    lemma_mul_bound(a, s, abs(a) as int, 1000);
    lemma_mul_bound(b, c, abs(b) as int, 1000);
    assert((abs(a) as int) * 1000 + (abs(b) as int) * 1000 == (abs(a) + abs(b)) * 1000)
        by (nonlinear_arith);
    lemma_tdiv_bound(a * c - b * s, 1000, abs(a) as int + abs(b) as int);
    lemma_tdiv_bound(a * s + b * c, 1000, abs(a) as int + abs(b) as int);
}

/// The numerators of the inverse rotation, scaled by SCALE, differ from
/// the original coordinates scaled by SCALE squared only by the error
/// terms the two forward divisions left behind.
proof fn lemma_inverse_numerator(
    x: int,
    y: int,
    c: int,
    s: int,
    x1: int,
    y1: int,
    r1: int,
    r2: int,
)
    requires
        c * c + s * s == 1_000_000,
        1000 * x1 == (x * c - y * s) - r1,
        1000 * y1 == (x * s + y * c) - r2,
    ensures
        1000 * (x1 * c + y1 * s) == x * 1_000_000 - (r1 * c + r2 * s),
        1000 * (y1 * c - x1 * s) == y * 1_000_000 - (r2 * c - r1 * s),
{
    broadcast use vstd::arithmetic::mul::group_mul_properties;

    assert(1000 * (x1 * c + y1 * s) == (1000 * x1) * c + (1000 * y1) * s);
    assert(((x * c - y * s) - r1) * c == (x * c) * c - (y * s) * c - r1 * c);
    assert(((x * s + y * c) - r2) * s == (x * s) * s + (y * c) * s - r2 * s);
    assert((x * c) * c + (x * s) * s == x * (c * c + s * s));
    assert((y * s) * c == (y * c) * s);
    assert(1000 * (y1 * c - x1 * s) == (1000 * y1) * c - (1000 * x1) * s);
    assert(((x * s + y * c) - r2) * c == (x * s) * c + (y * c) * c - r2 * c);
    assert(((x * c - y * s) - r1) * s == (x * c) * s - (y * s) * s - r1 * s);
    assert((y * c) * c + (y * s) * s == y * (c * c + s * s));
    assert((x * s) * c == (x * c) * s);
}

/// A number within two thousand of a multiple of the scale divides,
/// truncating, to within two of the multiplier.
proof fn lemma_bounded_near_multiple(a: int, x: int)
    requires
        1000 * x - 1998 <= a <= 1000 * x + 1998,
    ensures
        x - 2 <= tdiv(a, 1000) <= x + 2,
{
    lemma_tdiv_scale_vs_floor(a);
    vstd::arithmetic::div_mod::lemma_div_multiples_vanish(x - 2, 1000);
    vstd::arithmetic::div_mod::lemma_div_is_ordered(1000 * (x - 2), a, 1000);
    vstd::arithmetic::div_mod::lemma_fundamental_div_mod_converse(
        1000 * (x + 1) + 998,
        1000,
        x + 1,
        998,
    );
    vstd::arithmetic::div_mod::lemma_div_is_ordered(a, 1000 * (x + 1) + 998, 1000);
}

} // verus!
