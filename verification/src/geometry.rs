//! Points, triangles and the exact inside test.
use vstd::prelude::*;
use crate::color::Color;
use crate::fixed::Fixed;

verus! {

/// A point of the unit space that a buffer spans: `x` runs over its width,
/// `y` over its height.
#[derive(Clone, Copy, Debug, PartialEq, Eq, Structural)]
pub struct Point2D {
    pub x: Fixed,
    pub y: Fixed,
}

/// Three vertices in clockwise order and one colour for the whole area.
/// The order is the caller's to keep: nothing checks it.
#[derive(Clone, Copy, Debug, PartialEq, Eq, Structural)]
pub struct Triangle {
    pub a: Point2D,
    pub b: Point2D,
    pub c: Point2D,
    pub color: Color,
}

/// The height of a line at some `x`, as the exact fraction `num / den` of
/// raw units. The denominator of a height is positive; the fields are open,
/// so a value with another denominator can be written, and stands for no
/// height.
#[derive(Clone, Copy, Debug, PartialEq, Eq, Structural)]
pub struct Height {
    pub num: i128,
    pub den: i64,
}

impl View for Height {
    type V = (int, int);

    open spec fn view(&self) -> (int, int) {
        (self.num as int, self.den as int)
    }
}

/// How far `p2` lies to the right of `p1`, in raw units.
pub open spec fn run(p1: Point2D, p2: Point2D) -> int {
    p2.x@ - p1.x@
}

/// The height at `x` of the line through `p1` and `p2`, multiplied by
/// `run(p1, p2)`: with `k` the slope and `d` the intercept of that line this
/// is `(k * x + d) * run`.
pub open spec fn height_times_run(p1: Point2D, p2: Point2D, x: Fixed) -> int {
    p1.y@ * run(p1, p2) + (p2.y@ - p1.y@) * (x@ - p1.x@)
}

/// The height at `x` of the line through `p1` and `p2` as numerator and
/// positive denominator, or `None` where the line is vertical and has no
/// height.
pub open spec fn line_height(p1: Point2D, p2: Point2D, x: Fixed) -> Option<(int, int)> {
    if run(p1, p2) > 0 {
        Some((height_times_run(p1, p2, x), run(p1, p2)))
    } else if run(p1, p2) < 0 {
        Some((-height_times_run(p1, p2, x), -run(p1, p2)))
    } else {
        None
    }
}

/// `h < y` for a height `h`; false where there is no height.
pub open spec fn height_below(h: Option<(int, int)>, y: Fixed) -> bool {
    match h {
        Some((num, den)) => num < y@ * den,
        None => false,
    }
}

/// `h > y` for a height `h`; false where there is no height.
pub open spec fn height_above(h: Option<(int, int)>, y: Fixed) -> bool {
    match h {
        Some((num, den)) => num > y@ * den,
        None => false,
    }
}

/// `h == y` for a height `h`; false where there is no height.
pub open spec fn height_equals(h: Option<(int, int)>, y: Fixed) -> bool {
    match h {
        Some((num, den)) => num == y@ * den,
        None => false,
    }
}

/// A point is inside where, at its `x`, the line from `a` to `b` has a
/// height strictly less than its `y`, and the lines from `b` to `c` and from
/// `c` to `a` have heights strictly greater.
pub open spec fn inside(tri: Triangle, p: Point2D) -> bool {
    &&& height_below(line_height(tri.a, tri.b, p.x), p.y)
    &&& height_above(line_height(tri.b, tri.c, p.x), p.y)
    &&& height_above(line_height(tri.c, tri.a, p.x), p.y)
}

/// The line through two points that do not lie above each other passes
/// through both: its height at `p1.x` is `p1.y`, and at `p2.x` it is `p2.y`.
pub proof fn lemma_line_through_points(p1: Point2D, p2: Point2D)
    requires
        p1.x != p2.x,
    ensures
        height_equals(line_height(p1, p2, p1.x), p1.y),
        height_equals(line_height(p1, p2, p2.x), p2.y),
{
    let dx: int = run(p1, p2);
    let dy: int = p2.y@ - p1.y@;
    assert(p1.y@ * dx + dy * dx == p2.y@ * dx) by (nonlinear_arith)
        requires
            dy == p2.y@ - p1.y@,
    ;
    assert(-(p1.y@ * dx) == p1.y@ * (-dx)) by (nonlinear_arith);
    assert(-(p2.y@ * dx) == p2.y@ * (-dx)) by (nonlinear_arith);
}

impl Height {
    /// Whether `num < y * den`. For a positive denominator, which every
    /// height from `slope_height_at` has, that is whether this height is
    /// strictly less than `y`; for another denominator it says nothing of
    /// a height.
    pub fn is_below(self, y: Fixed) -> (r: bool)
        ensures
            r == (self.num < y@ * self.den),
    {
        let yr: i128 = y.raw as i128;
        let d: i128 = self.den as i128;
        assert(-0x4000_0000_0000_0000_0000_0000 <= yr * d <= 0x4000_0000_0000_0000_0000_0000)
            by (nonlinear_arith)
            requires
                -0x8000_0000 <= yr <= 0x7fff_ffff,
                -0x8000_0000_0000_0000 <= d <= 0x7fff_ffff_ffff_ffff,
        ;
        self.num < yr * d
    }

    /// Whether `num > y * den`. For a positive denominator, which every
    /// height from `slope_height_at` has, that is whether this height is
    /// strictly greater than `y`; for another denominator it says nothing
    /// of a height.
    pub fn is_above(self, y: Fixed) -> (r: bool)
        ensures
            r == (self.num > y@ * self.den),
    {
        let yr: i128 = y.raw as i128;
        let d: i128 = self.den as i128;
        assert(-0x4000_0000_0000_0000_0000_0000 <= yr * d <= 0x4000_0000_0000_0000_0000_0000)
            by (nonlinear_arith)
            requires
                -0x8000_0000 <= yr <= 0x7fff_ffff,
                -0x8000_0000_0000_0000 <= d <= 0x7fff_ffff_ffff_ffff,
        ;
        self.num > yr * d
    }
}

/// The height at `x` of the line through `p1` and `p2`, exactly and with a
/// positive denominator. A vertical line has none.
pub fn slope_height_at(p1: Point2D, p2: Point2D, x: Fixed) -> (h: Option<Height>)
    ensures
        match h {
            Some(height) => height.den > 0 && line_height(p1, p2, x) == Some(height@),
            None => line_height(p1, p2, x) is None,
        },
{
    let dx: i128 = p2.x.raw as i128 - p1.x.raw as i128;
    if dx == 0 {
        return None;
    }
    let dy: i128 = p2.y.raw as i128 - p1.y.raw as i128;
    let along: i128 = x.raw as i128 - p1.x.raw as i128;
    let y1: i128 = p1.y.raw as i128;
    assert(-0x1_0000_0000_0000_0000 <= y1 * dx <= 0x1_0000_0000_0000_0000) by (nonlinear_arith)
        requires
            -0x8000_0000 <= y1 <= 0x7fff_ffff,
            -0xffff_ffff <= dx <= 0xffff_ffff,
    ;
    assert(-0x1_0000_0000_0000_0000 <= dy * along <= 0x1_0000_0000_0000_0000) by (nonlinear_arith)
        requires
            -0xffff_ffff <= dy <= 0xffff_ffff,
            -0xffff_ffff <= along <= 0xffff_ffff,
    ;
    let scaled: i128 = y1 * dx + dy * along;
    if dx > 0 {
        Some(Height { num: scaled, den: dx as i64 })
    } else {
        Some(Height { num: -scaled, den: (-dx) as i64 })
    }
}

/// Whether `p` lies inside `tri`. A triangle with a vertical edge holds no
/// point, and one whose vertices run anticlockwise holds the wrong ones.
pub fn is_inside(tri: &Triangle, p: Point2D) -> (r: bool)
    ensures
        r == inside(*tri, p),
{
    match slope_height_at(tri.a, tri.b, p.x) {
        None => { return false; },
        Some(h) => {
            if !h.is_below(p.y) {
                return false;
            }
        },
    }
    match slope_height_at(tri.b, tri.c, p.x) {
        None => { return false; },
        Some(h) => {
            if !h.is_above(p.y) {
                return false;
            }
        },
    }
    match slope_height_at(tri.c, tri.a, p.x) {
        None => false,
        Some(h) => h.is_above(p.y),
    }
}

} // verus!
