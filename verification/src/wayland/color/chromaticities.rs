//! Chromaticities and gamuts.

use vstd::prelude::*;

verus! {

/// CIE 1931 xy chromaticities of a set of primaries and their white point, in protocol wire
/// units (coordinate multiplied by 1,000,000).
#[derive(Debug, Clone, Copy)]
pub struct Chromaticities {
    /// The red primary as (x, y).
    pub red: (i32, i32),
    /// The green primary as (x, y).
    pub green: (i32, i32),
    /// The blue primary as (x, y).
    pub blue: (i32, i32),
    /// The white point as (x, y).
    pub white: (i32, i32),
}

impl PartialEq for Chromaticities {
    fn eq(&self, other: &Self) -> (same: bool) {
        self.red.0 == other.red.0 && self.red.1 == other.red.1 && self.green.0 == other.green.0
            && self.green.1 == other.green.1 && self.blue.0 == other.blue.0 && self.blue.1
            == other.blue.1 && self.white.0 == other.white.0 && self.white.1 == other.white.1
    }
}

impl Eq for Chromaticities {

}

impl vstd::std_specs::cmp::PartialEqSpecImpl for Chromaticities {
    open spec fn obeys_eq_spec() -> bool {
        true
    }

    open spec fn eq_spec(&self, other: &Self) -> bool {
        *self == *other
    }
}

/// Twice the signed area of the triangle `(o, a, b)`: positive if its corners are listed
/// counter-clockwise.
pub open spec fn cross(o: (i32, i32), a: (i32, i32), b: (i32, i32)) -> int {
    (a.0 - o.0) * (b.1 - o.1) - (a.1 - o.1) * (b.0 - o.0)
}

/// Whether `x` is one of two numbers, or lies between them.
pub open spec fn is_between(x: int, from: int, to: int) -> bool {
    from <= x <= to || to <= x <= from
}

/// Whether `p` lies on the line segment from `a` to `b`, its ends included.
pub open spec fn on_segment(p: (i32, i32), a: (i32, i32), b: (i32, i32)) -> bool {
    &&& cross(a, b, p) == 0
    &&& is_between(p.0 as int, a.0 as int, b.0 as int)
    &&& is_between(p.1 as int, a.1 as int, b.1 as int)
}

/// Whether `p` is not on the left of one edge of the triangle `(a, b, c)` and on the right of
/// another.
pub open spec fn on_one_side(p: (i32, i32), a: (i32, i32), b: (i32, i32), c: (i32, i32)) -> bool {
    ||| cross(a, b, p) >= 0 && cross(b, c, p) >= 0 && cross(c, a, p) >= 0
    ||| cross(a, b, p) <= 0 && cross(b, c, p) <= 0 && cross(c, a, p) <= 0
}

/// Whether `p` lies inside or on an edge of the triangle `(a, b, c)`. A triangle without area has
/// only its edges.
pub open spec fn in_triangle(p: (i32, i32), a: (i32, i32), b: (i32, i32), c: (i32, i32)) -> bool {
    if cross(a, b, c) != 0 {
        on_one_side(p, a, b, c)
    } else {
        on_segment(p, a, b) || on_segment(p, b, c) || on_segment(p, c, a)
    }
}

/// Whether `p` is the mean of the three corners with these weights.
pub open spec fn is_weighted_mean(
    p: (i32, i32),
    a: (i32, i32),
    b: (i32, i32),
    c: (i32, i32),
    u: int,
    v: int,
    w: int,
) -> bool {
    &&& u >= 0 && v >= 0 && w >= 0 && u + v + w > 0
    &&& (u + v + w) * p.0 == u * a.0 + v * b.0 + w * c.0
    &&& (u + v + w) * p.1 == u * a.1 + v * b.1 + w * c.1
}

impl Chromaticities {
    /// Whether the gamut of `other` lies inside the triangle of `self`.
    pub open spec fn contains_gamut(self, other: Chromaticities) -> bool {
        &&& in_triangle(other.red, self.red, self.green, self.blue)
        &&& in_triangle(other.green, self.red, self.green, self.blue)
        &&& in_triangle(other.blue, self.red, self.green, self.blue)
        &&& in_triangle(other.white, self.red, self.green, self.blue)
    }

    /// Whether the primaries span a triangle that is not a mere line.
    pub open spec fn is_triangle(self) -> bool {
        cross(self.red, self.green, self.blue) != 0
    }

    /// Whether the chromaticity gamut of `other` (its primaries and white point) lies entirely
    /// inside (or on the boundary of) the RGB triangle of `self`.
    ///
    /// This is the 2D gamut-containment check used to decide whether a target color volume
    /// stays within the primary color volume.
    pub fn gamut_contains(&self, other: &Chromaticities) -> (contains: bool)
        ensures
            contains == self.contains_gamut(*other),
    {
        point_in_triangle(other.red, self.red, self.green, self.blue) && point_in_triangle(
            other.green,
            self.red,
            self.green,
            self.blue,
        ) && point_in_triangle(other.blue, self.red, self.green, self.blue) && point_in_triangle(
            other.white,
            self.red,
            self.green,
            self.blue,
        )
    }
}

fn cross_product(o: (i32, i32), a: (i32, i32), b: (i32, i32)) -> (product: i128)
    ensures
        product == cross(o, a, b),
{
    let ax: i128 = a.0 as i128 - o.0 as i128;
    let ay: i128 = a.1 as i128 - o.1 as i128;
    let bx: i128 = b.0 as i128 - o.0 as i128;
    let by: i128 = b.1 as i128 - o.1 as i128;
    assert(-0x1_0000_0000_0000_0000 <= ax * by <= 0x1_0000_0000_0000_0000) by (nonlinear_arith)
        requires
            -0x1_0000_0000 <= ax <= 0x1_0000_0000,
            -0x1_0000_0000 <= by <= 0x1_0000_0000,
    ;
    assert(-0x1_0000_0000_0000_0000 <= ay * bx <= 0x1_0000_0000_0000_0000) by (nonlinear_arith)
        requires
            -0x1_0000_0000 <= ay <= 0x1_0000_0000,
            -0x1_0000_0000 <= bx <= 0x1_0000_0000,
    ;
    ax * by - ay * bx
}

fn lies_between(x: i32, from: i32, to: i32) -> (between: bool)
    ensures
        between == is_between(x as int, from as int, to as int),
{
    from <= x && x <= to || to <= x && x <= from
}

fn point_on_segment(p: (i32, i32), a: (i32, i32), b: (i32, i32)) -> (on: bool)
    ensures
        on == on_segment(p, a, b),
{
    cross_product(a, b, p) == 0 && lies_between(p.0, a.0, b.0) && lies_between(p.1, a.1, b.1)
}

/// Whether `p` lies inside (or on an edge of) the triangle `(a, b, c)`, in exact integer
/// arithmetic and independent of winding order. A triangle without area has only its edges.
pub fn point_in_triangle(p: (i32, i32), a: (i32, i32), b: (i32, i32), c: (i32, i32)) -> (inside:
    bool)
    ensures
        inside == in_triangle(p, a, b, c),
{
    if cross_product(a, b, c) == 0 {
        return point_on_segment(p, a, b) || point_on_segment(p, b, c) || point_on_segment(p, c, a);
    }
    let d1: i128 = cross_product(a, b, p);
    let d2: i128 = cross_product(b, c, p);
    let d3: i128 = cross_product(c, a, p);
    let has_neg: bool = d1 < 0 || d2 < 0 || d3 < 0;
    let has_pos: bool = d1 > 0 || d2 > 0 || d3 > 0;
    !(has_neg && has_pos)
}

/// Reversing the edge reverses the sign of a cross product.
proof fn lemma_cross_reversed(a: (i32, i32), b: (i32, i32), p: (i32, i32))
    ensures
        cross(b, a, p) == -cross(a, b, p),
{
    let (ax, ay, bx, by, px, py) = (
        a.0 as int,
        a.1 as int,
        b.0 as int,
        b.1 as int,
        p.0 as int,
        p.1 as int,
    );
    assert((ax - bx) * (py - by) - (ay - by) * (px - bx) == -((bx - ax) * (py - ay) - (by - ay) * (
    px - ax))) by (nonlinear_arith);
}

/// A cross product with an edge is an affine function of the point.
proof fn lemma_cross_of_mean(
    o: (i32, i32),
    e: (i32, i32),
    p: (i32, i32),
    a: (i32, i32),
    b: (i32, i32),
    c: (i32, i32),
    u: int,
    v: int,
    w: int,
)
    requires
        is_weighted_mean(p, a, b, c, u, v, w),
    ensures
        (u + v + w) * cross(o, e, p) == u * cross(o, e, a) + v * cross(o, e, b) + w * cross(o, e, c),
{
    let (dx, dy, ox, oy) = (e.0 - o.0, e.1 - o.1, o.0 as int, o.1 as int);
    let (px, py) = (p.0 as int, p.1 as int);
    let (ax, ay, bx, by, cx, cy) = (
        a.0 as int,
        a.1 as int,
        b.0 as int,
        b.1 as int,
        c.0 as int,
        c.1 as int,
    );
    let s = u + v + w;
    lemma_scaled_difference(s, dx, py, oy);
    lemma_scaled_difference(s, dy, px, ox);
    assert(s * (dx * (py - oy) - dy * (px - ox)) == s * (dx * (py - oy)) - s * (dy * (px - ox)))
        by (nonlinear_arith);
    lemma_relative_to(dx, oy, ay, by, cy, u, v, w);
    lemma_relative_to(dy, ox, ax, bx, cx, u, v, w);
    assert(u * (dx * (ay - oy) - dy * (ax - ox)) == u * (dx * (ay - oy)) - u * (dy * (ax - ox)))
        by (nonlinear_arith);
    assert(v * (dx * (by - oy) - dy * (bx - ox)) == v * (dx * (by - oy)) - v * (dy * (bx - ox)))
        by (nonlinear_arith);
    assert(w * (dx * (cy - oy) - dy * (cx - ox)) == w * (dx * (cy - oy)) - w * (dy * (cx - ox)))
        by (nonlinear_arith);
}

proof fn lemma_scaled_difference(s: int, d: int, x: int, y: int)
    ensures
        s * (d * (x - y)) == d * (s * x) - d * (s * y),
{
    assert(d * (x - y) == d * x - d * y) by (nonlinear_arith);
    assert(s * (d * x - d * y) == s * (d * x) - s * (d * y)) by (nonlinear_arith);
    assert(s * (d * x) == d * (s * x)) by (nonlinear_arith);
    assert(s * (d * y) == d * (s * y)) by (nonlinear_arith);
}

proof fn lemma_relative_to(k: int, o: int, a: int, b: int, c: int, u: int, v: int, w: int)
    ensures
        k * (u * a + v * b + w * c) - k * ((u + v + w) * o) == u * (k * (a - o)) + v * (k * (b - o))
            + w * (k * (c - o)),
{
    assert(k * (u * a + v * b + w * c) == k * (u * a) + k * (v * b) + k * (w * c))
        by (nonlinear_arith);
    assert(k * ((u + v + w) * o) == k * (u * o) + k * (v * o) + k * (w * o)) by (nonlinear_arith);
    assert(u * (k * (a - o)) == k * (u * a) - k * (u * o)) by (nonlinear_arith);
    assert(v * (k * (b - o)) == k * (v * b) - k * (v * o)) by (nonlinear_arith);
    assert(w * (k * (c - o)) == k * (w * c) - k * (w * o)) by (nonlinear_arith);
}

/// The area of a triangle is the sum of the areas that a point spans with its edges, and those
/// areas are the weights of the corners in the point.
proof fn lemma_areas(p: (i32, i32), a: (i32, i32), b: (i32, i32), c: (i32, i32))
    ensures
        cross(a, b, p) + cross(b, c, p) + cross(c, a, p) == cross(a, b, c),
        cross(a, b, c) * p.0 == cross(b, c, p) * a.0 + cross(c, a, p) * b.0 + cross(a, b, p) * c.0,
        cross(a, b, c) * p.1 == cross(b, c, p) * a.1 + cross(c, a, p) * b.1 + cross(a, b, p) * c.1,
{
    // Everything relative to the first corner.
    let (px, py) = (p.0 - a.0, p.1 - a.1);
    let (bx, by) = (b.0 - a.0, b.1 - a.1);
    let (cx, cy) = (c.0 - a.0, c.1 - a.1);
    let (d1, d2, d3, d) = (cross(a, b, p), cross(b, c, p), cross(c, a, p), cross(a, b, c));
    assert((cx - bx) * (py - by) - (cy - by) * (px - bx) == (bx * cy - by * cx) - (bx * py - by
        * px) - (cy * px - cx * py)) by (nonlinear_arith);
    assert((0 - cx) * (py - cy) - (0 - cy) * (px - cx) == cy * px - cx * py) by (nonlinear_arith);
    assert(d1 == bx * py - by * px);
    assert(d3 == cy * px - cx * py);
    assert(d == bx * cy - by * cx);
    assert(d2 == d - d1 - d3);
    assert((bx * cy - by * cx) * px == (cy * px - cx * py) * bx + (bx * py - by * px) * cx)
        by (nonlinear_arith);
    assert((bx * cy - by * cx) * py == (cy * px - cx * py) * by + (bx * py - by * px) * cy)
        by (nonlinear_arith);
    lemma_from_first_corner(d1, d2, d3, d, p.0 as int, a.0 as int, b.0 as int, c.0 as int);
    lemma_from_first_corner(d1, d2, d3, d, p.1 as int, a.1 as int, b.1 as int, c.1 as int);
}

proof fn lemma_from_first_corner(
    d1: int,
    d2: int,
    d3: int,
    d: int,
    p: int,
    a: int,
    b: int,
    c: int,
)
    requires
        d2 == d - d1 - d3,
        d * (p - a) == d3 * (b - a) + d1 * (c - a),
    ensures
        d * p == d2 * a + d3 * b + d1 * c,
{
    assert(d * (p - a) == d * p - d * a) by (nonlinear_arith);
    assert(d3 * (b - a) + d1 * (c - a) == d3 * b + d1 * c - d3 * a - d1 * a) by (nonlinear_arith);
    assert((d - d1 - d3) * a == d * a - d1 * a - d3 * a) by (nonlinear_arith);
}

/// The order in which the corners of a triangle are listed does not matter.
pub proof fn law_winding_does_not_matter(
    p: (i32, i32),
    a: (i32, i32),
    b: (i32, i32),
    c: (i32, i32),
)
    ensures
        in_triangle(p, a, b, c) == in_triangle(p, c, b, a),
        in_triangle(p, a, b, c) == in_triangle(p, b, c, a),
        in_triangle(p, a, b, c) == in_triangle(p, b, a, c),
{
    lemma_cross_reversed(a, b, p);
    lemma_cross_reversed(b, c, p);
    lemma_cross_reversed(c, a, p);
    lemma_cross_reversed(a, b, c);
    lemma_cross_reversed(b, c, a);
    lemma_areas(a, a, b, c);
    lemma_flat(a, b);
    lemma_flat(c, a);
}

/// A triangle contains exactly the weighted means of its corners.
pub proof fn law_triangle_is_convex_hull(
    p: (i32, i32),
    a: (i32, i32),
    b: (i32, i32),
    c: (i32, i32),
)
    ensures
        in_triangle(p, a, b, c) <==> exists|u: int, v: int, w: int| #[trigger]
            is_weighted_mean(p, a, b, c, u, v, w),
{
    if in_triangle(p, a, b, c) {
        if cross(a, b, c) != 0 {
            lemma_inside_is_mean(p, a, b, c);
        } else if on_segment(p, a, b) {
            let (u, v) = lemma_segment_is_mean(p, a, b);
            assert(is_weighted_mean(p, a, b, c, u, v, 0));
        } else if on_segment(p, b, c) {
            let (v, w) = lemma_segment_is_mean(p, b, c);
            assert(is_weighted_mean(p, a, b, c, 0, v, w));
        } else {
            let (w, u) = lemma_segment_is_mean(p, c, a);
            assert(is_weighted_mean(p, a, b, c, u, 0, w));
        }
    }
    if exists|u: int, v: int, w: int| #[trigger] is_weighted_mean(p, a, b, c, u, v, w) {
        let (u, v, w) = choose|u: int, v: int, w: int| #[trigger]
            is_weighted_mean(p, a, b, c, u, v, w);
        lemma_mean_is_inside(p, a, b, c, u, v, w);
        if cross(a, b, c) == 0 {
            lemma_mean_is_on_an_edge(p, a, b, c, u, v, w);
        }
    }
}

/// A point inside a triangle with an area is a weighted mean of its corners.
proof fn lemma_inside_is_mean(p: (i32, i32), a: (i32, i32), b: (i32, i32), c: (i32, i32))
    requires
        cross(a, b, c) != 0,
        on_one_side(p, a, b, c),
    ensures
        exists|u: int, v: int, w: int| #[trigger] is_weighted_mean(p, a, b, c, u, v, w),
{
    lemma_areas(p, a, b, c);
    let (d1, d2, d3, d) = (cross(a, b, p), cross(b, c, p), cross(c, a, p), cross(a, b, c));
    if d > 0 {
        assert(is_weighted_mean(p, a, b, c, d2, d3, d1));
    } else {
        assert((-d2) * a.0 + (-d3) * b.0 + (-d1) * c.0 == -(d2 * a.0 + d3 * b.0 + d1 * c.0))
            by (nonlinear_arith);
        assert((-d2) * a.1 + (-d3) * b.1 + (-d1) * c.1 == -(d2 * a.1 + d3 * b.1 + d1 * c.1))
            by (nonlinear_arith);
        assert((-d2 - d3 - d1) * p.0 == -(d * p.0)) by (nonlinear_arith)
            requires
                d == d1 + d2 + d3,
        ;
        assert((-d2 - d3 - d1) * p.1 == -(d * p.1)) by (nonlinear_arith)
            requires
                d == d1 + d2 + d3,
        ;
        assert(is_weighted_mean(p, a, b, c, -d2, -d3, -d1));
    }
}

/// A point on a line segment is a weighted mean of its ends: the weights are the distances to
/// the ends, in a coordinate in which they differ.
proof fn lemma_segment_is_mean(p: (i32, i32), a: (i32, i32), b: (i32, i32)) -> (weights: (int, int))
    requires
        on_segment(p, a, b),
    ensures
        weights.0 >= 0,
        weights.1 >= 0,
        weights.0 + weights.1 > 0,
        (weights.0 + weights.1) * p.0 == weights.0 * a.0 + weights.1 * b.0,
        (weights.0 + weights.1) * p.1 == weights.0 * a.1 + weights.1 * b.1,
{
    let (px, py) = (p.0 as int, p.1 as int);
    let (ax, ay, bx, by) = (a.0 as int, a.1 as int, b.0 as int, b.1 as int);
    assert((by - ay) * (px - ax) == (bx - ax) * (py - ay)) by (nonlinear_arith)
        requires
            (bx - ax) * (py - ay) - (by - ay) * (px - ax) == 0,
    ;
    if ax < bx {
        lemma_weights(px, py, ax, ay, bx, by);
        (bx - px, px - ax)
    } else if bx < ax {
        assert((ay - by) * (px - bx) == (ax - bx) * (py - by)) by (nonlinear_arith)
            requires
                (by - ay) * (px - ax) == (bx - ax) * (py - ay),
        ;
        lemma_weights(px, py, bx, by, ax, ay);
        (px - bx, ax - px)
    } else if ay < by {
        lemma_weights(py, px, ay, ax, by, bx);
        (by - py, py - ay)
    } else if by < ay {
        assert((ax - bx) * (py - by) == (ay - by) * (px - bx)) by (nonlinear_arith)
            requires
                (by - ay) * (px - ax) == (bx - ax) * (py - ay),
        ;
        lemma_weights(py, px, by, bx, ay, ax);
        (py - by, ay - py)
    } else {
        (1, 0)
    }
}

proof fn lemma_weights(x: int, y: int, ax: int, ay: int, bx: int, by: int)
    requires
        (by - ay) * (x - ax) == (bx - ax) * (y - ay),
    ensures
        (bx - ax) * x == (bx - x) * ax + (x - ax) * bx,
        (bx - ax) * y == (bx - x) * ay + (x - ax) * by,
{
    assert((bx - ax) * x == (bx - x) * ax + (x - ax) * bx) by (nonlinear_arith);
    assert((bx - ax) * y == (bx - x) * ay + (x - ax) * by) by (nonlinear_arith)
        requires
            (by - ay) * (x - ax) == (bx - ax) * (y - ay),
    ;
}

/// A weighted mean lies between the bounds of what it is a mean of.
proof fn lemma_mean_is_bounded(
    p: int,
    a: int,
    b: int,
    c: int,
    u: int,
    v: int,
    w: int,
    low: int,
    high: int,
)
    requires
        u >= 0,
        v >= 0,
        w >= 0,
        u + v + w > 0,
        (u + v + w) * p == u * a + v * b + w * c,
        low <= a <= high,
        low <= b <= high,
        low <= c <= high,
    ensures
        low <= p <= high,
{
    let s = u + v + w;
    lemma_shifted_mean(p, a, b, c, u, v, w, low);
    lemma_shifted_mean(p, a, b, c, u, v, w, high);
    lemma_sum_sign(s, p - low, u, a - low, v, b - low, w, c - low);
    lemma_sum_sign(s, p - high, u, a - high, v, b - high, w, c - high);
}

proof fn lemma_shifted_mean(p: int, a: int, b: int, c: int, u: int, v: int, w: int, k: int)
    requires
        (u + v + w) * p == u * a + v * b + w * c,
    ensures
        (u + v + w) * (p - k) == u * (a - k) + v * (b - k) + w * (c - k),
{
    let s = u + v + w;
    assert(s * (p - k) == s * p - s * k) by (nonlinear_arith);
    assert((u + v + w) * k == u * k + v * k + w * k) by (nonlinear_arith);
    assert(u * (a - k) == u * a - u * k) by (nonlinear_arith);
    assert(v * (b - k) == v * b - v * k) by (nonlinear_arith);
    assert(w * (c - k) == w * c - w * k) by (nonlinear_arith);
}

/// On a line that is not vertical, a point whose first coordinate lies between those of two
/// others lies between them.
proof fn lemma_between_on_a_line(p: (i32, i32), a: (i32, i32), b: (i32, i32))
    requires
        cross(a, b, p) == 0,
        a.0 != b.0,
        is_between(p.0 as int, a.0 as int, b.0 as int),
    ensures
        on_segment(p, a, b),
{
    let (dx, dy) = (b.0 - a.0, b.1 - a.1);
    let (x, y) = (p.0 - a.0, p.1 - a.1);
    assert(dx * y == dy * x);
    assert(0 <= y <= dy || dy <= y <= 0) by (nonlinear_arith)
        requires
            dx * y == dy * x,
            dx != 0,
            0 <= x <= dx || dx <= x <= 0,
    ;
}

/// A weighted mean of corners on one line lies on an edge.
proof fn lemma_mean_is_on_an_edge(
    p: (i32, i32),
    a: (i32, i32),
    b: (i32, i32),
    c: (i32, i32),
    u: int,
    v: int,
    w: int,
)
    requires
        is_weighted_mean(p, a, b, c, u, v, w),
        cross(a, b, p) == 0,
        cross(b, c, p) == 0,
        cross(c, a, p) == 0,
    ensures
        on_segment(p, a, b) || on_segment(p, b, c) || on_segment(p, c, a),
{
    let (ax, bx, cx) = (a.0 as int, b.0 as int, c.0 as int);
    let (ay, by, cy) = (a.1 as int, b.1 as int, c.1 as int);
    if ax == bx && bx == cx {
        lemma_mean_is_bounded(p.0 as int, ax, bx, cx, u, v, w, ax, ax);
        if is_between(cy, ay, by) {
            lemma_mean_between(p.1 as int, ay, by, cy, u, v, w);
        } else if is_between(ay, by, cy) {
            lemma_mean_between(p.1 as int, by, cy, ay, v, w, u);
        } else {
            lemma_mean_between(p.1 as int, cy, ay, by, w, u, v);
        }
    } else if is_between(cx, ax, bx) {
        lemma_mean_between(p.0 as int, ax, bx, cx, u, v, w);
        lemma_between_on_a_line(p, a, b);
    } else if is_between(ax, bx, cx) {
        lemma_mean_between(p.0 as int, bx, cx, ax, v, w, u);
        lemma_between_on_a_line(p, b, c);
    } else {
        lemma_mean_between(p.0 as int, cx, ax, bx, w, u, v);
        lemma_between_on_a_line(p, c, a);
    }
}

/// A weighted mean lies between two numbers if the third one does.
proof fn lemma_mean_between(p: int, a: int, b: int, c: int, u: int, v: int, w: int)
    requires
        u >= 0,
        v >= 0,
        w >= 0,
        u + v + w > 0,
        (u + v + w) * p == u * a + v * b + w * c,
        is_between(c, a, b),
    ensures
        is_between(p, a, b),
{
    if a <= b {
        lemma_mean_is_bounded(p, a, b, c, u, v, w, a, b);
    } else {
        lemma_mean_is_bounded(p, a, b, c, u, v, w, b, a);
    }
}

/// The cross products of a point with the edges of a triangle have the sign of its area if the
/// point is a weighted mean of the corners.
proof fn lemma_mean_is_inside(
    p: (i32, i32),
    a: (i32, i32),
    b: (i32, i32),
    c: (i32, i32),
    u: int,
    v: int,
    w: int,
)
    requires
        is_weighted_mean(p, a, b, c, u, v, w),
    ensures
        cross(a, b, c) >= 0 ==> cross(a, b, p) >= 0 && cross(b, c, p) >= 0 && cross(c, a, p) >= 0,
        cross(a, b, c) <= 0 ==> cross(a, b, p) <= 0 && cross(b, c, p) <= 0 && cross(c, a, p) <= 0,
{
    let d = cross(a, b, c);
    let s = u + v + w;
    lemma_cross_of_mean(a, b, p, a, b, c, u, v, w);
    lemma_cross_of_mean(b, c, p, a, b, c, u, v, w);
    lemma_cross_of_mean(c, a, p, a, b, c, u, v, w);
    lemma_areas(a, a, b, c);
    lemma_areas(b, a, b, c);
    assert(cross(a, b, a) == 0 && cross(a, b, b) == 0 && cross(b, c, b) == 0 && cross(b, c, c) == 0
        && cross(c, a, c) == 0 && cross(c, a, a) == 0) by {
        lemma_flat(a, b);
        lemma_flat(b, c);
        lemma_flat(c, a);
    }
    assert(cross(b, c, a) == d);
    assert(cross(c, a, b) == d);
    lemma_same_sign(s, cross(a, b, p), w, d);
    lemma_same_sign(s, cross(b, c, p), u, d);
    lemma_same_sign(s, cross(c, a, p), v, d);
}

/// A triangle with a repeated corner has no area.
proof fn lemma_flat(a: (i32, i32), b: (i32, i32))
    ensures
        cross(a, b, a) == 0,
        cross(a, b, b) == 0,
{
    let (x, y) = (b.0 - a.0, b.1 - a.1);
    assert(x * 0 - y * 0 == 0) by (nonlinear_arith);
    assert(x * y - y * x == 0) by (nonlinear_arith);
}

proof fn lemma_same_sign(s: int, x: int, k: int, d: int)
    requires
        s > 0,
        k >= 0,
        s * x == k * d,
    ensures
        d >= 0 ==> x >= 0,
        d <= 0 ==> x <= 0,
{
    assert(d >= 0 ==> x >= 0) by (nonlinear_arith)
        requires
            s > 0,
            k >= 0,
            s * x == k * d,
    ;
    assert(d <= 0 ==> x <= 0) by (nonlinear_arith)
        requires
            s > 0,
            k >= 0,
            s * x == k * d,
    ;
}

/// The points on an edge of a triangle are contained in it.
pub proof fn law_edges_are_contained(
    p: (i32, i32),
    a: (i32, i32),
    b: (i32, i32),
    c: (i32, i32),
    u: int,
    v: int,
)
    requires
        is_weighted_mean(p, a, b, c, u, v, 0),
    ensures
        in_triangle(p, a, b, c),
{
    law_triangle_is_convex_hull(p, a, b, c);
}

/// A gamut contains itself, if its white point is inside of it.
pub proof fn law_gamut_contains_itself(gamut: Chromaticities)
    requires
        in_triangle(gamut.white, gamut.red, gamut.green, gamut.blue),
    ensures
        gamut.contains_gamut(gamut),
{
    let (a, b, c) = (gamut.red, gamut.green, gamut.blue);
    assert(is_weighted_mean(a, a, b, c, 1, 0, 0));
    assert(is_weighted_mean(b, a, b, c, 0, 1, 0));
    assert(is_weighted_mean(c, a, b, c, 0, 0, 1));
    law_triangle_is_convex_hull(a, a, b, c);
    law_triangle_is_convex_hull(b, a, b, c);
    law_triangle_is_convex_hull(c, a, b, c);
}

/// Containment is transitive.
pub proof fn law_containment_is_transitive(
    outer: Chromaticities,
    middle: Chromaticities,
    inner: Chromaticities,
)
    requires
        outer.contains_gamut(middle),
        middle.contains_gamut(inner),
    ensures
        outer.contains_gamut(inner),
{
    lemma_point_through(outer, middle, inner.red);
    lemma_point_through(outer, middle, inner.green);
    lemma_point_through(outer, middle, inner.blue);
    lemma_point_through(outer, middle, inner.white);
}

/// A point inside a contained triangle is inside the containing one.
proof fn lemma_point_through(outer: Chromaticities, middle: Chromaticities, p: (i32, i32))
    requires
        outer.contains_gamut(middle),
        in_triangle(p, middle.red, middle.green, middle.blue),
    ensures
        in_triangle(p, outer.red, outer.green, outer.blue),
{
    let (a, b, c) = (outer.red, outer.green, outer.blue);
    let (x, y, z) = (middle.red, middle.green, middle.blue);
    law_triangle_is_convex_hull(p, x, y, z);
    law_triangle_is_convex_hull(x, a, b, c);
    law_triangle_is_convex_hull(y, a, b, c);
    law_triangle_is_convex_hull(z, a, b, c);
    law_triangle_is_convex_hull(p, a, b, c);
    let m = choose|u: int, v: int, w: int| #[trigger] is_weighted_mean(p, x, y, z, u, v, w);
    let mx = choose|u: int, v: int, w: int| #[trigger] is_weighted_mean(x, a, b, c, u, v, w);
    let my = choose|u: int, v: int, w: int| #[trigger] is_weighted_mean(y, a, b, c, u, v, w);
    let mz = choose|u: int, v: int, w: int| #[trigger] is_weighted_mean(z, a, b, c, u, v, w);
    let (sx, sy, sz) = (mx.0 + mx.1 + mx.2, my.0 + my.1 + my.2, mz.0 + mz.1 + mz.2);
    let (kx, ky, kz) = (m.0 * (sy * sz), m.1 * (sx * sz), m.2 * (sx * sy));
    let (u, v, w) = (
        kx * mx.0 + ky * my.0 + kz * mz.0,
        kx * mx.1 + ky * my.1 + kz * mz.1,
        kx * mx.2 + ky * my.2 + kz * mz.2,
    );
    lemma_mean_of_means(
        p.0 as int,
        m,
        x.0 as int,
        y.0 as int,
        z.0 as int,
        mx,
        my,
        mz,
        a.0 as int,
        b.0 as int,
        c.0 as int,
    );
    lemma_mean_of_means(
        p.1 as int,
        m,
        x.1 as int,
        y.1 as int,
        z.1 as int,
        mx,
        my,
        mz,
        a.1 as int,
        b.1 as int,
        c.1 as int,
    );
    assert(is_weighted_mean(p, a, b, c, u, v, w));
}

/// A mean of means is a mean, with the products of the weights.
proof fn lemma_mean_of_means(
    p: int,
    m: (int, int, int),
    x: int,
    y: int,
    z: int,
    mx: (int, int, int),
    my: (int, int, int),
    mz: (int, int, int),
    a: int,
    b: int,
    c: int,
)
    requires
        m.0 >= 0 && m.1 >= 0 && m.2 >= 0 && m.0 + m.1 + m.2 > 0,
        mx.0 >= 0 && mx.1 >= 0 && mx.2 >= 0 && mx.0 + mx.1 + mx.2 > 0,
        my.0 >= 0 && my.1 >= 0 && my.2 >= 0 && my.0 + my.1 + my.2 > 0,
        mz.0 >= 0 && mz.1 >= 0 && mz.2 >= 0 && mz.0 + mz.1 + mz.2 > 0,
        (m.0 + m.1 + m.2) * p == m.0 * x + m.1 * y + m.2 * z,
        (mx.0 + mx.1 + mx.2) * x == mx.0 * a + mx.1 * b + mx.2 * c,
        (my.0 + my.1 + my.2) * y == my.0 * a + my.1 * b + my.2 * c,
        (mz.0 + mz.1 + mz.2) * z == mz.0 * a + mz.1 * b + mz.2 * c,
    ensures
        ({
            let (sx, sy, sz) = (mx.0 + mx.1 + mx.2, my.0 + my.1 + my.2, mz.0 + mz.1 + mz.2);
            let (kx, ky, kz) = (m.0 * (sy * sz), m.1 * (sx * sz), m.2 * (sx * sy));
            let u = kx * mx.0 + ky * my.0 + kz * mz.0;
            let v = kx * mx.1 + ky * my.1 + kz * mz.1;
            let w = kx * mx.2 + ky * my.2 + kz * mz.2;
            &&& u >= 0 && v >= 0 && w >= 0 && u + v + w > 0
            &&& (u + v + w) * p == u * a + v * b + w * c
        }),
{
    let (sx, sy, sz) = (mx.0 + mx.1 + mx.2, my.0 + my.1 + my.2, mz.0 + mz.1 + mz.2);
    let (fx, fy, fz) = (sy * sz, sx * sz, sx * sy);
    let (kx, ky, kz) = (m.0 * fx, m.1 * fy, m.2 * fz);
    let s = m.0 + m.1 + m.2;
    let f = sx * fx;
    assert(fx > 0 && fy > 0 && fz > 0) by (nonlinear_arith)
        requires
            sx > 0 && sy > 0 && sz > 0,
            fx == sy * sz && fy == sx * sz && fz == sx * sy,
    ;
    assert(f == sy * fy && f == sz * fz && f > 0) by (nonlinear_arith)
        requires
            sx > 0 && fx > 0,
            fx == sy * sz && fy == sx * sz && fz == sx * sy,
            f == sx * fx,
    ;
    lemma_nonnegative_products(m.0, fx, mx);
    lemma_nonnegative_products(m.1, fy, my);
    lemma_nonnegative_products(m.2, fz, mz);
    lemma_one_mean(m.0, fx, sx, f, x, mx, a, b, c);
    lemma_one_mean(m.1, fy, sy, f, y, my, a, b, c);
    lemma_one_mean(m.2, fz, sz, f, z, mz, a, b, c);
    let u = kx * mx.0 + ky * my.0 + kz * mz.0;
    let v = kx * mx.1 + ky * my.1 + kz * mz.1;
    let w = kx * mx.2 + ky * my.2 + kz * mz.2;
    assert(u + v + w == f * s) by (nonlinear_arith)
        requires
            u + v + w == m.0 * f + m.1 * f + m.2 * f,
            s == m.0 + m.1 + m.2,
    ;
    assert(f * s > 0) by (nonlinear_arith)
        requires
            f > 0,
            s > 0,
    ;
    assert((f * s) * p == f * (s * p)) by (nonlinear_arith);
    assert(f * (m.0 * x + m.1 * y + m.2 * z) == f * (m.0 * x) + f * (m.1 * y) + f * (m.2 * z))
        by (nonlinear_arith);
    assert(u * a == (kx * mx.0) * a + (ky * my.0) * a + (kz * mz.0) * a) by (nonlinear_arith)
        requires
            u == kx * mx.0 + ky * my.0 + kz * mz.0,
    ;
    assert(v * b == (kx * mx.1) * b + (ky * my.1) * b + (kz * mz.1) * b) by (nonlinear_arith)
        requires
            v == kx * mx.1 + ky * my.1 + kz * mz.1,
    ;
    assert(w * c == (kx * mx.2) * c + (ky * my.2) * c + (kz * mz.2) * c) by (nonlinear_arith)
        requires
            w == kx * mx.2 + ky * my.2 + kz * mz.2,
    ;
}

proof fn lemma_nonnegative_products(k: int, f: int, m: (int, int, int))
    requires
        k >= 0,
        f > 0,
        m.0 >= 0 && m.1 >= 0 && m.2 >= 0,
    ensures
        (k * f) * m.0 >= 0,
        (k * f) * m.1 >= 0,
        (k * f) * m.2 >= 0,
{
    let kf = k * f;
    assert(kf >= 0) by (nonlinear_arith)
        requires
            k >= 0,
            f > 0,
            kf == k * f,
    ;
    assert(kf * m.0 >= 0) by (nonlinear_arith)
        requires
            kf >= 0,
            m.0 >= 0,
    ;
    assert(kf * m.1 >= 0) by (nonlinear_arith)
        requires
            kf >= 0,
            m.1 >= 0,
    ;
    assert(kf * m.2 >= 0) by (nonlinear_arith)
        requires
            kf >= 0,
            m.2 >= 0,
    ;
}

/// The share of one corner in a mean, brought to a common denominator.
proof fn lemma_one_mean(
    k: int,
    f: int,
    s: int,
    all: int,
    x: int,
    m: (int, int, int),
    a: int,
    b: int,
    c: int,
)
    requires
        all == s * f,
        s == m.0 + m.1 + m.2,
        s * x == m.0 * a + m.1 * b + m.2 * c,
    ensures
        all * (k * x) == ((k * f) * m.0) * a + ((k * f) * m.1) * b + ((k * f) * m.2) * c,
        (k * f) * m.0 + (k * f) * m.1 + (k * f) * m.2 == k * all,
{
    let kf = k * f;
    assert((s * f) * (k * x) == (k * f) * (s * x)) by (nonlinear_arith);
    assert(kf * (m.0 * a + m.1 * b + m.2 * c) == kf * (m.0 * a) + kf * (m.1 * b) + kf * (m.2 * c))
        by (nonlinear_arith);
    assert(kf * (m.0 * a) == (kf * m.0) * a) by (nonlinear_arith);
    assert(kf * (m.1 * b) == (kf * m.1) * b) by (nonlinear_arith);
    assert(kf * (m.2 * c) == (kf * m.2) * c) by (nonlinear_arith);
    assert(kf * m.0 + kf * m.1 + kf * m.2 == k * (s * f)) by (nonlinear_arith)
        requires
            s == m.0 + m.1 + m.2,
            kf == k * f,
    ;
}

proof fn lemma_sum_sign(s: int, q: int, u: int, x: int, v: int, y: int, w: int, z: int)
    requires
        s > 0,
        u >= 0,
        v >= 0,
        w >= 0,
        s * q == u * x + v * y + w * z,
    ensures
        x >= 0 && y >= 0 && z >= 0 ==> q >= 0,
        x <= 0 && y <= 0 && z <= 0 ==> q <= 0,
{
    if x >= 0 && y >= 0 && z >= 0 {
        assert(u * x >= 0) by (nonlinear_arith)
            requires
                u >= 0,
                x >= 0,
        ;
        assert(v * y >= 0) by (nonlinear_arith)
            requires
                v >= 0,
                y >= 0,
        ;
        assert(w * z >= 0) by (nonlinear_arith)
            requires
                w >= 0,
                z >= 0,
        ;
        lemma_same_sign(s, q, 1, s * q);
    }
    if x <= 0 && y <= 0 && z <= 0 {
        assert(u * x <= 0) by (nonlinear_arith)
            requires
                u >= 0,
                x <= 0,
        ;
        assert(v * y <= 0) by (nonlinear_arith)
            requires
                v >= 0,
                y <= 0,
        ;
        assert(w * z <= 0) by (nonlinear_arith)
            requires
                w >= 0,
                z <= 0,
        ;
        lemma_same_sign(s, q, 1, s * q);
    }
}

} // verus!
