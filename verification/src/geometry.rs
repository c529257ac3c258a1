//! Vertex lists for axis-aligned rectangles, in fixed-point clip coordinates.

use vstd::prelude::*;

verus! {

/// One clip-space unit in fixed-point coordinates: all positions are counted
/// in thousandths of a unit.
pub const UNIT: i32 = 1000;

/// A vertex in homogeneous clip coordinates, in fixed point.
#[derive(Clone, Copy, PartialEq, Eq, Structural, Debug)]
pub struct Vertex {
    pub x: i32,
    pub y: i32,
    pub z: i32,
    pub w: i32,
}

/// Mathematical image of a `Vertex`: the same four coordinates as
/// unbounded integers.
pub ghost struct VertexV {
    pub x: int,
    pub y: int,
    pub z: int,
    pub w: int,
}

impl View for Vertex {
    type V = VertexV;

    open spec fn view(&self) -> VertexV {
        VertexV { x: self.x as int, y: self.y as int, z: self.z as int, w: self.w as int }
    }
}

/// The views of a vertex list, element by element.
pub open spec fn vertex_views(s: Seq<Vertex>) -> Seq<VertexV> {
    s.map_values(|v: Vertex| v@)
}

/// A vertex in the plane z = 0 with unit homogeneous coordinate.
pub open spec fn vert(x: int, y: int) -> VertexV {
    VertexV { x: x, y: y, z: 0, w: UNIT as int }
}

/// The six vertices (two triangles) of the rectangle whose top-left corner is
/// `(x, y)` and which extends `width` to the right and `height` downward.
pub open spec fn rect_spec(x: int, y: int, width: int, height: int) -> Seq<VertexV> {
    seq![
        vert(x, y),
        vert(x + width, y),
        vert(x + width, y - height),
        vert(x + width, y - height),
        vert(x, y - height),
        vert(x, y),
    ]
}

/// The six vertices (two triangles) of the rectangle of the given width and
/// height whose center is `(x, y)`.
pub open spec fn centered_rect_spec(x: int, y: int, width: int, height: int) -> Seq<VertexV> {
    seq![
        vert(x - width / 2, y - height / 2),
        vert(x - width / 2, y + height / 2),
        vert(x + width / 2, y + height / 2),
        vert(x + width / 2, y - height / 2),
        vert(x - width / 2, y - height / 2),
        vert(x + width / 2, y + height / 2),
    ]
}

/// Six vertices forming two triangles that cover the axis-aligned rectangle
/// with top-left corner `(x, y)`, the given width, and the given height
/// (`y - height` is the bottom edge: the y axis points up).
pub fn rect(x: i32, y: i32, width: i32, height: i32) -> (r: Vec<Vertex>)
    requires
        0 <= width,
        0 <= height,
        x + width <= i32::MAX,
        i32::MIN <= y - height,
    ensures
        r@.len() == 6,
        vertex_views(r@) == rect_spec(x as int, y as int, width as int, height as int),
{
    let right: i32 = x + width;
    let bottom: i32 = y - height;
    let r = vec![
        Vertex { x: x, y: y, z: 0, w: UNIT },
        Vertex { x: right, y: y, z: 0, w: UNIT },
        Vertex { x: right, y: bottom, z: 0, w: UNIT },
        Vertex { x: right, y: bottom, z: 0, w: UNIT },
        Vertex { x: x, y: bottom, z: 0, w: UNIT },
        Vertex { x: x, y: y, z: 0, w: UNIT },
    ];
    proof {
        assert(vertex_views(r@) =~= rect_spec(x as int, y as int, width as int, height as int));
    }
    r
}

/// Six vertices forming two triangles that cover the axis-aligned rectangle
/// of the given width and height centered at `(x, y)` (up to the rounding of
/// the integer half-extents `width / 2` and `height / 2`).
pub fn centered_rect(x: i32, y: i32, width: i32, height: i32) -> (r: Vec<Vertex>)
    requires
        0 <= width,
        0 <= height,
        i32::MIN <= x - width / 2,
        x + width / 2 <= i32::MAX,
        i32::MIN <= y - height / 2,
        y + height / 2 <= i32::MAX,
    ensures
        r@.len() == 6,
        vertex_views(r@) == centered_rect_spec(x as int, y as int, width as int, height as int),
{
    let hw: i32 = width / 2;
    let hh: i32 = height / 2;
    let left: i32 = x - hw;
    let right: i32 = x + hw;
    let bottom: i32 = y - hh;
    let top: i32 = y + hh;
    let r = vec![
        Vertex { x: left, y: bottom, z: 0, w: UNIT },
        Vertex { x: left, y: top, z: 0, w: UNIT },
        Vertex { x: right, y: top, z: 0, w: UNIT },
        Vertex { x: right, y: bottom, z: 0, w: UNIT },
        Vertex { x: left, y: bottom, z: 0, w: UNIT },
        Vertex { x: right, y: top, z: 0, w: UNIT },
    ];
    proof {
        assert(vertex_views(r@) =~= centered_rect_spec(
            x as int, y as int, width as int, height as int));
    }
    r
}

/// Twice the signed area of the triangle spanned by the vectors from
/// `(ox, oy)` to `(ax, ay)` and to `(bx, by)`.
pub open spec fn cross(ox: int, oy: int, ax: int, ay: int, bx: int, by: int) -> int {
    (ax - ox) * (by - oy) - (ay - oy) * (bx - ox)
}

/// `(px, py)` lies in the closed triangle `a b c`: for each directed edge it
/// is on the same side as the opposite corner, or on the edge's line.
pub open spec fn in_triangle(px: int, py: int, a: VertexV, b: VertexV, c: VertexV) -> bool {
    &&& cross(a.x, a.y, b.x, b.y, px, py) * cross(a.x, a.y, b.x, b.y, c.x, c.y) >= 0
    &&& cross(b.x, b.y, c.x, c.y, px, py) * cross(b.x, b.y, c.x, c.y, a.x, a.y) >= 0
    &&& cross(c.x, c.y, a.x, a.y, px, py) * cross(c.x, c.y, a.x, a.y, b.x, b.y) >= 0
}

/// `(px, py)` lies in the union of the two triangles of a six-vertex list.
pub open spec fn in_triangles(vs: Seq<VertexV>, px: int, py: int) -> bool {
    ||| in_triangle(px, py, vs[0], vs[1], vs[2])
    ||| in_triangle(px, py, vs[3], vs[4], vs[5])
}

/// `(px, py)` lies in the closed axis-aligned rectangle with top-left corner
/// `(x, y)`, the given width, and the given height.
pub open spec fn in_rect_region(px: int, py: int, x: int, y: int, width: int, height: int) -> bool {
    x <= px <= x + width && y - height <= py <= y
}

/// The two triangles (l,t)(r,t)(r,b) and (r,b)(l,b)(l,t) — the split of the
/// box [l, r] x [b, t] along its top-left-to-bottom-right diagonal — cover
/// exactly that box.
proof fn lemma_box_cover_tlbr(l: int, r: int, b: int, t: int, px: int, py: int)
    requires
        l < r,
        b < t,
    ensures
        (in_triangle(px, py, vert(l, t), vert(r, t), vert(r, b))
            || in_triangle(px, py, vert(r, b), vert(l, b), vert(l, t)))
            <==> (l <= px <= r && b <= py <= t),
{
    let u = (r - l) * (py - b) + (t - b) * (px - r);
    let u2 = (r - l) * (py - t) + (t - b) * (px - l);
    // The six edge tests, evaluated on these corners.
    assert((r - l) * (py - t) - (t - t) * (px - l) == (r - l) * (py - t)) by (nonlinear_arith);
    assert(cross(l, t, r, t, px, py) == (r - l) * (py - t));
    assert((r - l) * (b - t) - (t - t) * (r - l) == (r - l) * (b - t)) by (nonlinear_arith);
    assert(cross(l, t, r, t, r, b) == (r - l) * (b - t));
    assert((r - r) * (py - t) - (b - t) * (px - r) == (t - b) * (px - r)) by (nonlinear_arith);
    assert(cross(r, t, r, b, px, py) == (t - b) * (px - r));
    assert((r - r) * (t - t) - (b - t) * (l - r) == (t - b) * (l - r)) by (nonlinear_arith);
    assert(cross(r, t, r, b, l, t) == (t - b) * (l - r));
    assert((l - r) * (py - b) - (t - b) * (px - r) == (l - r) * (py - b) - (t - b) * (px - r))
        by (nonlinear_arith);
    assert(cross(r, b, l, t, px, py) == (l - r) * (py - b) - (t - b) * (px - r));
    assert((l - r) * (t - b) - (t - b) * (r - r) == (l - r) * (t - b)) by (nonlinear_arith);
    assert(cross(r, b, l, t, r, t) == (l - r) * (t - b));
    assert((l - r) * (py - b) - (b - b) * (px - r) == (l - r) * (py - b)) by (nonlinear_arith);
    assert(cross(r, b, l, b, px, py) == (l - r) * (py - b));
    assert((l - r) * (t - b) - (b - b) * (l - r) == (l - r) * (t - b)) by (nonlinear_arith);
    assert(cross(r, b, l, b, l, t) == (l - r) * (t - b));
    assert((l - l) * (py - b) - (t - b) * (px - l) == 0 - (t - b) * (px - l)) by (nonlinear_arith);
    assert(cross(l, b, l, t, px, py) == 0 - (t - b) * (px - l));
    assert((l - l) * (b - b) - (t - b) * (r - l) == 0 - (t - b) * (r - l)) by (nonlinear_arith);
    assert(cross(l, b, l, t, r, b) == 0 - (t - b) * (r - l));
    // Sign reductions: each product test is one side bound or the diagonal.
    assert(((r - l) * (py - t)) * ((r - l) * (b - t)) >= 0 <==> py <= t) by (nonlinear_arith)
        requires l < r && b < t;
    assert(((t - b) * (px - r)) * ((t - b) * (l - r)) >= 0 <==> px <= r) by (nonlinear_arith)
        requires l < r && b < t;
    assert(((l - r) * (py - b) - (t - b) * (px - r)) * ((l - r) * (t - b)) >= 0
        <==> (r - l) * (py - b) + (t - b) * (px - r) >= 0) by (nonlinear_arith)
        requires l < r && b < t;
    assert(((l - r) * (py - b)) * ((l - r) * (t - b)) >= 0 <==> py >= b) by (nonlinear_arith)
        requires l < r && b < t;
    assert((0 - (t - b) * (px - l)) * (0 - (t - b) * (r - l)) >= 0 <==> px >= l)
        by (nonlinear_arith)
        requires l < r && b < t;
    assert(((r - l) * (py - t) - (b - t) * (px - l)) * ((r - l) * (b - t)) >= 0
        <==> (r - l) * (py - t) + (t - b) * (px - l) <= 0) by (nonlinear_arith)
        requires l < r && b < t;
    assert((r - l) * (py - t) - (b - t) * (px - l) == (r - l) * (py - t) + (t - b) * (px - l))
        by (nonlinear_arith);
    assert(cross(l, t, r, b, px, py) == (r - l) * (py - t) + (t - b) * (px - l));
    assert((r - l) * (b - t) - (b - t) * (l - l) == (r - l) * (b - t)) by (nonlinear_arith);
    assert(cross(l, t, r, b, l, b) == (r - l) * (b - t));
    assert(in_triangle(px, py, vert(l, t), vert(r, t), vert(r, b))
        <==> (py <= t && px <= r && u >= 0));
    assert(in_triangle(px, py, vert(r, b), vert(l, b), vert(l, t))
        <==> (py >= b && px >= l && u2 <= 0));
    // Both diagonal tests measure the same line.
    assert(u == u2) by (nonlinear_arith)
        requires
            u == (r - l) * (py - b) + (t - b) * (px - r),
            u2 == (r - l) * (py - t) + (t - b) * (px - l);
    // Points of each triangle stay inside the box.
    assert((py <= t && px <= r && u >= 0) ==> (l <= px && b <= py)) by (nonlinear_arith)
        requires l < r && b < t && u == (r - l) * (py - b) + (t - b) * (px - r);
    assert((py >= b && px >= l && u2 <= 0) ==> (px <= r && py <= t)) by (nonlinear_arith)
        requires l < r && b < t && u2 == (r - l) * (py - t) + (t - b) * (px - l);
}

/// The two triangles (l,b)(l,t)(r,t) and (r,b)(l,b)(r,t) — the split of the
/// box [l, r] x [b, t] along its bottom-left-to-top-right diagonal — cover
/// exactly that box.
proof fn lemma_box_cover_bltr(l: int, r: int, b: int, t: int, px: int, py: int)
    requires
        l < r,
        b < t,
    ensures
        (in_triangle(px, py, vert(l, b), vert(l, t), vert(r, t))
            || in_triangle(px, py, vert(r, b), vert(l, b), vert(r, t)))
            <==> (l <= px <= r && b <= py <= t),
{
    let v = (r - l) * (py - t) - (t - b) * (px - r);
    let m = (r - l) * (py - b) - (t - b) * (px - l);
    // The six edge tests, evaluated on these corners.
    assert((l - l) * (py - b) - (t - b) * (px - l) == 0 - (t - b) * (px - l)) by (nonlinear_arith);
    assert(cross(l, b, l, t, px, py) == 0 - (t - b) * (px - l));
    assert((l - l) * (t - b) - (t - b) * (r - l) == 0 - (t - b) * (r - l)) by (nonlinear_arith);
    assert(cross(l, b, l, t, r, t) == 0 - (t - b) * (r - l));
    assert((r - l) * (py - t) - (t - t) * (px - l) == (r - l) * (py - t)) by (nonlinear_arith);
    assert(cross(l, t, r, t, px, py) == (r - l) * (py - t));
    assert((r - l) * (b - t) - (t - t) * (r - l) == (r - l) * (b - t)) by (nonlinear_arith);
    assert(cross(l, t, r, t, r, b) == (r - l) * (b - t));
    assert((l - r) * (py - t) - (b - t) * (px - r) == 0 - ((r - l) * (py - t) - (t - b) * (px - r)))
        by (nonlinear_arith);
    assert(cross(r, t, l, b, px, py) == 0 - ((r - l) * (py - t) - (t - b) * (px - r)));
    assert((l - r) * (t - t) - (b - t) * (l - r) == 0 - ((t - b) * (r - l))) by (nonlinear_arith);
    assert(cross(r, t, l, b, l, t) == 0 - ((t - b) * (r - l)));
    assert((l - r) * (py - b) - (b - b) * (px - r) == 0 - (r - l) * (py - b)) by (nonlinear_arith);
    assert(cross(r, b, l, b, px, py) == 0 - (r - l) * (py - b));
    assert((l - r) * (t - b) - (b - b) * (r - r) == 0 - (r - l) * (t - b)) by (nonlinear_arith);
    assert(cross(r, b, l, b, r, t) == 0 - (r - l) * (t - b));
    assert((r - l) * (py - b) - (t - b) * (px - l) == m) by (nonlinear_arith)
        requires m == (r - l) * (py - b) - (t - b) * (px - l);
    assert(cross(l, b, r, t, px, py) == m);
    assert((r - l) * (b - b) - (t - b) * (r - l) == 0 - (t - b) * (r - l)) by (nonlinear_arith);
    assert(cross(l, b, r, t, r, b) == 0 - (t - b) * (r - l));
    assert((r - r) * (py - t) - (b - t) * (px - r) == (t - b) * (px - r)) by (nonlinear_arith);
    assert(cross(r, t, r, b, px, py) == (t - b) * (px - r));
    assert((r - r) * (b - t) - (b - t) * (l - r) == 0 - (t - b) * (r - l)) by (nonlinear_arith);
    assert(cross(r, t, r, b, l, b) == 0 - (t - b) * (r - l));
    // Sign reductions.
    assert((0 - (t - b) * (px - l)) * (0 - (t - b) * (r - l)) >= 0 <==> px >= l)
        by (nonlinear_arith)
        requires l < r && b < t;
    assert(((r - l) * (py - t)) * ((r - l) * (b - t)) >= 0 <==> py <= t) by (nonlinear_arith)
        requires l < r && b < t;
    assert((0 - ((r - l) * (py - t) - (t - b) * (px - r))) * (0 - ((t - b) * (r - l))) >= 0
        <==> (r - l) * (py - t) - (t - b) * (px - r) >= 0) by (nonlinear_arith)
        requires l < r && b < t;
    assert((0 - (r - l) * (py - b)) * (0 - (r - l) * (t - b)) >= 0 <==> py >= b)
        by (nonlinear_arith)
        requires l < r && b < t;
    assert(m * (0 - (t - b) * (r - l)) >= 0 <==> m <= 0) by (nonlinear_arith)
        requires l < r && b < t;
    assert(((t - b) * (px - r)) * (0 - (t - b) * (r - l)) >= 0 <==> px <= r) by (nonlinear_arith)
        requires l < r && b < t;
    assert(in_triangle(px, py, vert(l, b), vert(l, t), vert(r, t))
        <==> (px >= l && py <= t && v >= 0));
    assert(in_triangle(px, py, vert(r, b), vert(l, b), vert(r, t))
        <==> (py >= b && m <= 0 && px <= r));
    // Both diagonal tests measure the same line.
    assert(v == m) by (nonlinear_arith)
        requires
            v == (r - l) * (py - t) - (t - b) * (px - r),
            m == (r - l) * (py - b) - (t - b) * (px - l);
    // Points of each triangle stay inside the box.
    assert((px >= l && py <= t && v >= 0) ==> (px <= r && b <= py)) by (nonlinear_arith)
        requires l < r && b < t && v == (r - l) * (py - t) - (t - b) * (px - r);
    assert((py >= b && px <= r && m <= 0) ==> (px >= l && py <= t)) by (nonlinear_arith)
        requires l < r && b < t && m == (r - l) * (py - b) - (t - b) * (px - l);
}

/// Law: for a positive width and height, the six vertices of `rect_spec`
/// form two triangles whose union is exactly the axis-aligned rectangle with
/// top-left corner `(x, y)` and the given width and height.
pub proof fn lemma_rect_covers(x: int, y: int, width: int, height: int, px: int, py: int)
    requires
        1 <= width,
        1 <= height,
    ensures
        in_triangles(rect_spec(x, y, width, height), px, py)
            <==> in_rect_region(px, py, x, y, width, height),
{
    let vs = rect_spec(x, y, width, height);
    assert(vs[0] == vert(x, y));
    assert(vs[1] == vert(x + width, y));
    assert(vs[2] == vert(x + width, y - height));
    assert(vs[3] == vert(x + width, y - height));
    assert(vs[4] == vert(x, y - height));
    assert(vs[5] == vert(x, y));
    lemma_box_cover_tlbr(x, x + width, y - height, y, px, py);
}

/// Law: for a width and height of at least two, the six vertices of
/// `centered_rect_spec` form two triangles whose union is exactly the
/// axis-aligned box reaching the integer half-extents `width / 2` and
/// `height / 2` away from `(x, y)` on each side — the same shape as
/// `rect_spec`, centered at `(x, y)`.
pub proof fn lemma_centered_rect_covers(x: int, y: int, width: int, height: int, px: int, py: int)
    requires
        2 <= width,
        2 <= height,
    ensures
        in_triangles(centered_rect_spec(x, y, width, height), px, py)
            <==> (x - width / 2 <= px <= x + width / 2
                && y - height / 2 <= py <= y + height / 2),
{
    let hw = width / 2;
    let hh = height / 2;
    let vs = centered_rect_spec(x, y, width, height);
    assert(vs[0] == vert(x - hw, y - hh));
    assert(vs[1] == vert(x - hw, y + hh));
    assert(vs[2] == vert(x + hw, y + hh));
    assert(vs[3] == vert(x + hw, y - hh));
    assert(vs[4] == vert(x - hw, y - hh));
    assert(vs[5] == vert(x + hw, y + hh));
    assert(1 <= hw && 1 <= hh);
    lemma_box_cover_bltr(x - hw, x + hw, y - hh, y + hh, px, py);
}

/// Law: for an even width and height of at least two, `centered_rect_spec`
/// covers exactly the same points as `rect_spec` anchored at the box's
/// top-left corner: the rectangle of that width and height whose center is
/// `(x, y)`.
pub proof fn lemma_centered_rect_matches_rect(
    x: int,
    y: int,
    width: int,
    height: int,
    px: int,
    py: int,
)
    requires
        2 <= width,
        2 <= height,
        width % 2 == 0,
        height % 2 == 0,
    ensures
        in_triangles(centered_rect_spec(x, y, width, height), px, py)
            <==> in_triangles(rect_spec(x - width / 2, y + height / 2, width, height), px, py),
{
    lemma_centered_rect_covers(x, y, width, height, px, py);
    lemma_rect_covers(x - width / 2, y + height / 2, width, height, px, py);
    assert(x - width / 2 + width == x + width / 2);
    assert(y + height / 2 - height == y - height / 2);
}

} // verus!
