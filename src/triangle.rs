use vstd::prelude::*;
use crate::arith::{floor_div, floor_sqrt, isqrt, lemma_div_between, lemma_weighted_sum_between};
use crate::color::INTENSITY_ONE;
use crate::fragment::Fragment;
use crate::vertex::{Normal, ScreenPoint, Vec3i, Vertex};

verus! {

/// The 2D edge function: twice the signed area of `a`, `b`, `(px, py)`; its
/// sign tells on which side of the directed edge `a -> b` the point lies.
pub open spec fn edge(a: ScreenPoint, b: ScreenPoint, px: int, py: int) -> int {
    (px - a.x) * (b.y - a.y) - (py - a.y) * (b.x - a.x)
}

/// Twice the signed area of the triangle `a`, `b`, `c`.
pub open spec fn signed_area(a: ScreenPoint, b: ScreenPoint, c: ScreenPoint) -> int {
    edge(a, b, c.x as int, c.y as int)
}

/// The sign that turns the triangle's area nonnegative.
pub open spec fn orientation(area: int) -> int {
    if area < 0 {
        -1
    } else {
        1
    }
}

/// The barycentric weights of `(px, py)`, each multiplied by the absolute
/// area: nonnegative exactly inside the triangle.
pub open spec fn weights(a: ScreenPoint, b: ScreenPoint, c: ScreenPoint, area: int, px: int, py: int) -> (int, int, int) {
    let o = orientation(area);
    (o * edge(b, c, px, py), o * edge(c, a, px, py), o * edge(a, b, px, py))
}

pub open spec fn min3(a: int, b: int, c: int) -> int {
    if a <= b && a <= c {
        a
    } else if b <= c {
        b
    } else {
        c
    }
}

pub open spec fn max3(a: int, b: int, c: int) -> int {
    if a >= b && a >= c {
        a
    } else if b >= c {
        b
    } else {
        c
    }
}

proof fn lemma_product_bound(p: int, q: int)
    requires
        -65535 <= p <= 65535,
        -65535 <= q <= 65535,
    ensures
        -65535 * 65535 <= p * q <= 65535 * 65535,
{
    assert(-65535 * 65535 <= p * q <= 65535 * 65535) by (nonlinear_arith)
        requires
            -65535 <= p <= 65535,
            -65535 <= q <= 65535,
    ;
}

/// The edge function of `a -> b` at `c`.
pub fn edge_function(a: &ScreenPoint, b: &ScreenPoint, c: &ScreenPoint) -> (e: i64)
    ensures
        e == edge(*a, *b, c.x as int, c.y as int),
        -2 * 65535 * 65535 <= e <= 2 * 65535 * 65535,
{
    let cx: i64 = c.x as i64 - a.x as i64;
    let by: i64 = b.y as i64 - a.y as i64;
    let cy: i64 = c.y as i64 - a.y as i64;
    let bx: i64 = b.x as i64 - a.x as i64;
    proof {
        lemma_product_bound(cx as int, by as int);
        lemma_product_bound(cy as int, bx as int);
    }
    cx * by - cy * bx
}

/// The screen-space bounding box `(min_x, min_y, max_x, max_y)` of three
/// points.
pub fn calculate_bounding_box(v1: &ScreenPoint, v2: &ScreenPoint, v3: &ScreenPoint) -> (r: (i32, i32, i32, i32))
    ensures
        r.0 == min3(v1.x as int, v2.x as int, v3.x as int),
        r.1 == min3(v1.y as int, v2.y as int, v3.y as int),
        r.2 == max3(v1.x as int, v2.x as int, v3.x as int),
        r.3 == max3(v1.y as int, v2.y as int, v3.y as int),
{
    (
        min_of3(v1.x, v2.x, v3.x) as i32,
        min_of3(v1.y, v2.y, v3.y) as i32,
        max_of3(v1.x, v2.x, v3.x) as i32,
        max_of3(v1.y, v2.y, v3.y) as i32,
    )
}

fn min_of3(a: i16, b: i16, c: i16) -> (m: i16)
    ensures
        m == min3(a as int, b as int, c as int),
{
    if a <= b && a <= c {
        a
    } else if b <= c {
        b
    } else {
        c
    }
}

fn max_of3(a: i16, b: i16, c: i16) -> (m: i16)
    ensures
        m == max3(a as int, b as int, c as int),
{
    if a >= b && a >= c {
        a
    } else if b >= c {
        b
    } else {
        c
    }
}

/// The barycentric weights of `p` in the triangle `a`, `b`, `c` whose signed
/// area is `area`, each scaled by the absolute area (so that they are
/// integers): the true weights are these divided by `|area|`.
pub fn barycentric_coordinates(
    a: &ScreenPoint,
    b: &ScreenPoint,
    c: &ScreenPoint,
    p: &ScreenPoint,
    area: i64,
) -> (r: (i64, i64, i64))
    ensures
        (r.0 as int, r.1 as int, r.2 as int) == weights(*a, *b, *c, area as int, p.x as int, p.y as int),
{
    let u = edge_function(b, c, p);
    let v = edge_function(c, a, p);
    let w = edge_function(a, b, p);
    if area < 0 {
        (-u, -v, -w)
    } else {
        (u, v, w)
    }
}

/// The three edge functions at any point add up to the triangle's signed area,
/// so the barycentric weights, divided by the area, sum to one wherever the
/// area is not zero.
pub proof fn lemma_weights_sum_to_one(a: ScreenPoint, b: ScreenPoint, c: ScreenPoint, px: int, py: int)
    ensures
        edge(b, c, px, py) + edge(c, a, px, py) + edge(a, b, px, py) == signed_area(a, b, c),
        ({
            let area = signed_area(a, b, c);
            let w = weights(a, b, c, area, px, py);
            w.0 + w.1 + w.2 == orientation(area) * area
        }),
        signed_area(a, b, c) != 0 ==> orientation(signed_area(a, b, c)) * signed_area(a, b, c) > 0,
{
    let (ax, ay, bx, by, cx, cy) = (a.x as int, a.y as int, b.x as int, b.y as int, c.x as int, c.y as int);
    let e1 = (px - bx) * (cy - by);
    let e2 = (py - by) * (cx - bx);
    let e3 = (px - cx) * (ay - cy);
    let e4 = (py - cy) * (ax - cx);
    let e5 = (px - ax) * (by - ay);
    let e6 = (py - ay) * (bx - ax);
    let e7 = (cx - ax) * (by - ay);
    let e8 = (cy - ay) * (bx - ax);
    assert(e1 == px * cy - px * by - bx * cy + bx * by) by (nonlinear_arith)
        requires e1 == (px - bx) * (cy - by);
    assert(e2 == py * cx - py * bx - by * cx + by * bx) by (nonlinear_arith)
        requires e2 == (py - by) * (cx - bx);
    assert(e3 == px * ay - px * cy - cx * ay + cx * cy) by (nonlinear_arith)
        requires e3 == (px - cx) * (ay - cy);
    assert(e4 == py * ax - py * cx - cy * ax + cy * cx) by (nonlinear_arith)
        requires e4 == (py - cy) * (ax - cx);
    assert(e5 == px * by - px * ay - ax * by + ax * ay) by (nonlinear_arith)
        requires e5 == (px - ax) * (by - ay);
    assert(e6 == py * bx - py * ax - ay * bx + ay * ax) by (nonlinear_arith)
        requires e6 == (py - ay) * (bx - ax);
    assert(e7 == cx * by - cx * ay - ax * by + ax * ay) by (nonlinear_arith)
        requires e7 == (cx - ax) * (by - ay);
    assert(e8 == cy * bx - cy * ax - ay * bx + ay * ax) by (nonlinear_arith)
        requires e8 == (cy - ay) * (bx - ax);
    assert(bx * by == by * bx && cx * cy == cy * cx && ax * ay == ay * ax) by (nonlinear_arith);
    assert(e1 - e2 + e3 - e4 + e5 - e6 == e7 - e8);
    let area = signed_area(a, b, c);
    let o = orientation(area);
    assert(o * edge(b, c, px, py) + o * edge(c, a, px, py) + o * edge(a, b, px, py) == o * (edge(b, c, px, py)
        + edge(c, a, px, py) + edge(a, b, px, py))) by (nonlinear_arith);
}

/// Whether a pixel lying exactly on the edge `from -> to` belongs to the
/// triangle (the top-left fill rule): with the triangle turned to positive
/// area by `o`, the edge is a left edge (it goes down the screen) or a top edge
/// (it is horizontal and goes left).
pub open spec fn is_top_left(from: ScreenPoint, to: ScreenPoint, o: int) -> bool {
    let dx = o * (to.x - from.x);
    let dy = o * (to.y - from.y);
    dy > 0 || (dy == 0 && dx < 0)
}

/// A weight that admits the pixel: inside the edge, or on a top-left edge.
pub open spec fn accepts(w: int, from: ScreenPoint, to: ScreenPoint, o: int) -> bool {
    w > 0 || (w == 0 && is_top_left(from, to, o))
}

/// The pixel `(px, py)` belongs to the triangle `a`, `b`, `c`: the triangle is
/// not degenerate and every barycentric weight admits the pixel.
pub open spec fn covers(a: ScreenPoint, b: ScreenPoint, c: ScreenPoint, px: int, py: int) -> bool {
    let area = signed_area(a, b, c);
    let o = orientation(area);
    let w = weights(a, b, c, area, px, py);
    &&& area != 0
    &&& accepts(w.0, b, c, o)
    &&& accepts(w.1, c, a, o)
    &&& accepts(w.2, a, b, o)
}

/// Three values blended by the (scaled) barycentric weights `w`, rounded
/// down.
pub open spec fn interpolate(w: (int, int, int), a: int, b: int, c: int) -> int {
    (w.0 * a + w.1 * b + w.2 * c) / (w.0 + w.1 + w.2)
}

/// The three normals blended by the weights `w`, not normalized.
pub open spec fn blend(w: (int, int, int), na: Normal, nb: Normal, nc: Normal) -> (int, int, int) {
    (
        w.0 * na.x + w.1 * nb.x + w.2 * nc.x,
        w.0 * na.y + w.1 * nb.y + w.2 * nc.y,
        w.0 * na.z + w.1 * nb.z + w.2 * nc.z,
    )
}

/// The cosine between the normal `n` and the light direction `(0, 0, -1)`, in
/// fixed point (`INTENSITY_ONE` for 1.0) and rounded down, taking the length
/// of `n` as its integer square root; zero for a zero normal.
pub open spec fn intensity_of(n: (int, int, int)) -> int {
    let s = n.0 * n.0 + n.1 * n.1 + n.2 * n.2;
    if s == 0 {
        0
    } else {
        (-n.2 * INTENSITY_ONE) / (floor_sqrt(s as nat) as int)
    }
}

/// The fragment that the triangle `v1`, `v2`, `v3` emits at `(px, py)`:
/// intensity from the blended normal, depth and model-space position
/// interpolated from the vertices.
pub open spec fn fragment_at(v1: Vertex, v2: Vertex, v3: Vertex, px: int, py: int) -> Fragment {
    let a = v1.transformed_position;
    let b = v2.transformed_position;
    let c = v3.transformed_position;
    let w = weights(a, b, c, signed_area(a, b, c), px, py);
    Fragment {
        x: px as i32,
        y: py as i32,
        intensity: intensity_of(blend(w, v1.normal, v2.normal, v3.normal)) as i32,
        depth: interpolate(w, a.z as int, b.z as int, c.z as int) as i64,
        vertex_position: Vec3i {
            x: interpolate(w, v1.position.x as int, v2.position.x as int, v3.position.x as int) as i32,
            y: interpolate(w, v1.position.y as int, v2.position.y as int, v3.position.y as int) as i32,
            z: interpolate(w, v1.position.z as int, v2.position.z as int, v3.position.z as int) as i32,
        },
    }
}

/// What the pixel `(x, y)` contributes: its fragment if covered, else nothing.
pub open spec fn cell(v1: Vertex, v2: Vertex, v3: Vertex, x: int, y: int) -> Seq<Fragment> {
    if covers(v1.transformed_position, v2.transformed_position, v3.transformed_position, x, y) {
        seq![fragment_at(v1, v2, v3, x, y)]
    } else {
        seq![]
    }
}

/// The fragments of row `y` for the columns `min_x .. x`, left to right.
pub open spec fn row_scan(v1: Vertex, v2: Vertex, v3: Vertex, y: int, min_x: int, x: int) -> Seq<Fragment>
    decreases x - min_x,
{
    if x <= min_x {
        seq![]
    } else {
        row_scan(v1, v2, v3, y, min_x, x - 1) + cell(v1, v2, v3, x - 1, y)
    }
}

/// The fragments of the rows `min_y .. y`, top to bottom, each over the columns
/// `min_x .. max_x`.
pub open spec fn box_scan(v1: Vertex, v2: Vertex, v3: Vertex, min_y: int, y: int, min_x: int, max_x: int) -> Seq<
    Fragment,
>
    decreases y - min_y,
{
    if y <= min_y {
        seq![]
    } else {
        box_scan(v1, v2, v3, min_y, y - 1, min_x, max_x) + row_scan(v1, v2, v3, y - 1, min_x, max_x)
    }
}

/// The fragments of a triangle: none for a degenerate one; otherwise one per
/// covered pixel of the half-open bounding box `[min_x, max_x) x [min_y,
/// max_y)`, in row-major order.
pub open spec fn rasterized(v1: Vertex, v2: Vertex, v3: Vertex) -> Seq<Fragment> {
    let a = v1.transformed_position;
    let b = v2.transformed_position;
    let c = v3.transformed_position;
    if signed_area(a, b, c) == 0 {
        seq![]
    } else {
        box_scan(
            v1,
            v2,
            v3,
            min3(a.y as int, b.y as int, c.y as int),
            max3(a.y as int, b.y as int, c.y as int),
            min3(a.x as int, b.x as int, c.x as int),
            max3(a.x as int, b.x as int, c.x as int),
        )
    }
}

proof fn lemma_edge_reversed(a: ScreenPoint, b: ScreenPoint, px: int, py: int)
    ensures
        edge(b, a, px, py) == -edge(a, b, px, py),
{
    let (ax, ay, bx, by) = (a.x as int, a.y as int, b.x as int, b.y as int);
    let e1 = (px - bx) * (ay - by);
    let e2 = (py - by) * (ax - bx);
    let e3 = (px - ax) * (by - ay);
    let e4 = (py - ay) * (bx - ax);
    assert(e1 == px * ay - px * by - bx * ay + bx * by) by (nonlinear_arith)
        requires e1 == (px - bx) * (ay - by);
    assert(e2 == py * ax - py * bx - by * ax + by * bx) by (nonlinear_arith)
        requires e2 == (py - by) * (ax - bx);
    assert(e3 == px * by - px * ay - ax * by + ax * ay) by (nonlinear_arith)
        requires e3 == (px - ax) * (by - ay);
    assert(e4 == py * bx - py * ax - ay * bx + ay * ax) by (nonlinear_arith)
        requires e4 == (py - ay) * (bx - ax);
    assert(bx * ay == ay * bx && by * ax == ax * by && bx * by == by * bx && ax * ay == ay * ax)
        by (nonlinear_arith);
}

/// Two triangles on either side of a shared edge, `a`, `b`, `c` and `b`, `a`,
/// `d`, never both cover one pixel: off the edge the pixel is inside at most
/// one of them, and on it the fill rule gives it to one side only.
pub proof fn lemma_shared_edge_drawn_once(
    a: ScreenPoint,
    b: ScreenPoint,
    c: ScreenPoint,
    d: ScreenPoint,
    px: int,
    py: int,
)
    requires
        (signed_area(a, b, c) > 0 && edge(a, b, d.x as int, d.y as int) < 0) || (signed_area(a, b, c) < 0
            && edge(a, b, d.x as int, d.y as int) > 0),
    ensures
        !(covers(a, b, c, px, py) && covers(b, a, d, px, py)),
{
    lemma_edge_reversed(a, b, d.x as int, d.y as int);
    lemma_edge_reversed(a, b, px, py);
    let o = orientation(signed_area(a, b, c));
    assert(orientation(signed_area(b, a, d)) == o);
    if edge(a, b, px, py) != 0 {
        assert(o * edge(b, a, px, py) == -(o * edge(a, b, px, py))) by (nonlinear_arith)
            requires
                edge(b, a, px, py) == -edge(a, b, px, py),
        ;
    } else {
        assert(o * edge(a, b, px, py) == 0 && o * edge(b, a, px, py) == 0) by (nonlinear_arith)
            requires
                edge(b, a, px, py) == 0,
                edge(a, b, px, py) == 0,
        ;
        assert((o * (b.x - a.x)) == -(o * (a.x - b.x))) by (nonlinear_arith);
        assert((o * (b.y - a.y)) == -(o * (a.y - b.y))) by (nonlinear_arith);
    }
}

/// Largest absolute area (doubled) of a triangle on `i16` coordinates.
pub open spec fn area_bound() -> int {
    2 * 65535int * 65535int
}

fn accepts_exec(w: i64, from: &ScreenPoint, to: &ScreenPoint, flipped: bool) -> (r: bool)
    ensures
        r == accepts(w as int, *from, *to, if flipped { -1 } else { 1 }),
{
    let dx: i32 = to.x as i32 - from.x as i32;
    let dy: i32 = to.y as i32 - from.y as i32;
    let (dx, dy) = if flipped { (-dx, -dy) } else { (dx, dy) };
    w > 0 || (w == 0 && (dy > 0 || (dy == 0 && dx < 0)))
}

fn interpolate_i32(w: (i64, i64, i64), a: i32, b: i32, c: i32) -> (r: i32)
    requires
        w.0 >= 0,
        w.1 >= 0,
        w.2 >= 0,
        0 < w.0 + w.1 + w.2 <= area_bound(),
    ensures
        r == interpolate((w.0 as int, w.1 as int, w.2 as int), a as int, b as int, c as int),
        min3(a as int, b as int, c as int) <= r <= max3(a as int, b as int, c as int),
{
    let ghost lo = min3(a as int, b as int, c as int);
    let ghost hi = max3(a as int, b as int, c as int);
    proof {
        let k = 0x8000_0000int;
        assert(-k * w.0 <= w.0 * a <= k * w.0) by (nonlinear_arith)
            requires
                w.0 >= 0,
                -k <= a <= k,
        ;
        assert(-k * w.1 <= w.1 * b <= k * w.1) by (nonlinear_arith)
            requires
                w.1 >= 0,
                -k <= b <= k,
        ;
        assert(-k * w.2 <= w.2 * c <= k * w.2) by (nonlinear_arith)
            requires
                w.2 >= 0,
                -k <= c <= k,
        ;
        lemma_weighted_sum_between(w.0 as int, w.1 as int, w.2 as int, a as int, b as int, c as int, lo, hi);
    }
    let t: i64 = w.0 + w.1 + w.2;
    let num: i128 = (w.0 as i128) * (a as i128) + (w.1 as i128) * (b as i128) + (w.2 as i128) * (c as i128);
    let q = floor_div(num, t as i128);
    proof {
        lemma_div_between(num as int, t as int, lo, hi);
    }
    q as i32
}

fn blend_component(w: (i64, i64, i64), a: i16, b: i16, c: i16) -> (r: i128)
    requires
        w.0 >= 0,
        w.1 >= 0,
        w.2 >= 0,
        0 < w.0 + w.1 + w.2 <= area_bound(),
    ensures
        r == w.0 * a + w.1 * b + w.2 * c,
        -32768 * area_bound() <= r <= 32768 * area_bound(),
{
    proof {
        lemma_weighted_sum_between(w.0 as int, w.1 as int, w.2 as int, a as int, b as int, c as int, -32768, 32768);
        let k = 0x8000int;
        assert(-k * w.0 <= w.0 * a <= k * w.0) by (nonlinear_arith)
            requires
                w.0 >= 0,
                -k <= a <= k,
        ;
        assert(-k * w.1 <= w.1 * b <= k * w.1) by (nonlinear_arith)
            requires
                w.1 >= 0,
                -k <= b <= k,
        ;
        assert(-k * w.2 <= w.2 * c <= k * w.2) by (nonlinear_arith)
            requires
                w.2 >= 0,
                -k <= c <= k,
        ;
    }
    (w.0 as i128) * (a as i128) + (w.1 as i128) * (b as i128) + (w.2 as i128) * (c as i128)
}

proof fn lemma_square_bound(v: int, k: int)
    requires
        -k <= v <= k,
    ensures
        0 <= v * v <= k * k,
{
    assert(0 <= v * v <= k * k) by (nonlinear_arith)
        requires
            -k <= v <= k,
    ;
}

fn intensity_at(w: (i64, i64, i64), na: &Normal, nb: &Normal, nc: &Normal) -> (r: i32)
    requires
        w.0 >= 0,
        w.1 >= 0,
        w.2 >= 0,
        0 < w.0 + w.1 + w.2 <= area_bound(),
    ensures
        r == intensity_of(blend((w.0 as int, w.1 as int, w.2 as int), *na, *nb, *nc)),
        -INTENSITY_ONE <= r <= INTENSITY_ONE,
{
    let nx = blend_component(w, na.x, nb.x, nc.x);
    let ny = blend_component(w, na.y, nb.y, nc.y);
    let nz = blend_component(w, na.z, nb.z, nc.z);
    proof {
        let k = 32768 * area_bound();
        assert(k == 281466386841600);
        lemma_square_bound(nx as int, k);
        lemma_square_bound(ny as int, k);
        lemma_square_bound(nz as int, k);
        assert(k * k == 79223326921665217623490560000) by (nonlinear_arith)
            requires
                k == 281466386841600,
        ;
    }
    let s: i128 = nx * nx + ny * ny + nz * nz;
    if s == 0 {
        0
    } else {
        let root: u128 = isqrt(s as u128);
        proof {
            let r = root as int;
            assert(nz * nz <= s);
            if nz > r {
                assert(nz * nz >= (r + 1) * (r + 1)) by (nonlinear_arith)
                    requires
                        nz >= r + 1,
                        r >= 0,
                ;
            }
            if nz < -r {
                assert(nz * nz >= (r + 1) * (r + 1)) by (nonlinear_arith)
                    requires
                        nz <= -(r + 1),
                        r >= 0,
                ;
            }
            if root == 0 {
                assert((root + 1) * (root + 1) == 1) by (nonlinear_arith)
                    requires
                        root == 0,
                ;
            }
            assert(root > 0);
            assert(root * root < 0x1_0000_0000_0000_0000_0000_0000_0000_0000);
            if root >= 0x1_0000_0000_0000_0000 {
                assert(root * root >= 0x1_0000_0000_0000_0000 * 0x1_0000_0000_0000_0000) by (nonlinear_arith)
                    requires
                        root >= 0x1_0000_0000_0000_0000,
                ;
            }
            lemma_div_between(-nz * 256, r, -256, 256);
        }
        let q = floor_div(-nz * 256, root as i128);
        q as i32
    }
}

fn fragment_for(v1: &Vertex, v2: &Vertex, v3: &Vertex, w: (i64, i64, i64), x: i32, y: i32) -> (f: Fragment)
    requires
        w.0 >= 0,
        w.1 >= 0,
        w.2 >= 0,
        0 < w.0 + w.1 + w.2 <= area_bound(),
        (w.0 as int, w.1 as int, w.2 as int) == weights(
            v1.transformed_position,
            v2.transformed_position,
            v3.transformed_position,
            signed_area(v1.transformed_position, v2.transformed_position, v3.transformed_position),
            x as int,
            y as int,
        ),
    ensures
        f == fragment_at(*v1, *v2, *v3, x as int, y as int),
{
    let intensity = intensity_at(w, &v1.normal, &v2.normal, &v3.normal);
    let depth = interpolate_i32(w, v1.transformed_position.z, v2.transformed_position.z, v3.transformed_position.z);
    let px = interpolate_i32(w, v1.position.x, v2.position.x, v3.position.x);
    let py = interpolate_i32(w, v1.position.y, v2.position.y, v3.position.y);
    let pz = interpolate_i32(w, v1.position.z, v2.position.z, v3.position.z);
    Fragment::new(x, y, intensity, depth as i64, Vec3i::new(px, py, pz))
}

/// Rasterizes the triangle of the three transformed vertices: one fragment per
/// covered pixel of the half-open bounding box, in row-major order; none for a
/// triangle of zero area.
pub fn triangle(v1: &Vertex, v2: &Vertex, v3: &Vertex) -> (fragments: Vec<Fragment>)
    ensures
        fragments@ == rasterized(*v1, *v2, *v3),
        signed_area(v1.transformed_position, v2.transformed_position, v3.transformed_position) == 0
            ==> fragments@.len() == 0,
{
    let mut fragments: Vec<Fragment> = Vec::new();
    let a = v1.transformed_position;
    let b = v2.transformed_position;
    let c = v3.transformed_position;
    let (min_x, min_y, max_x, max_y) = calculate_bounding_box(&a, &b, &c);
    let area = edge_function(&a, &b, &c);
    if area == 0 {
        return fragments;
    }
    let flipped = area < 0;
    let mut y: i32 = min_y;
    while y < max_y
        invariant
            min_y <= y <= max_y,
            min_x <= max_x,
            a == v1.transformed_position,
            b == v2.transformed_position,
            c == v3.transformed_position,
            area as int == signed_area(a, b, c),
            area != 0,
            -area_bound() <= area <= area_bound(),
            flipped == (area < 0),
            min_x == min3(a.x as int, b.x as int, c.x as int),
            max_x == max3(a.x as int, b.x as int, c.x as int),
            min_y == min3(a.y as int, b.y as int, c.y as int),
            max_y == max3(a.y as int, b.y as int, c.y as int),
            fragments@ == box_scan(*v1, *v2, *v3, min_y as int, y as int, min_x as int, max_x as int),
        decreases max_y - y,
    {
        let mut x: i32 = min_x;
        while x < max_x
            invariant
                min_y <= y < max_y,
                min_x <= x <= max_x,
                a == v1.transformed_position,
                b == v2.transformed_position,
                c == v3.transformed_position,
                area as int == signed_area(a, b, c),
                area != 0,
                -area_bound() <= area <= area_bound(),
                flipped == (area < 0),
                min_x == min3(a.x as int, b.x as int, c.x as int),
                max_x == max3(a.x as int, b.x as int, c.x as int),
                min_y == min3(a.y as int, b.y as int, c.y as int),
                max_y == max3(a.y as int, b.y as int, c.y as int),
                fragments@ == box_scan(*v1, *v2, *v3, min_y as int, y as int, min_x as int, max_x as int)
                    + row_scan(*v1, *v2, *v3, y as int, min_x as int, x as int),
            decreases max_x - x,
        {
            let p = ScreenPoint { x: x as i16, y: y as i16, z: 0 };
            let (u, v, w) = barycentric_coordinates(&a, &b, &c, &p, area);
            let ghost before = fragments@;
            if accepts_exec(u, &b, &c, flipped) && accepts_exec(v, &c, &a, flipped) && accepts_exec(w, &a, &b, flipped) {
                proof {
                    lemma_weights_sum_to_one(a, b, c, x as int, y as int);
                }
                let f = fragment_for(v1, v2, v3, (u, v, w), x, y);
                fragments.push(f);
            }
            assert(fragments@ =~= box_scan(*v1, *v2, *v3, min_y as int, y as int, min_x as int, max_x as int)
                + row_scan(*v1, *v2, *v3, y as int, min_x as int, x + 1));
            x = x + 1;
        }
        assert(fragments@ =~= box_scan(*v1, *v2, *v3, min_y as int, y + 1, min_x as int, max_x as int));
        y = y + 1;
    }
    fragments
}

} // verus!
