use vstd::prelude::*;
use crate::fragment::Fragment;
use crate::vertex::{ScreenPoint, Vec3i, Vertex};

verus! {

/// A fragment at pixel `(x, y)` that carries no shading data.
pub open spec fn bare_fragment(x: int, y: int) -> Fragment {
    Fragment { x: x as i32, y: y as i32, intensity: 0, depth: 0, vertex_position: Vec3i { x: 0, y: 0, z: 0 } }
}

pub open spec fn lies_at(f: Fragment, p: ScreenPoint) -> bool {
    f.x == p.x && f.y == p.y
}

/// The direction, `1` or `-1`, in which a line goes from `from` to `to` along
/// one axis.
pub open spec fn direction(from: int, to: int) -> int {
    if from < to {
        1
    } else {
        -1
    }
}

/// `g` is one pixel on from `f`: each coordinate stays or moves one pixel in
/// its direction, and at least one of them moves.
pub open spec fn is_step(f: Fragment, g: Fragment, sx: int, sy: int) -> bool {
    &&& g.x - f.x == 0 || g.x - f.x == sx
    &&& g.y - f.y == 0 || g.y - f.y == sy
    &&& !(g.x == f.x && g.y == f.y)
}

pub open spec fn abs_diff(a: int, b: int) -> int {
    if a < b {
        b - a
    } else {
        a - b
    }
}

/// `frags` walks from `p` to `q`: it starts at `p`, each fragment is one step on
/// from the one before, it ends at `q` and no earlier fragment lies there, and
/// there are at most `|dx| + |dy| + 1` of them.
pub open spec fn traces_line(frags: Seq<Fragment>, p: ScreenPoint, q: ScreenPoint) -> bool {
    let sx = direction(p.x as int, q.x as int);
    let sy = direction(p.y as int, q.y as int);
    &&& 1 <= frags.len() <= abs_diff(p.x as int, q.x as int) + abs_diff(p.y as int, q.y as int) + 1
    &&& frags[0] == bare_fragment(p.x as int, p.y as int)
    &&& lies_at(frags.last(), q)
    &&& forall|k: int| 0 <= k < frags.len() ==> #[trigger] frags[k] == bare_fragment(frags[k].x as int, frags[k].y as int)
    &&& forall|k: int| 0 <= k < frags.len() - 1 ==> !lies_at(#[trigger] frags[k], q)
    &&& forall|k: int| 0 <= k < frags.len() - 1 ==> is_step(#[trigger] frags[k], frags[k + 1], sx, sy)
}

/// The pixels of the line from `a` to `b` (screen positions), by Bresenham's
/// error-accumulating walk: it starts at `a`, steps to a neighbouring pixel in
/// the direction of `b` at each turn, and stops on reaching `b`.
pub fn line(a: &Vertex, b: &Vertex) -> (fragments: Vec<Fragment>)
    ensures
        traces_line(fragments@, a.transformed_position, b.transformed_position),
{
    let p = a.transformed_position;
    let q = b.transformed_position;
    let mut fragments: Vec<Fragment> = Vec::new();
    let mut x: i64 = p.x as i64;
    let mut y: i64 = p.y as i64;
    let dx: i64 = if p.x < q.x { q.x as i64 - p.x as i64 } else { p.x as i64 - q.x as i64 };
    let dy: i64 = if p.y < q.y { q.y as i64 - p.y as i64 } else { p.y as i64 - q.y as i64 };
    let sx: i64 = if p.x < q.x { 1 } else { -1 };
    let sy: i64 = if p.y < q.y { 1 } else { -1 };
    let mut err: i64 = if dx > dy { dx / 2 } else { -(dy / 2) };
    let ghost e0 = err as int;
    let ghost mut kx: int = 0;
    let ghost mut ky: int = 0;
    loop
        invariant
            p == a.transformed_position,
            q == b.transformed_position,
            0 <= dx <= 65535,
            0 <= dy <= 65535,
            sx == direction(p.x as int, q.x as int),
            sy == direction(p.y as int, q.y as int),
            dx == abs_diff(p.x as int, q.x as int),
            dy == abs_diff(p.y as int, q.y as int),
            q.x == p.x + sx * dx,
            q.y == p.y + sy * dy,
            e0 == if dx > dy { dx / 2 } else { -(dy / 2) },
            0 <= kx <= dx,
            0 <= ky <= dy,
            x == p.x + sx * kx,
            y == p.y + sy * ky,
            err == e0 - kx * dy + ky * dx,
            dx > dy ==> err > e0 - dx,
            dx <= dy ==> err < e0 + dy || dy == 0,
            fragments@.len() <= kx + ky,
            fragments@.len() > 0 ==> fragments@[0] == bare_fragment(p.x as int, p.y as int),
            fragments@.len() == 0 ==> kx == 0 && ky == 0,
            fragments@.len() > 0 ==> is_step(
                fragments@[fragments@.len() - 1],
                bare_fragment(x as int, y as int),
                sx as int,
                sy as int,
            ),
            forall|k: int| 0 <= k < fragments@.len() ==> #[trigger] fragments@[k] == bare_fragment(
                fragments@[k].x as int,
                fragments@[k].y as int,
            ),
            forall|k: int| 0 <= k < fragments@.len() ==> !lies_at(#[trigger] fragments@[k], q),
            forall|k: int|
                0 <= k < fragments@.len() - 1 ==> is_step(#[trigger] fragments@[k], fragments@[k + 1], sx as int, sy as int),
        decreases (dx - kx) + (dy - ky),
    {
        assert(-65535 <= sx * kx <= 65535 && -65535 <= sy * ky <= 65535) by (nonlinear_arith)
            requires
                0 <= kx <= 65535,
                0 <= ky <= 65535,
                sx == 1 || sx == -1,
                sy == 1 || sy == -1,
        ;
        let f = Fragment::new(x as i32, y as i32, 0, 0, Vec3i::new(0, 0, 0));
        let ghost before = fragments@;
        let n = fragments.len();
        fragments.push(f);
        assert(forall|k: int| 0 <= k < before.len() ==> fragments@[k] == before[k]);
        assert(fragments@[n as int] == bare_fragment(x as int, y as int));
        if n > 0 {
            assert(is_step(fragments@[n - 1], fragments@[n as int], sx as int, sy as int));
        }
        assert forall|k: int| 0 <= k < fragments@.len() - 1 implies is_step(
            #[trigger] fragments@[k],
            fragments@[k + 1],
            sx as int,
            sy as int,
        ) by {
            if k < n - 1 {
                assert(is_step(before[k], before[k + 1], sx as int, sy as int));
            }
        }
        if x == q.x as i64 && y == q.y as i64 {
            assert(traces_line(fragments@, p, q));
            return fragments;
        }
        proof {
            lemma_walk_bounds(dx as int, dy as int, e0, kx, ky, err as int);
        }
        let e2 = err;
        if e2 > -dx {
            err = err - dy;
            x = x + sx;
            proof {
                assert((kx + 1) * dy == kx * dy + dy) by (nonlinear_arith);
                kx = kx + 1;
            }
        }
        if e2 < dy {
            err = err + dx;
            y = y + sy;
            proof {
                assert((ky + 1) * dx == ky * dx + dx) by (nonlinear_arith);
                ky = ky + 1;
            }
        }
    }
}

/// Where the walk may still move: it never passes the end point along either
/// axis, and it moves along at least one axis until it reaches it.
proof fn lemma_walk_bounds(dx: int, dy: int, e0: int, kx: int, ky: int, err: int)
    requires
        0 <= dx,
        0 <= dy,
        e0 == if dx > dy { dx / 2 } else { -(dy / 2) },
        0 <= kx <= dx,
        0 <= ky <= dy,
        !(kx == dx && ky == dy),
        err == e0 - kx * dy + ky * dx,
        dx > dy ==> err > e0 - dx,
        dx <= dy ==> err < e0 + dy || dy == 0,
    ensures
        kx == dx ==> err <= -dx,
        ky == dy ==> err >= dy,
        err > -dx || err < dy,
        -(dx * dy) - dy <= err <= dx * dy + dx,
{
    if kx == dx {
        assert(err == e0 - dx * (dy - ky)) by (nonlinear_arith)
            requires
                err == e0 - kx * dy + ky * dx,
                kx == dx,
        ;
        assert(dx * (dy - ky) >= dx) by (nonlinear_arith)
            requires
                dy - ky >= 1,
                dx >= 0,
        ;
    }
    if ky == dy {
        assert(err == e0 + dy * (dx - kx)) by (nonlinear_arith)
            requires
                err == e0 - kx * dy + ky * dx,
                ky == dy,
        ;
        assert(dy * (dx - kx) >= dy) by (nonlinear_arith)
            requires
                dx - kx >= 1,
                dy >= 0,
        ;
    }
    assert(0 <= kx * dy <= dx * dy) by (nonlinear_arith)
        requires
            0 <= kx <= dx,
            0 <= dy,
    ;
    assert(0 <= ky * dx <= dy * dx) by (nonlinear_arith)
        requires
            0 <= ky <= dy,
            0 <= dx,
    ;
    assert(dx * dy == dy * dx) by (nonlinear_arith);
}

} // verus!
