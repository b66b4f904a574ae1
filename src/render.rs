use vstd::prelude::*;
use crate::fragment::Fragment;
use crate::framebuffer::{FrameBuffer, FrameView};
use crate::shaders::{shade_fragment, shade_with, Shading};
use crate::triangle::{rasterized, triangle};
use crate::vertex::Vertex;

verus! {

/// A fragment written to the framebuffer: where it is in bounds, its color by
/// `policy` becomes the current color and is depth-tested in.
pub open spec fn drawn(policy: Shading, v: FrameView, f: Fragment) -> FrameView {
    if v.in_bounds(f.x as int, f.y as int) {
        v.with_current(shade_with(policy, f)).plotted(f.x as int, f.y as int, f.depth)
    } else {
        v
    }
}

/// The fragments written one after the other, in order.
pub open spec fn drawn_all(policy: Shading, v: FrameView, frags: Seq<Fragment>) -> FrameView
    decreases frags.len(),
{
    if frags.len() == 0 {
        v
    } else {
        drawn(policy, drawn_all(policy, v, frags.drop_last()), frags.last())
    }
}

/// The first `k` triangles of the vertex list (each three consecutive vertices)
/// rasterized, shaded and written, in order.
pub open spec fn rendered(policy: Shading, v: FrameView, verts: Seq<Vertex>, k: int) -> FrameView
    decreases k,
{
    if k <= 0 {
        v
    } else {
        drawn_all(
            policy,
            rendered(policy, v, verts, k - 1),
            rasterized(verts[3 * k - 3], verts[3 * k - 2], verts[3 * k - 1]),
        )
    }
}

/// Groups every three consecutive vertices into a triangle, in order; one or
/// two vertices left over at the end are dropped.
pub fn assemble_triangles(vertices: &Vec<Vertex>) -> (tris: Vec<(Vertex, Vertex, Vertex)>)
    ensures
        tris@.len() == vertices@.len() / 3,
        forall|i: int|
            0 <= i < tris@.len() ==> #[trigger] tris@[i] == (
                vertices@[3 * i],
                vertices@[3 * i + 1],
                vertices@[3 * i + 2],
            ),
{
    let mut tris: Vec<(Vertex, Vertex, Vertex)> = Vec::new();
    let n = vertices.len();
    let mut i: usize = 0;
    while n - i >= 3
        invariant
            n == vertices@.len(),
            i == 3 * tris@.len(),
            i <= n,
            forall|j: int|
                0 <= j < tris@.len() ==> #[trigger] tris@[j] == (
                    vertices@[3 * j],
                    vertices@[3 * j + 1],
                    vertices@[3 * j + 2],
                ),
        decreases n - i,
    {
        tris.push((vertices[i], vertices[i + 1], vertices[i + 2]));
        i = i + 3;
    }
    tris
}

/// Writes one fragment: in bounds, shades it by `policy` and depth-tests it
/// in.
pub fn draw_fragment(framebuffer: &mut FrameBuffer, fragment: &Fragment, policy: &Shading)
    requires
        old(framebuffer).wf(),
    ensures
        final(framebuffer).wf(),
        final(framebuffer)@ == drawn(*policy, old(framebuffer)@, *fragment),
{
    if fragment.x >= 0 && fragment.y >= 0 && (fragment.x as usize) < framebuffer.width
        && (fragment.y as usize) < framebuffer.height {
        let color = shade_fragment(policy, fragment);
        framebuffer.set_current_color(color);
        framebuffer.point(fragment.x as usize, fragment.y as usize, fragment.depth);
    }
}

/// Renders one frame of already transformed vertices with the stripe shader.
pub fn render(framebuffer: &mut FrameBuffer, vertices: &Vec<Vertex>)
    requires
        old(framebuffer).wf(),
    ensures
        final(framebuffer).wf(),
        final(framebuffer)@ == rendered(Shading::Stripes, old(framebuffer)@, vertices@, (vertices@.len() / 3) as int),
{
    render_with(framebuffer, vertices, &Shading::Stripes);
}

/// Renders one frame of already transformed vertices: assembles triangles,
/// rasterizes each, colors each fragment by `policy` and writes it with the
/// depth test.
pub fn render_with(framebuffer: &mut FrameBuffer, vertices: &Vec<Vertex>, policy: &Shading)
    requires
        old(framebuffer).wf(),
    ensures
        final(framebuffer).wf(),
        final(framebuffer)@ == rendered(*policy, old(framebuffer)@, vertices@, (vertices@.len() / 3) as int),
{
    let tris = assemble_triangles(vertices);
    let mut t: usize = 0;
    while t < tris.len()
        invariant
            t <= tris@.len(),
            tris@.len() == vertices@.len() / 3,
            forall|i: int|
                0 <= i < tris@.len() ==> #[trigger] tris@[i] == (
                    vertices@[3 * i],
                    vertices@[3 * i + 1],
                    vertices@[3 * i + 2],
                ),
            framebuffer.wf(),
            framebuffer@ == rendered(*policy, old(framebuffer)@, vertices@, t as int),
        decreases tris@.len() - t,
    {
        let (v1, v2, v3) = tris[t];
        let frags = triangle(&v1, &v2, &v3);
        let ghost start = framebuffer@;
        let mut j: usize = 0;
        while j < frags.len()
            invariant
                j <= frags@.len(),
                framebuffer.wf(),
                framebuffer@ == drawn_all(*policy, start, frags@.take(j as int)),
            decreases frags@.len() - j,
        {
            draw_fragment(framebuffer, &frags[j], policy);
            assert(frags@.take(j + 1).drop_last() =~= frags@.take(j as int));
            j = j + 1;
        }
        assert(frags@.take(frags@.len() as int) =~= frags@);
        assert(tris@[t as int] == (vertices@[3 * t], vertices@[3 * t + 1], vertices@[3 * t + 2]));
        t = t + 1;
    }
}

} // verus!
