use vstd::prelude::*;
use crate::color::Color;

verus! {

/// The depth of an empty cell, standing for +infinity: no fragment is farther.
pub const FAR: i64 = 0x7fff_ffff_ffff_ffff;

/// The color that a new framebuffer is filled with: white.
pub open spec fn default_color() -> Color {
    Color { r: 255, g: 255, b: 255 }
}

/// A color plane and a depth plane of `width * height` cells each, in row-major
/// order, with the background color that `clear` fills in and the current
/// color that `point` writes.
pub struct FrameBuffer {
    pub width: usize,
    pub height: usize,
    pub buffer: Vec<Color>,
    pub zbuffer: Vec<i64>,
    pub background_color: Color,
    pub current_color: Color,
}

/// The mathematical content of a framebuffer.
pub struct FrameView {
    pub width: nat,
    pub height: nat,
    pub colors: Seq<Color>,
    pub depths: Seq<i64>,
    pub background: Color,
    pub current: Color,
}

impl FrameView {
    /// Both planes hold one cell per pixel.
    pub open spec fn wf(self) -> bool {
        &&& self.colors.len() == self.width * self.height
        &&& self.depths.len() == self.width * self.height
    }

    pub open spec fn in_bounds(self, x: int, y: int) -> bool {
        0 <= x < self.width && 0 <= y < self.height
    }

    /// The row-major cell of pixel `(x, y)`.
    pub open spec fn index(self, x: int, y: int) -> int {
        y * self.width + x
    }

    pub open spec fn with_current(self, c: Color) -> FrameView {
        FrameView {
            width: self.width,
            height: self.height,
            colors: self.colors,
            depths: self.depths,
            background: self.background,
            current: c,
        }
    }

    pub open spec fn with_background(self, c: Color) -> FrameView {
        FrameView {
            width: self.width,
            height: self.height,
            colors: self.colors,
            depths: self.depths,
            background: c,
            current: self.current,
        }
    }

    /// Every color cell set to the background, every depth to `FAR`.
    pub open spec fn cleared(self) -> FrameView {
        FrameView {
            width: self.width,
            height: self.height,
            colors: Seq::new(self.colors.len(), |i: int| self.background),
            depths: Seq::new(self.depths.len(), |i: int| FAR),
            background: self.background,
            current: self.current,
        }
    }

    /// The depth-tested write of the current color at `(x, y)`: it happens only
    /// inside the bounds and only where the stored depth is strictly greater.
    pub open spec fn plotted(self, x: int, y: int, depth: i64) -> FrameView {
        if self.in_bounds(x, y) && self.depths[self.index(x, y)] > depth {
            FrameView {
                width: self.width,
                height: self.height,
                colors: self.colors.update(self.index(x, y), self.current),
                depths: self.depths.update(self.index(x, y), depth),
                background: self.background,
                current: self.current,
            }
        } else {
            self
        }
    }
}

/// A new framebuffer: every cell holds the default color and depth `FAR`.
pub open spec fn fresh(width: nat, height: nat) -> FrameView {
    FrameView {
        width,
        height,
        colors: Seq::new(width * height, |i: int| default_color()),
        depths: Seq::new(width * height, |i: int| FAR),
        background: default_color(),
        current: default_color(),
    }
}

impl View for FrameBuffer {
    type V = FrameView;

    open spec fn view(&self) -> FrameView {
        FrameView {
            width: self.width as nat,
            height: self.height as nat,
            colors: self.buffer@,
            depths: self.zbuffer@,
            background: self.background_color,
            current: self.current_color,
        }
    }
}

proof fn lemma_index_in_plane(x: int, y: int, w: int, h: int)
    requires
        0 <= x < w,
        0 <= y < h,
    ensures
        0 <= y * w + x < w * h,
        w * y == y * w,
{
    assert(w * y == y * w) by (nonlinear_arith);
    assert(0 <= y * w + x < w * h) by (nonlinear_arith)
        requires
            0 <= x < w,
            0 <= y < h,
    ;
}

impl FrameBuffer {
    pub open spec fn wf(&self) -> bool {
        self@.wf()
    }

    pub fn new(width: usize, height: usize) -> (fb: FrameBuffer)
        requires
            width * height <= usize::MAX,
        ensures
            fb.wf(),
            fb@ == fresh(width as nat, height as nat),
    {
        let n: usize = width * height;
        let white = Color::new(255, 255, 255);
        let mut buffer: Vec<Color> = Vec::with_capacity(n);
        let mut zbuffer: Vec<i64> = Vec::with_capacity(n);
        let mut i: usize = 0;
        while i < n
            invariant
                i <= n,
                n == width * height,
                white == default_color(),
                buffer@.len() == i,
                zbuffer@.len() == i,
                forall|j: int| 0 <= j < i ==> buffer@[j] == default_color(),
                forall|j: int| 0 <= j < i ==> zbuffer@[j] == FAR,
            decreases n - i,
        {
            buffer.push(white);
            zbuffer.push(FAR);
            i = i + 1;
        }
        let fb = FrameBuffer {
            width,
            height,
            buffer,
            zbuffer,
            background_color: white,
            current_color: white,
        };
        assert(fb@.colors =~= fresh(width as nat, height as nat).colors);
        assert(fb@.depths =~= fresh(width as nat, height as nat).depths);
        fb
    }

    /// Resets every color cell to the background color and every depth to
    /// `FAR`.
    pub fn clear(&mut self)
        ensures
            final(self)@ == old(self)@.cleared(),
    {
        let n: usize = self.buffer.len();
        let mut i: usize = 0;
        while i < n
            invariant
                i <= n,
                n == self.buffer@.len(),
                self.width == old(self).width,
                self.height == old(self).height,
                self.background_color == old(self).background_color,
                self.current_color == old(self).current_color,
                self.zbuffer@.len() == old(self).zbuffer@.len(),
                forall|j: int| 0 <= j < i ==> self.buffer@[j] == old(self).background_color,
                n == old(self).buffer@.len(),
            decreases n - i,
        {
            let bg = self.background_color;
            self.buffer.set(i, bg);
            i = i + 1;
        }
        let m: usize = self.zbuffer.len();
        let mut k: usize = 0;
        while k < m
            invariant
                k <= m,
                m == self.zbuffer@.len(),
                self.width == old(self).width,
                self.height == old(self).height,
                self.background_color == old(self).background_color,
                self.current_color == old(self).current_color,
                self.buffer@ =~= old(self)@.cleared().colors,
                m == old(self).zbuffer@.len(),
                forall|j: int| 0 <= j < k ==> self.zbuffer@[j] == FAR,
            decreases m - k,
        {
            self.zbuffer.set(k, FAR);
            k = k + 1;
        }
        assert(self.zbuffer@ =~= old(self)@.cleared().depths);
    }

    /// Writes the current color at `(x, y)` with `depth` where the pixel is in
    /// bounds and its stored depth is strictly greater than `depth`.
    pub fn point(&mut self, x: usize, y: usize, depth: i64)
        requires
            old(self).wf(),
        ensures
            final(self).wf(),
            final(self)@ == old(self)@.plotted(x as int, y as int, depth),
    {
        let cells: usize = self.buffer.len();
        if x < self.width && y < self.height {
            proof {
                lemma_index_in_plane(x as int, y as int, self.width as int, self.height as int);
                assert(cells == self.width * self.height);
            }
            let index: usize = y * self.width + x;
            if self.zbuffer[index] > depth {
                let c = self.current_color;
                self.buffer.set(index, c);
                self.zbuffer.set(index, depth);
            }
        }
    }

    pub fn set_background_color(&mut self, color: Color)
        ensures
            final(self)@ == old(self)@.with_background(color),
    {
        self.background_color = color;
    }

    /// The color stored at `(x, y)`.
    pub fn get_color(&mut self, x: usize, y: usize) -> (c: Color)
        requires
            old(self).wf(),
            x < old(self).width,
            y < old(self).height,
        ensures
            final(self)@ == old(self)@,
            c == old(self)@.colors[old(self)@.index(x as int, y as int)],
    {
        proof {
            lemma_index_in_plane(x as int, y as int, self.width as int, self.height as int);
        }
        let cells: usize = self.buffer.len();
        assert(self.width * y + x < cells);
        self.buffer[self.width * y + x]
    }

    pub fn set_current_color(&mut self, color: Color)
        ensures
            final(self)@ == old(self)@.with_current(color),
    {
        self.current_color = color;
    }

    /// The color plane packed as `0xRRGGBB` values, in row-major order.
    pub fn cast_buffer(&self) -> (r: Vec<u32>)
        ensures
            r@.len() == self.buffer@.len(),
            forall|i: int| 0 <= i < r@.len() ==> r@[i] == self.buffer@[i].hex(),
    {
        let mut casted: Vec<u32> = Vec::with_capacity(self.buffer.len());
        let mut i: usize = 0;
        while i < self.buffer.len()
            invariant
                i <= self.buffer@.len(),
                casted@.len() == i,
                forall|j: int| 0 <= j < i ==> casted@[j] == self.buffer@[j].hex(),
            decreases self.buffer@.len() - i,
        {
            casted.push(self.buffer[i].to_hex());
            i = i + 1;
        }
        casted
    }
}

/// A depth-tested write never raises a stored depth: every cell's depth after
/// `point` is at most what it was, and the written cell holds the smaller of its
/// old depth and the incoming one. Over a run of writes, stored depths only
/// decrease.
pub proof fn lemma_point_never_raises_depth(v: FrameView, x: int, y: int, depth: i64)
    requires
        v.wf(),
    ensures
        v.plotted(x, y, depth).wf(),
        forall|i: int| 0 <= i < v.depths.len() ==> v.plotted(x, y, depth).depths[i] <= v.depths[i],
        v.in_bounds(x, y) ==> v.plotted(x, y, depth).depths[v.index(x, y)] == if depth < v.depths[v.index(x, y)] {
            depth
        } else {
            v.depths[v.index(x, y)]
        },
{
    if v.in_bounds(x, y) {
        lemma_index_in_plane(x, y, v.width as int, v.height as int);
    }
}

/// A write outside the framebuffer changes nothing.
pub proof fn lemma_point_out_of_bounds(v: FrameView, x: int, y: int, depth: i64)
    requires
        x >= v.width || y >= v.height || x < 0 || y < 0,
    ensures
        v.plotted(x, y, depth) == v,
{
}

/// Clearing leaves every color cell at the background color and every depth at
/// `FAR`; with the default background, the planes are those of a new
/// framebuffer of the same size.
pub proof fn lemma_clear_matches_fresh(v: FrameView)
    requires
        v.wf(),
    ensures
        v.cleared().wf(),
        forall|i: int| 0 <= i < v.colors.len() ==> v.cleared().colors[i] == v.background,
        forall|i: int| 0 <= i < v.depths.len() ==> v.cleared().depths[i] == FAR,
        v.background == default_color() ==> v.cleared().colors == fresh(v.width, v.height).colors
            && v.cleared().depths == fresh(v.width, v.height).depths,
{
    if v.background == default_color() {
        assert(v.cleared().colors =~= fresh(v.width, v.height).colors);
        assert(v.cleared().depths =~= fresh(v.width, v.height).depths);
    }
}

/// Two writes to one in-bounds pixel, the nearer with color `near` at depth
/// `d_near` and the farther with color `far` at depth `d_far`, leave `near` and
/// `d_near` there in either order, provided the nearer one beats the depth
/// stored before.
pub proof fn lemma_nearest_wins_either_order(
    v: FrameView,
    x: int,
    y: int,
    near: Color,
    d_near: i64,
    far: Color,
    d_far: i64,
)
    requires
        v.wf(),
        v.in_bounds(x, y),
        d_near < d_far,
        d_near < v.depths[v.index(x, y)],
    ensures
        ({
            let a = v.with_current(far).plotted(x, y, d_far).with_current(near).plotted(x, y, d_near);
            let b = v.with_current(near).plotted(x, y, d_near).with_current(far).plotted(x, y, d_far);
            &&& a.colors[v.index(x, y)] == near
            &&& a.depths[v.index(x, y)] == d_near
            &&& b.colors[v.index(x, y)] == near
            &&& b.depths[v.index(x, y)] == d_near
        }),
{
    lemma_index_in_plane(x, y, v.width as int, v.height as int);
}

} // verus!
