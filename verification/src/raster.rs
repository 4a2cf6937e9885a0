//! What a triangle and a line are made of: the mathematical description of
//! the fragments a triangle produces, of the path a line follows, and of
//! what painting them does to a canvas.

use vstd::prelude::*;
use crate::fixed::{abs, lerp, round_units, trunc_div, ONE};
use crate::math::{Vec2f, Vec3i};
use crate::tga::{RgbaColor, TgaImage, TgaPixel};

verus! {

/// One corner of a triangle on the screen: its position in whole pixels
/// (with `z` its depth), its texture coordinate and its light intensity,
/// the last two in fixed point.
#[derive(Debug, Clone, Copy)]
pub struct Vertex {
    pub p: Vec3i,
    pub t: Vec2f,
    pub i: i32,
}

/// The quantities that vary across a triangle, in raw fixed-point units:
/// height on the screen, depth, the two texture coordinates and intensity.
pub ghost struct Attrs {
    pub y: int,
    pub z: int,
    pub u: int,
    pub v: int,
    pub i: int,
}

/// The three corners of a triangle, ordered from left to right.
pub ghost struct Tri {
    pub s0: Vertex,
    pub s1: Vertex,
    pub s2: Vertex,
}

/// A candidate pixel: where it lands, how deep it is and what color it has.
pub ghost struct Fragment {
    pub x: int,
    pub y: int,
    pub depth: int,
    pub color: RgbaColor,
}

/// The pixels and depths of a renderer, as plain sequences stored row by row.
/// A depth of `None` means that nothing was drawn there yet.
pub ghost struct Canvas {
    pub width: int,
    pub height: int,
    pub pixels: Seq<TgaPixel>,
    pub depth: Seq<Option<int>>,
}

/// The corners ordered by ascending `x`; corners with equal `x` keep the
/// order in which they were given.
pub open spec fn sorted(v0: Vertex, v1: Vertex, v2: Vertex) -> Tri {
    let (a0, a1, a2) = if v2.p.x < v1.p.x {
        (v0, v2, v1)
    } else {
        (v0, v1, v2)
    };
    let (b0, b1, b2) = if a1.p.x < a0.p.x {
        (a1, a0, a2)
    } else {
        (a0, a1, a2)
    };
    if b2.p.x < b1.p.x {
        Tri { s0: b0, s1: b2, s2: b1 }
    } else {
        Tri { s0: b0, s1: b1, s2: b2 }
    }
}

/// The varying quantities at a corner.
pub open spec fn attrs_at(v: Vertex) -> Attrs {
    Attrs {
        y: v.p.y * (ONE as int),
        z: v.p.z * (ONE as int),
        u: v.t.x as int,
        v: v.t.y as int,
        i: v.i as int,
    }
}

/// Every quantity `num / den` of the way from `from` to `to`.
pub open spec fn mix(from: Attrs, to: Attrs, num: int, den: int) -> Attrs {
    Attrs {
        y: lerp(from.y, to.y, num, den),
        z: lerp(from.z, to.z, num, den),
        u: lerp(from.u, to.u, num, den),
        v: lerp(from.v, to.v, num, den),
        i: lerp(from.i, to.i, num, den),
    }
}

impl Tri {
    /// The corners are ordered from left to right.
    pub open spec fn ordered(self) -> bool {
        self.s0.p.x <= self.s1.p.x <= self.s2.p.x
    }

    /// The horizontal extent of the long edge, from the first corner to the last.
    pub open spec fn span(self) -> int {
        self.s2.p.x - self.s0.p.x
    }

    /// The horizontal extent of the first short edge.
    pub open spec fn first_span(self) -> int {
        self.s1.p.x - self.s0.p.x
    }

    /// The horizontal extent of the second short edge.
    pub open spec fn second_span(self) -> int {
        self.s2.p.x - self.s1.p.x
    }

    /// Whether column `c` is spanned by the first short edge.
    pub open spec fn on_first(self, c: int) -> bool {
        c <= self.first_span() && self.first_span() != 0
    }

    /// The point of the long edge in column `c`.
    pub open spec fn long_point(self, c: int) -> Attrs {
        mix(attrs_at(self.s0), attrs_at(self.s2), c, self.span())
    }

    /// The point in column `c` of the short edge that spans it.
    pub open spec fn short_point(self, c: int) -> Attrs {
        if self.on_first(c) {
            mix(attrs_at(self.s0), attrs_at(self.s1), c, self.first_span())
        } else {
            mix(attrs_at(self.s1), attrs_at(self.s2), c - self.first_span(), self.second_span())
        }
    }

    /// The number of steps taken down column `c`: the distance between its
    /// two edge points, rounded to whole pixels, and one more.
    pub open spec fn rows(self, c: int) -> int {
        round_units(abs(self.long_point(c).y - self.short_point(c).y)) + 1
    }

    /// Sample `k` of column `c`: from the short edge at `k == 0` to the long
    /// edge at `k == rows(c)`.
    pub open spec fn sample(self, c: int, k: int) -> Attrs {
        mix(self.short_point(c), self.long_point(c), k, self.rows(c))
    }
}

/// The texel index for texture coordinate `t` along an axis of `size`
/// texels: `t * size` rounded toward zero, held within the texture.
pub open spec fn texel(t: int, size: int) -> int {
    let raw = trunc_div(t * size, ONE as int);
    if raw < 0 {
        0
    } else if raw >= size {
        size - 1
    } else {
        raw
    }
}

/// The color of a sample before lighting: the texel under its texture
/// coordinate where a texture is bound, the flat color otherwise.
pub open spec fn base_color(diffuse: Option<TgaImage>, flat: RgbaColor, s: Attrs) -> RgbaColor {
    match diffuse {
        Some(tex) => tex.pixel(texel(s.u, tex.width as int), texel(s.v, tex.height as int)).color(),
        None => flat,
    }
}

/// The color of a sample: its base color scaled by the absolute value of
/// its intensity.
pub open spec fn shade(diffuse: Option<TgaImage>, flat: RgbaColor, s: Attrs) -> RgbaColor {
    base_color(diffuse, flat, s).scaled(abs(s.i))
}

/// The fragment of sample `k` in column `c`.
pub open spec fn fragment(diffuse: Option<TgaImage>, flat: RgbaColor, t: Tri, c: int, k: int)
    -> Fragment {
    let s = t.sample(c, k);
    Fragment {
        x: t.s0.p.x + c,
        y: trunc_div(s.y, ONE as int),
        depth: s.z,
        color: shade(diffuse, flat, s),
    }
}

/// The fragments of column `c`, from the short edge to the long edge.
pub open spec fn column(diffuse: Option<TgaImage>, flat: RgbaColor, t: Tri, c: int) -> Seq<
    Fragment,
> {
    Seq::new((t.rows(c) + 1) as nat, |k: int| fragment(diffuse, flat, t, c, k))
}

/// The fragments of the first `n` columns, column after column.
pub open spec fn columns(diffuse: Option<TgaImage>, flat: RgbaColor, t: Tri, n: nat) -> Seq<
    Fragment,
>
    decreases n,
{
    if n == 0 {
        Seq::empty()
    } else {
        columns(diffuse, flat, t, (n - 1) as nat) + column(diffuse, flat, t, n - 1)
    }
}

/// All fragments of the triangle with the given corners, in the order in
/// which they are painted. A triangle whose corners share one `x` has none.
pub open spec fn fragments(
    diffuse: Option<TgaImage>,
    flat: RgbaColor,
    v0: Vertex,
    v1: Vertex,
    v2: Vertex,
) -> Seq<Fragment> {
    let t = sorted(v0, v1, v2);
    if t.span() == 0 {
        Seq::empty()
    } else {
        columns(diffuse, flat, t, (t.span() + 1) as nat)
    }
}

impl Canvas {
    /// One pixel and one depth for each position.
    pub open spec fn wf(self) -> bool {
        &&& 0 < self.width
        &&& 0 < self.height
        &&& self.pixels.len() == self.width * self.height
        &&& self.depth.len() == self.width * self.height
    }

    /// Whether `(x, y)` is a position of the canvas.
    pub open spec fn contains(self, x: int, y: int) -> bool {
        0 <= x < self.width && 0 <= y < self.height
    }

    /// Where the pixel at `(x, y)` is stored.
    pub open spec fn offset(self, x: int, y: int) -> int {
        x + self.width * y
    }

    /// Whether a fragment is painted: it lies on the canvas, and either
    /// nothing was drawn at its position or it is strictly deeper than what
    /// was.
    pub open spec fn admits(self, f: Fragment) -> bool {
        &&& self.contains(f.x, f.y)
        &&& match self.depth[self.offset(f.x, f.y)] {
            Some(d) => d < f.depth,
            None => true,
        }
    }

    /// The canvas after one fragment: painted where it is admitted,
    /// unchanged otherwise.
    pub open spec fn plot(self, f: Fragment) -> Canvas {
        if self.admits(f) {
            Canvas {
                pixels: self.pixels.update(self.offset(f.x, f.y), TgaPixel::of(f.color)),
                depth: self.depth.update(self.offset(f.x, f.y), Some(f.depth)),
                ..self
            }
        } else {
            self
        }
    }

    /// The canvas after a sequence of fragments, painted in order.
    pub open spec fn draw(self, fs: Seq<Fragment>) -> Canvas
        decreases fs.len(),
    {
        if fs.len() == 0 {
            self
        } else {
            self.draw(fs.drop_last()).plot(fs.last())
        }
    }

    /// The canvas with `pixel` stored at `(x, y)`, whatever its depth; a
    /// position outside the canvas changes nothing.
    pub open spec fn stamp(self, x: int, y: int, pixel: TgaPixel) -> Canvas {
        if self.contains(x, y) {
            Canvas { pixels: self.pixels.update(self.offset(x, y), pixel), ..self }
        } else {
            self
        }
    }

    /// The canvas with `pixel` stamped at every point of a path, in order.
    pub open spec fn trace(self, path: Seq<(int, int)>, pixel: TgaPixel) -> Canvas
        decreases path.len(),
    {
        if path.len() == 0 {
            self
        } else {
            self.trace(path.drop_last(), pixel).stamp(path.last().0, path.last().1, pixel)
        }
    }
}

/// Painting one more fragment after a sequence is painting the longer sequence.
pub proof fn lemma_draw_push(cv: Canvas, fs: Seq<Fragment>, f: Fragment)
    ensures
        cv.draw(fs.push(f)) == cv.draw(fs).plot(f),
{
    assert(fs.push(f).drop_last() =~= fs);
}

/// Painting two sequences one after the other is painting their concatenation.
pub proof fn lemma_draw_concat(cv: Canvas, a: Seq<Fragment>, b: Seq<Fragment>)
    ensures
        cv.draw(a + b) == cv.draw(a).draw(b),
    decreases b.len(),
{
    if b.len() == 0 {
        assert(a + b =~= a);
    } else {
        lemma_draw_concat(cv, a, b.drop_last());
        assert((a + b).drop_last() =~= a + b.drop_last());
        assert((a + b).last() == b.last());
    }
}

/// Painting keeps a canvas well formed and its size unchanged.
pub proof fn lemma_draw_wf(cv: Canvas, fs: Seq<Fragment>)
    requires
        cv.wf(),
    ensures
        cv.draw(fs).wf(),
        cv.draw(fs).width == cv.width,
        cv.draw(fs).height == cv.height,
    decreases fs.len(),
{
    if fs.len() > 0 {
        lemma_draw_wf(cv, fs.drop_last());
        let before = cv.draw(fs.drop_last());
        let f = fs.last();
        if before.admits(f) {
            crate::tga::lemma_offset_in_range(before.width, before.height, f.x, f.y);
        }
    }
}

/// Ordering the corners puts them in ascending order of `x`.
pub proof fn lemma_sorted_ordered(v0: Vertex, v1: Vertex, v2: Vertex)
    ensures
        sorted(v0, v1, v2).ordered(),
{
}

/// The sign of a number: `-1`, `0` or `1`.
pub open spec fn signum(n: int) -> int {
    if n > 0 {
        1
    } else if n < 0 {
        -1
    } else {
        0
    }
}

/// `n / d` rounded to the nearest integer, halves downward, for `0 <= n`
/// and `0 < d`.
pub open spec fn round_half_down(n: int, d: int) -> int {
    (2 * n + d - 1) / (2 * d)
}

/// The number of steps of the line between two points: the larger of its
/// horizontal and vertical extents.
pub open spec fn line_steps(x0: int, y0: int, x1: int, y1: int) -> int {
    if abs(x1 - x0) >= abs(y1 - y0) {
        abs(x1 - x0)
    } else {
        abs(y1 - y0)
    }
}

/// The point of the line after `k` steps. Along each axis the line has by
/// then advanced by `k` times its slope, rounded to the nearest whole
/// number, halves downward.
pub open spec fn line_point(x0: int, y0: int, x1: int, y1: int, k: int) -> (int, int) {
    let steps = line_steps(x0, y0, x1, y1);
    if steps == 0 {
        (x0, y0)
    } else {
        (
            x0 + signum(x1 - x0) * round_half_down(k * abs(x1 - x0), steps),
            y0 + signum(y1 - y0) * round_half_down(k * abs(y1 - y0), steps),
        )
    }
}

/// The points of the line from `(x0, y0)` to `(x1, y1)`, both included.
pub open spec fn line_path(x0: int, y0: int, x1: int, y1: int) -> Seq<(int, int)> {
    Seq::new(
        (line_steps(x0, y0, x1, y1) + 1) as nat,
        |k: int| line_point(x0, y0, x1, y1, k),
    )
}

/// `m` is `n / d` rounded half down exactly when the remainder `n - m * d`
/// lies in the half-open interval from `-d / 2` (excluded) to `d / 2`.
pub proof fn lemma_round_half_down(n: int, d: int, m: int)
    requires
        0 < d,
        -d < 2 * (n - m * d) <= d,
    ensures
        round_half_down(n, d) == m,
{
    assert((2 * n + d - 1) / (2 * d) == m) by (nonlinear_arith)
        requires
            0 < d,
            -d < 2 * (n - m * d) <= d,
    ;
}

/// Stamping one more point after a path is stamping the longer path.
pub proof fn lemma_trace_push(cv: Canvas, path: Seq<(int, int)>, p: (int, int), pixel: TgaPixel)
    ensures
        cv.trace(path.push(p), pixel) == cv.trace(path, pixel).stamp(p.0, p.1, pixel),
{
    assert(path.push(p).drop_last() =~= path);
}

} // verus!
