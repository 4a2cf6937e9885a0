//! The renderer: a pixel grid with a depth buffer, and the primitives that
//! paint on it.

use vstd::prelude::*;
use crate::fixed::{lemma_lerp_bounds, lerp_raw};
use crate::raster::{
    attrs_at, column, columns, fragment, fragments, lemma_draw_concat, lemma_draw_push,
    lemma_round_half_down, lemma_sorted_ordered, lemma_trace_push, line_path, line_point,
    line_steps, mix, shade, sorted, texel, Attrs, Canvas, Fragment, Tri, Vertex,
};
use crate::math::{Vec3f, Vec3i, COORD_MAX};
use crate::model::{face_normal, light, project, screen_point, Model, DEPTH};
use crate::tga::{RgbaColor, TgaImage, TgaPixel, MAX_DIM};

verus! {

/// How light intensity is assigned to the corners of a face.
#[derive(Clone, Copy, Debug, PartialEq, Eq, Structural)]
pub enum Shading {
    /// One intensity for the whole face, from the face's own normal.
    Flat,
    /// One intensity for each corner, from the corner's normal.
    Gouraud,
}

/// A pixel grid with a depth for each pixel, the flat color and the
/// optional texture that triangles are painted with, and the shading mode.
pub struct Renderer {
    pub image: TgaImage,
    pub diffuse: Option<TgaImage>,
    pub zbuffer: Vec<Option<i64>>,
    pub color: RgbaColor,
    pub shading: Shading,
}

/// The fragments of one face of a model, drawn on a screen of the given
/// size with the given texture, flat color and shading.
pub open spec fn face_fragments(
    diffuse: Option<TgaImage>,
    flat: RgbaColor,
    shading: Shading,
    width: int,
    height: int,
    model: Model,
    face: [i32; 9],
) -> Seq<Fragment> {
    fragments(
        diffuse,
        flat,
        model.corner(shading, width, height, face, 0),
        model.corner(shading, width, height, face, 1),
        model.corner(shading, width, height, face, 2),
    )
}

/// The fragments of the first `n` faces of a model, face after face.
pub open spec fn scene(
    diffuse: Option<TgaImage>,
    flat: RgbaColor,
    shading: Shading,
    width: int,
    height: int,
    model: Model,
    n: nat,
) -> Seq<Fragment>
    decreases n,
{
    if n == 0 {
        Seq::empty()
    } else {
        scene(diffuse, flat, shading, width, height, model, (n - 1) as nat) + face_fragments(
            diffuse,
            flat,
            shading,
            width,
            height,
            model,
            model.faces@[n - 1],
        )
    }
}

/// A coordinate of the cube from minus one to one mapped to `0..size`.
fn project_coord(c: i32, size: i32) -> (r: i32)
    requires
        -COORD_MAX <= c <= COORD_MAX,
        0 < size <= MAX_DIM,
    ensures
        r == project(c as int, size as int),
{
    assert(-0x4000_0000_0000 <= (c + 65536) * size <= 0x4001_0000_0000) by (nonlinear_arith)
        requires
            -0x4000_0000 <= c <= 0x4000_0000,
            0 < size <= 65535,
    ;
    let n: i64 = (c as i64 + 65536) * (size as i64);
    let q: i128 = crate::fixed::floor_div(n as i128, 131072);
    q as i32
}

/// The place on the screen, and the depth, of a point in space.
fn project_point(w: &Vec3f, width: i32, height: i32) -> (p: Vec3i)
    requires
        w.in_range(),
        0 < width <= MAX_DIM,
        0 < height <= MAX_DIM,
    ensures
        p == screen_point(*w, width as int, height as int),
{
    Vec3i::new(project_coord(w.x, width), project_coord(w.y, height), project_coord(w.z, DEPTH))
}

/// The direction of the light: the negative z axis, at length one.
fn light_direction() -> (d: Vec3f)
    ensures
        d == light(),
{
    let mut toward: Vec3f = Vec3f::new(0, 0, -1);
    proof {
        crate::fixed::lemma_isqrt_is(1, 1);
    }
    toward.normalize()
}

/// The light direction times a vector within the coordinate range.
fn lit(light_dir: Vec3f, n: Vec3f) -> (i: i32)
    requires
        light_dir == light(),
        -COORD_MAX <= n.z <= COORD_MAX,
    ensures
        i == light().dot(n),
        i == -n.z,
{
    assert((0 * n.x + 0 * n.y + (-65536) * n.z) / 65536 == -n.z) by (nonlinear_arith);
    (light_dir * n) as i32
}

/// The depths of a buffer as mathematical integers.
pub open spec fn depth_view(z: Seq<Option<i64>>) -> Seq<Option<int>> {
    Seq::new(
        z.len(),
        |i: int|
            match z[i] {
                Some(d) => Some(d as int),
                None => None,
            },
    )
}

/// The varying quantities of a point, as the machine holds them.
#[derive(Clone, Copy)]
struct Varying {
    y: i64,
    z: i64,
    u: i64,
    v: i64,
    i: i64,
}

impl View for Varying {
    type V = Attrs;

    closed spec fn view(&self) -> Attrs {
        Attrs {
            y: self.y as int,
            z: self.z as int,
            u: self.u as int,
            v: self.v as int,
            i: self.i as int,
        }
    }
}

/// A magnitude that every varying quantity of a triangle stays within.
const LIMIT: i64 = 0x8000_0000_0000;

impl Varying {
    /// Whether every quantity is within the limit.
    spec fn bounded(&self) -> bool {
        &&& -LIMIT <= self.y <= LIMIT
        &&& -LIMIT <= self.z <= LIMIT
        &&& -LIMIT <= self.u <= LIMIT
        &&& -LIMIT <= self.v <= LIMIT
        &&& -LIMIT <= self.i <= LIMIT
    }

    /// The varying quantities at a corner.
    fn at(v: &Vertex) -> (r: Varying)
        ensures
            r@ == attrs_at(*v),
            r.bounded(),
    {
        Varying {
            y: (v.p.y as i64) * 65536,
            z: (v.p.z as i64) * 65536,
            u: v.t.x as i64,
            v: v.t.y as i64,
            i: v.i as i64,
        }
    }

    /// Every quantity `num / den` of the way from `from` to `to`.
    fn between(from: &Varying, to: &Varying, num: i64, den: i64) -> (r: Varying)
        requires
            from.bounded(),
            to.bounded(),
            0 <= num <= den,
            0 < den,
        ensures
            r@ == mix(from@, to@, num as int, den as int),
            r.bounded(),
    {
        proof {
            lemma_lerp_bounds(from.y as int, to.y as int, num as int, den as int);
            lemma_lerp_bounds(from.z as int, to.z as int, num as int, den as int);
            lemma_lerp_bounds(from.u as int, to.u as int, num as int, den as int);
            lemma_lerp_bounds(from.v as int, to.v as int, num as int, den as int);
            lemma_lerp_bounds(from.i as int, to.i as int, num as int, den as int);
        }
        Varying {
            y: lerp_raw(from.y, to.y, num, den),
            z: lerp_raw(from.z, to.z, num, den),
            u: lerp_raw(from.u, to.u, num, den),
            v: lerp_raw(from.v, to.v, num, den),
            i: lerp_raw(from.i, to.i, num, den),
        }
    }
}

/// The texel index for raw texture coordinate `t` along an axis of `size` texels.
fn texel_index(t: i64, size: i32) -> (r: i32)
    requires
        -LIMIT <= t <= LIMIT,
        0 < size <= 65535,
    ensures
        r == texel(t as int, size as int),
        0 <= r < size,
{
    assert(-0x8000_0000_0000_0000 < t * size < 0x8000_0000_0000_0000) by (nonlinear_arith)
        requires
            -0x8000_0000_0000 <= t <= 0x8000_0000_0000,
            0 < size <= 65535,
    ;
    let raw: i64 = (t * (size as i64)) / 65536;
    if raw < 0 {
        0
    } else if raw >= size as i64 {
        size - 1
    } else {
        raw as i32
    }
}

impl Renderer {
    /// The grid and the depth buffer have the same size, and a bound
    /// texture is itself a well-formed grid.
    pub open spec fn wf(&self) -> bool {
        &&& self.image.wf()
        &&& self.zbuffer@.len() == self.image@.len()
        &&& match self.diffuse {
            Some(tex) => tex.wf(),
            None => true,
        }
    }

    /// The pixels and depths as a canvas.
    pub open spec fn canvas(&self) -> Canvas {
        Canvas {
            width: self.image.width as int,
            height: self.image.height as int,
            pixels: self.image@,
            depth: depth_view(self.zbuffer@),
        }
    }

    /// Whether `other` has the same texture, flat color and shading mode.
    pub open spec fn same_settings(&self, other: &Renderer) -> bool {
        &&& self.diffuse == other.diffuse
        &&& self.color == other.color
        &&& self.shading == other.shading
    }

    /// The fragments of the triangle with the given corners under this
    /// renderer's texture and flat color.
    pub open spec fn fragments(&self, v0: Vertex, v1: Vertex, v2: Vertex) -> Seq<Fragment> {
        fragments(self.diffuse, self.color, v0, v1, v2)
    }

    /// A renderer of the given size: every pixel blank, no depth anywhere,
    /// no texture, the flat color white and flat shading.
    pub fn new(width: i32, height: i32) -> (r: Renderer)
        requires
            0 < width <= crate::tga::MAX_DIM,
            0 < height <= crate::tga::MAX_DIM,
        ensures
            r.wf(),
            r.image.width == width,
            r.image.height == height,
            r.image@ == Seq::new((width * height) as nat, |i: int| TgaPixel::blank()),
            r.zbuffer@ == Seq::new((width * height) as nat, |i: int| None::<i64>),
            r.diffuse is None,
            r.color == (RgbaColor { r: 255, g: 255, b: 255, a: 255 }),
            r.shading == Shading::Flat,
    {
        let image: TgaImage = TgaImage::new(width, height);
        let size: usize = image.pixels.len();
        let mut zbuffer: Vec<Option<i64>> = Vec::new();
        let mut i: usize = 0;
        while i < size
            invariant
                i <= size,
                zbuffer@ == Seq::new(i as nat, |j: int| None::<i64>),
            decreases size - i,
        {
            zbuffer.push(None);
            i += 1;
            assert(zbuffer@ =~= Seq::new(i as nat, |j: int| None::<i64>));
        }
        Renderer {
            image,
            zbuffer,
            diffuse: None,
            color: RgbaColor::white(),
            shading: Shading::Flat,
        }
    }

    /// Binds the texture that triangles are painted with from now on.
    pub fn set_diffuse(&mut self, diffuse: TgaImage)
        requires
            old(self).wf(),
            diffuse.wf(),
        ensures
            final(self).wf(),
            final(self).diffuse == Some(diffuse),
            final(self).image == old(self).image,
            final(self).zbuffer == old(self).zbuffer,
            final(self).color == old(self).color,
            final(self).shading == old(self).shading,
    {
        self.diffuse = Some(diffuse);
    }

    /// Chooses how faces are lit from now on.
    pub fn set_shading(&mut self, shading: Shading)
        ensures
            final(self).shading == shading,
            final(self).image == old(self).image,
            final(self).zbuffer == old(self).zbuffer,
            final(self).color == old(self).color,
            final(self).diffuse == old(self).diffuse,
    {
        self.shading = shading;
    }

    /// Stores the flat color at `(x, y)`, whatever the depth there.
    fn stamp(&mut self, x: i64, y: i64)
        requires
            old(self).wf(),
        ensures
            final(self).wf(),
            final(self).same_settings(old(self)),
            final(self).canvas() == old(self).canvas().stamp(
                x as int,
                y as int,
                TgaPixel::of(old(self).color),
            ),
    {
        if 0 <= x && x < self.image.width as i64 && 0 <= y && y < self.image.height as i64 {
            let color: RgbaColor = self.color;
            self.image.set_pixel(x as i32, y as i32, &color);
        }
    }

    /// Paints the line from `(x0, y0)` to `(x1, y1)` in the flat color, both
    /// ends included; depths are neither read nor changed.
    ///
    /// The line takes as many steps as the larger of its two extents. Each
    /// axis accumulates its slope step by step and advances by one pixel
    /// whenever the accumulated error exceeds one half.
    pub fn line(&mut self, x0: i32, y0: i32, x1: i32, y1: i32)
        requires
            old(self).wf(),
        ensures
            final(self).wf(),
            final(self).same_settings(old(self)),
            final(self).canvas() == old(self).canvas().trace(
                line_path(x0 as int, y0 as int, x1 as int, y1 as int),
                TgaPixel::of(old(self).color),
            ),
    {
        let dx: i64 = x1 as i64 - x0 as i64;
        let dy: i64 = y1 as i64 - y0 as i64;
        let ax: i64 = if dx < 0 {
            -dx
        } else {
            dx
        };
        let ay: i64 = if dy < 0 {
            -dy
        } else {
            dy
        };
        let steps: i64 = if ax >= ay {
            ax
        } else {
            ay
        };
        let xis: i64 = if dx > 0 {
            1
        } else if dx < 0 {
            -1
        } else {
            0
        };
        let yis: i64 = if dy > 0 {
            1
        } else if dy < 0 {
            -1
        } else {
            0
        };
        let ghost base: Canvas = self.canvas();
        let ghost pixel: TgaPixel = TgaPixel::of(self.color);
        let ghost gx0: int = x0 as int;
        let ghost gy0: int = y0 as int;
        let ghost gx1: int = x1 as int;
        let ghost gy1: int = y1 as int;
        // Twice the accumulated error of each axis, in units of one step.
        let mut xa: i64 = 0;
        let mut ya: i64 = 0;
        let mut x: i64 = x0 as i64;
        let mut y: i64 = y0 as i64;
        // How many pixels each axis has advanced by.
        let ghost mut mx: int = 0;
        let ghost mut my: int = 0;
        let mut k: i64 = 0;
        while k < steps
            invariant
                0 <= k <= steps <= 0xffff_ffff,
                steps == line_steps(gx0, gy0, gx1, gy1),
                0 <= ax <= steps,
                0 <= ay <= steps,
                ax == crate::fixed::abs(gx1 - gx0),
                ay == crate::fixed::abs(gy1 - gy0),
                xis == crate::raster::signum(gx1 - gx0),
                yis == crate::raster::signum(gy1 - gy0),
                gx0 == x0,
                gy0 == y0,
                0 <= mx <= k,
                0 <= my <= k,
                x == x0 + xis * mx,
                y == y0 + yis * my,
                x0 - k <= x <= x0 + k,
                y0 - k <= y <= y0 + k,
                xa == k * ax - mx * steps,
                ya == k * ay - my * steps,
                steps > 0 ==> -steps < 2 * xa <= steps,
                steps > 0 ==> -steps < 2 * ya <= steps,
                self.wf(),
                self.same_settings(old(self)),
                pixel == TgaPixel::of(old(self).color),
                self.canvas() == base.trace(
                    Seq::new(k as nat, |j: int| line_point(gx0, gy0, gx1, gy1, j)),
                    pixel,
                ),
            decreases steps - k,
        {
            proof {
                lemma_round_half_down(k * ax, steps as int, mx);
                lemma_round_half_down(k * ay, steps as int, my);
                let sofar = Seq::new(k as nat, |j: int| line_point(gx0, gy0, gx1, gy1, j));
                let next = Seq::new((k + 1) as nat, |j: int| line_point(gx0, gy0, gx1, gy1, j));
                assert(next =~= sofar.push(line_point(gx0, gy0, gx1, gy1, k as int)));
                lemma_trace_push(base, sofar, line_point(gx0, gy0, gx1, gy1, k as int), pixel);
            }
            self.stamp(x, y);
            let ghost xb: int = xa as int;
            let ghost yb: int = ya as int;
            let ghost mxb: int = mx;
            let ghost myb: int = my;
            xa = xa + ax;
            if 2 * xa > steps {
                x = x + xis;
                xa = xa - steps;
                proof {
                    mx = mx + 1;
                }
            }
            ya = ya + ay;
            if 2 * ya > steps {
                y = y + yis;
                ya = ya - steps;
                proof {
                    my = my + 1;
                }
            }
            k = k + 1;
            assert(xa == k * ax - mx * steps && x == x0 + xis * mx) by (nonlinear_arith)
                requires
                    xb == (k - 1) * ax - mxb * steps,
                    (xa == xb + ax && mx == mxb && x == x0 + xis * mxb) || (xa == xb + ax - steps
                        && mx == mxb + 1 && x == x0 + xis * mxb + xis),
            ;
            assert(ya == k * ay - my * steps && y == y0 + yis * my) by (nonlinear_arith)
                requires
                    yb == (k - 1) * ay - myb * steps,
                    (ya == yb + ay && my == myb && y == y0 + yis * myb) || (ya == yb + ay - steps
                        && my == myb + 1 && y == y0 + yis * myb + yis),
            ;
        }
        proof {
            let sofar = Seq::new(k as nat, |j: int| line_point(gx0, gy0, gx1, gy1, j));
            let last = line_point(gx0, gy0, gx1, gy1, k as int);
            if steps > 0 {
                lemma_round_half_down(k * ax, steps as int, mx);
                lemma_round_half_down(k * ay, steps as int, my);
            }
            assert(line_path(gx0, gy0, gx1, gy1) =~= sofar.push(last));
            lemma_trace_push(base, sofar, last, pixel);
        }
        self.stamp(x, y);
    }

    /// Paints one fragment if the depth test admits it.
    fn plot(&mut self, x: i64, y: i64, depth: i64, color: &RgbaColor)
        requires
            old(self).wf(),
        ensures
            final(self).wf(),
            final(self).same_settings(old(self)),
            final(self).canvas() == old(self).canvas().plot(
                Fragment { x: x as int, y: y as int, depth: depth as int, color: *color },
            ),
    {
        if 0 <= x && x < self.image.width as i64 && 0 <= y && y < self.image.height as i64 {
            let at: usize = self.image.position(x as i32, y as i32);
            let hidden: bool = match self.zbuffer[at] {
                Some(d) => d >= depth,
                None => false,
            };
            if !hidden {
                self.zbuffer.set(at, Some(depth));
                self.image.set_pixel(x as i32, y as i32, color);
                assert(depth_view(self.zbuffer@) =~= depth_view(old(self).zbuffer@).update(
                    at as int,
                    Some(depth as int),
                ));
            }
        }
    }

    /// The color of a sample: texel or flat color, scaled by the absolute
    /// value of the sample's intensity.
    fn shade_sample(&self, s: &Varying) -> (c: RgbaColor)
        requires
            self.wf(),
            s.bounded(),
        ensures
            c == shade(self.diffuse, self.color, s@),
    {
        let base: RgbaColor = match &self.diffuse {
            Some(tex) => {
                let tx: i32 = texel_index(s.u, tex.width);
                let ty: i32 = texel_index(s.v, tex.height);
                tex.get_pixel(tx, ty)
            },
            None => self.color,
        };
        let k: i64 = if s.i < 0 {
            -s.i
        } else {
            s.i
        };
        base * k
    }

    /// Draws every face of a model, in the model's order.
    ///
    /// Each corner of a face is brought from the cube between minus one and
    /// one to the screen, and to a depth between zero and `DEPTH`; it takes
    /// its texture coordinate from the model and its intensity from the
    /// shading mode; then the face is filled as a triangle.
    pub fn draw_model(&mut self, model: Model)
        requires
            old(self).wf(),
            model.wf(),
            old(self).shading == Shading::Gouraud ==> model.has_normals(),
        ensures
            final(self).wf(),
            final(self).same_settings(old(self)),
            final(self).canvas() == old(self).canvas().draw(
                scene(
                    old(self).diffuse,
                    old(self).color,
                    old(self).shading,
                    old(self).image.width as int,
                    old(self).image.height as int,
                    model,
                    model.faces@.len(),
                ),
            ),
    {
        let ghost base: Canvas = self.canvas();
        let ghost diffuse: Option<TgaImage> = self.diffuse;
        let ghost flat: RgbaColor = self.color;
        let shading: Shading = self.shading;
        let width: i32 = self.image.width;
        let height: i32 = self.image.height;
        let light_dir: Vec3f = light_direction();
        let mut f: usize = 0;
        while f < model.faces.len()
            invariant
                f <= model.faces@.len(),
                model.wf(),
                light_dir == light(),
                shading == Shading::Gouraud ==> model.has_normals(),
                0 < width <= MAX_DIM,
                0 < height <= MAX_DIM,
                self.wf(),
                self.same_settings(old(self)),
                diffuse == old(self).diffuse,
                flat == old(self).color,
                shading == old(self).shading,
                width == old(self).image.width,
                height == old(self).image.height,
                self.canvas() == base.draw(
                    scene(diffuse, flat, shading, width as int, height as int, model, f as nat),
                ),
            decreases model.faces@.len() - f,
        {
            let face: [i32; 9] = model.faces[f];
            let ghost done: Seq<Fragment> = scene(
                diffuse,
                flat,
                shading,
                width as int,
                height as int,
                model,
                f as nat,
            );
            assert(model.corner_ok(model.faces@[f as int], 0));
            assert(model.corner_ok(model.faces@[f as int], 1));
            assert(model.corner_ok(model.faces@[f as int], 2));
            let v0: Vertex = corner_vertex(&model, shading, light_dir, width, height, &face, 0);
            let v1: Vertex = corner_vertex(&model, shading, light_dir, width, height, &face, 1);
            let v2: Vertex = corner_vertex(&model, shading, light_dir, width, height, &face, 2);
            self.triangle(v0, v1, v2);
            proof {
                lemma_draw_concat(
                    base,
                    done,
                    face_fragments(diffuse, flat, shading, width as int, height as int, model, face),
                );
            }
            f += 1;
        }
    }

    /// Paints the fragments of column `c` of a triangle, given the column's
    /// two edge points and its number of steps.
    fn fill_column(
        &mut self,
        x: i64,
        short: &Varying,
        long: &Varying,
        rows: i64,
        Ghost(t): Ghost<Tri>,
        Ghost(c): Ghost<int>,
    )
        requires
            old(self).wf(),
            short.bounded(),
            long.bounded(),
            0 < rows < 0x7fff_ffff_ffff_fff0,
            short@ == t.short_point(c),
            long@ == t.long_point(c),
            rows == t.rows(c),
            x == t.s0.p.x + c,
        ensures
            final(self).wf(),
            final(self).same_settings(old(self)),
            final(self).canvas() == old(self).canvas().draw(
                column(old(self).diffuse, old(self).color, t, c),
            ),
    {
        let ghost base: Canvas = self.canvas();
        let ghost diffuse: Option<TgaImage> = self.diffuse;
        let ghost flat: RgbaColor = self.color;
        let mut k: i64 = 0;
        while k <= rows
            invariant
                0 <= k <= rows + 1,
                0 < rows < 0x7fff_ffff_ffff_fff0,
                short.bounded(),
                long.bounded(),
                short@ == t.short_point(c),
                long@ == t.long_point(c),
                rows == t.rows(c),
                x == t.s0.p.x + c,
                self.wf(),
                self.same_settings(old(self)),
                diffuse == old(self).diffuse,
                flat == old(self).color,
                self.canvas() == base.draw(
                    Seq::new(k as nat, |j: int| fragment(diffuse, flat, t, c, j)),
                ),
            decreases rows + 1 - k,
        {
            let s: Varying = Varying::between(short, long, k, rows);
            let y: i64 = s.y / 65536;
            let color: RgbaColor = self.shade_sample(&s);
            self.plot(x, y, s.z, &color);
            proof {
                let f = fragment(diffuse, flat, t, c, k as int);
                let sofar = Seq::new(k as nat, |j: int| fragment(diffuse, flat, t, c, j));
                let next = Seq::new((k + 1) as nat, |j: int| fragment(diffuse, flat, t, c, j));
                assert(s@ == t.sample(c, k as int));
                assert(f == Fragment { x: x as int, y: y as int, depth: s.z as int, color });
                assert(next =~= sofar.push(f));
                lemma_draw_push(base, sofar, f);
            }
            k += 1;
        }
        assert(Seq::new((rows + 1) as nat, |j: int| fragment(diffuse, flat, t, c, j)) =~= column(
            diffuse,
            flat,
            t,
            c,
        ));
    }

    /// Fills the triangle with the given corners.
    ///
    /// The corners are ordered from left to right, and the triangle is swept
    /// column by column along its long edge; each column is sampled from the
    /// short edge to the long edge, and every sample becomes a fragment that
    /// is painted if the depth test admits it. A triangle whose corners
    /// share one `x` paints nothing.
    pub fn triangle(&mut self, v0: Vertex, v1: Vertex, v2: Vertex)
        requires
            old(self).wf(),
        ensures
            final(self).wf(),
            final(self).same_settings(old(self)),
            final(self).canvas() == old(self).canvas().draw(old(self).fragments(v0, v1, v2)),
    {
        let (a0, a1, a2) = if v2.p.x < v1.p.x {
            (v0, v2, v1)
        } else {
            (v0, v1, v2)
        };
        let (b0, b1, b2) = if a1.p.x < a0.p.x {
            (a1, a0, a2)
        } else {
            (a0, a1, a2)
        };
        let (s0, s1, s2) = if b2.p.x < b1.p.x {
            (b0, b2, b1)
        } else {
            (b0, b1, b2)
        };
        let ghost t: Tri = sorted(v0, v1, v2);
        let ghost base: Canvas = self.canvas();
        let ghost diffuse: Option<TgaImage> = self.diffuse;
        let ghost flat: RgbaColor = self.color;
        proof {
            lemma_sorted_ordered(v0, v1, v2);
            assert(t == Tri { s0, s1, s2 });
        }
        let span: i64 = s2.p.x as i64 - s0.p.x as i64;
        if span == 0 {
            return ;
        }
        let first: i64 = s1.p.x as i64 - s0.p.x as i64;
        let second: i64 = s2.p.x as i64 - s1.p.x as i64;
        let left: Varying = Varying::at(&s0);
        let mid: Varying = Varying::at(&s1);
        let right: Varying = Varying::at(&s2);
        let mut c: i64 = 0;
        while c <= span
            invariant
                0 <= c <= span + 1,
                0 < span <= 0xffff_ffff,
                0 <= first,
                0 <= second,
                span == t.span(),
                first == t.first_span(),
                second == t.second_span(),
                first + second == span,
                t == (Tri { s0, s1, s2 }),
                left.bounded(),
                mid.bounded(),
                right.bounded(),
                left@ == attrs_at(s0),
                mid@ == attrs_at(s1),
                right@ == attrs_at(s2),
                self.wf(),
                self.same_settings(old(self)),
                diffuse == old(self).diffuse,
                flat == old(self).color,
                self.canvas() == base.draw(columns(diffuse, flat, t, c as nat)),
            decreases span + 1 - c,
        {
            let long: Varying = Varying::between(&left, &right, c, span);
            let short: Varying = if c <= first && first != 0 {
                Varying::between(&left, &mid, c, first)
            } else {
                Varying::between(&mid, &right, c - first, second)
            };
            let dist: i64 = if long.y < short.y {
                short.y - long.y
            } else {
                long.y - short.y
            };
            let rows: i64 = (dist + 32768) / 65536 + 1;
            let ghost done: Seq<Fragment> = columns(diffuse, flat, t, c as nat);
            self.fill_column(s0.p.x as i64 + c, &short, &long, rows, Ghost(t), Ghost(c as int));
            proof {
                lemma_draw_concat(base, done, column(diffuse, flat, t, c as int));
                assert(columns(diffuse, flat, t, (c + 1) as nat) == done + column(
                    diffuse,
                    flat,
                    t,
                    c as int,
                ));
            }
            c += 1;
        }
    }
}

/// Corner `k` of a face of a model, on a screen of the given size.
fn corner_vertex(
    model: &Model,
    shading: Shading,
    light_dir: Vec3f,
    width: i32,
    height: i32,
    face: &[i32; 9],
    k: usize,
) -> (v: Vertex)
    requires
        k < 3,
        model.wf(),
        light_dir == light(),
        model.corner_ok(*face, 0),
        model.corner_ok(*face, 1),
        model.corner_ok(*face, 2),
        shading == Shading::Gouraud ==> model.normal_ok(*face, k as int),
        0 < width <= MAX_DIM,
        0 < height <= MAX_DIM,
    ensures
        v == model.corner(shading, width as int, height as int, *face, k as int),
{
    let w: Vec3f = model.vertices[face[3 * k] as usize];
    assert(model.vertices@[face[3 * k as int] as int].in_range());
    let intensity: i32 = match shading {
        Shading::Flat => {
            let w0: Vec3f = model.vertices[face[0] as usize];
            let w1: Vec3f = model.vertices[face[3] as usize];
            let w2: Vec3f = model.vertices[face[6] as usize];
            assert(model.vertices@[face[0] as int].in_range());
            assert(model.vertices@[face[3] as int].in_range());
            assert(model.vertices@[face[6] as int].in_range());
            let normal: Vec3f = (w2 - w0).cross_unit(w1 - w0);
            assert(normal == face_normal(w0, w1, w2));
            lit(light_dir, normal)
        },
        Shading::Gouraud => lit(light_dir, model.normals[face[3 * k + 2] as usize]),
    };
    Vertex {
        p: project_point(&w, width, height),
        t: model.texture_coords[face[3 * k + 1] as usize],
        i: intensity,
    }
}

} // verus!
