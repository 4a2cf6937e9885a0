//! Colors, pixels and the pixel grid.

use vstd::prelude::*;
use crate::fixed::ONE;

verus! {

/// The largest width or height of a grid: what a sixteen-bit header field holds.
pub const MAX_DIM: i32 = 65535;

/// A channel value brought into `0..=255`.
pub open spec fn clamp_channel(v: int) -> int {
    if v < 0 {
        0
    } else if v > 255 {
        255
    } else {
        v
    }
}

/// A color of four channels. A channel is in range from `0` to `255`;
/// arithmetic may leave that range, and `clamp` brings a color back into it.
#[derive(Clone, Copy, Debug, PartialEq, Eq, Structural)]
pub struct RgbaColor {
    pub r: i32,
    pub g: i32,
    pub b: i32,
    pub a: i32,
}

impl RgbaColor {
    /// Whether every channel is within `0..=255`.
    pub open spec fn in_range(self) -> bool {
        &&& 0 <= self.r <= 255
        &&& 0 <= self.g <= 255
        &&& 0 <= self.b <= 255
        &&& 0 <= self.a <= 255
    }

    /// This color with every channel clamped to `0..=255`.
    pub open spec fn clamped(self) -> RgbaColor {
        RgbaColor {
            r: clamp_channel(self.r as int) as i32,
            g: clamp_channel(self.g as int) as i32,
            b: clamp_channel(self.b as int) as i32,
            a: clamp_channel(self.a as int) as i32,
        }
    }

    /// This color with red, green and blue multiplied by the fixed-point
    /// factor `k` (rounded down) and every channel clamped; alpha is not scaled.
    pub open spec fn scaled(self, k: int) -> RgbaColor {
        RgbaColor {
            r: clamp_channel((self.r * k) / (ONE as int)) as i32,
            g: clamp_channel((self.g * k) / (ONE as int)) as i32,
            b: clamp_channel((self.b * k) / (ONE as int)) as i32,
            a: clamp_channel(self.a as int) as i32,
        }
    }

    /// The channel-wise sum of red, green and blue, clamped; alpha is this
    /// color's own, clamped.
    pub open spec fn plus(self, rhs: RgbaColor) -> RgbaColor {
        RgbaColor {
            r: clamp_channel(self.r + rhs.r) as i32,
            g: clamp_channel(self.g + rhs.g) as i32,
            b: clamp_channel(self.b + rhs.b) as i32,
            a: clamp_channel(self.a as int) as i32,
        }
    }

    /// The color with the given channels, which may lie outside `0..=255`.
    pub fn new(r: i32, g: i32, b: i32, a: i32) -> (c: RgbaColor)
        ensures
            c == (RgbaColor { r, g, b, a }),
    {
        RgbaColor { r, g, b, a }
    }

    /// The color with the given channels of eight bits each.
    pub fn new_from_u8(r: u8, g: u8, b: u8, a: u8) -> (c: RgbaColor)
        ensures
            c == (RgbaColor { r: r as i32, g: g as i32, b: b as i32, a: a as i32 }),
            c.in_range(),
    {
        RgbaColor { r: r as i32, g: g as i32, b: b as i32, a: a as i32 }
    }

    /// Opaque white.
    pub fn white() -> (c: RgbaColor)
        ensures
            c == (RgbaColor { r: 255, g: 255, b: 255, a: 255 }),
    {
        RgbaColor::new(255, 255, 255, 255)
    }

    /// Opaque black.
    pub fn black() -> (c: RgbaColor)
        ensures
            c == (RgbaColor { r: 0, g: 0, b: 0, a: 255 }),
    {
        RgbaColor::new(0, 0, 0, 255)
    }

    /// Opaque red.
    pub fn red() -> (c: RgbaColor)
        ensures
            c == (RgbaColor { r: 255, g: 0, b: 0, a: 255 }),
    {
        RgbaColor::new(255, 0, 0, 255)
    }

    /// Opaque green.
    pub fn green() -> (c: RgbaColor)
        ensures
            c == (RgbaColor { r: 0, g: 255, b: 0, a: 255 }),
    {
        RgbaColor::new(0, 255, 0, 255)
    }

    /// Opaque blue.
    pub fn blue() -> (c: RgbaColor)
        ensures
            c == (RgbaColor { r: 0, g: 0, b: 255, a: 255 }),
    {
        RgbaColor::new(0, 0, 255, 255)
    }

    /// Clamps every channel in place and returns the clamped color.
    pub fn clamp(&mut self) -> (c: RgbaColor)
        ensures
            *final(self) == old(self).clamped(),
            c == old(self).clamped(),
            c.in_range(),
    {
        self.r = clamp_i64(self.r as i64);
        self.g = clamp_i64(self.g as i64);
        self.b = clamp_i64(self.b as i64);
        self.a = clamp_i64(self.a as i64);
        *self
    }

}

impl core::ops::Mul<i64> for RgbaColor {
    type Output = RgbaColor;

    /// Red, green and blue times the fixed-point factor `k`, clamped.
    fn mul(self, k: i64) -> (c: RgbaColor) {
        RgbaColor {
            r: scale_channel(self.r, k),
            g: scale_channel(self.g, k),
            b: scale_channel(self.b, k),
            a: clamp_i64(self.a as i64),
        }
    }
}

impl vstd::std_specs::ops::MulSpecImpl<i64> for RgbaColor {
    open spec fn obeys_mul_spec() -> bool {
        true
    }

    open spec fn mul_req(self, k: i64) -> bool {
        true
    }

    open spec fn mul_spec(self, k: i64) -> RgbaColor {
        self.scaled(k as int)
    }
}

impl core::ops::Add for RgbaColor {
    type Output = RgbaColor;

    /// The sum of red, green and blue, channel by channel, clamped.
    fn add(self, rhs: RgbaColor) -> (c: RgbaColor) {
        RgbaColor {
            r: clamp_i64(self.r as i64 + rhs.r as i64),
            g: clamp_i64(self.g as i64 + rhs.g as i64),
            b: clamp_i64(self.b as i64 + rhs.b as i64),
            a: clamp_i64(self.a as i64),
        }
    }
}

impl vstd::std_specs::ops::AddSpecImpl for RgbaColor {
    open spec fn obeys_add_spec() -> bool {
        true
    }

    open spec fn add_req(self, rhs: RgbaColor) -> bool {
        true
    }

    open spec fn add_spec(self, rhs: RgbaColor) -> RgbaColor {
        self.plus(rhs)
    }
}

/// Scaling or adding colors leaves every channel in range.
pub proof fn lemma_arithmetic_in_range(c: RgbaColor, d: RgbaColor, k: int)
    ensures
        c.scaled(k).in_range(),
        c.plus(d).in_range(),
        c.clamped().in_range(),
{
}

/// A channel value brought into `0..=255`.
fn clamp_i64(v: i64) -> (c: i32)
    ensures
        c == clamp_channel(v as int),
        0 <= c <= 255,
{
    if v < 0 {
        0
    } else if v > 255 {
        255
    } else {
        v as i32
    }
}

/// A channel value times the fixed-point factor `k`, brought into `0..=255`.
fn scale_channel(v: i32, k: i64) -> (c: i32)
    ensures
        c == clamp_channel((v * k) / (ONE as int)),
        0 <= c <= 255,
{
    assert(-0x4000_0000_0000_0000_0000_0000 <= v * k <= 0x4000_0000_0000_0000_0000_0000)
        by (nonlinear_arith)
        requires
            -0x8000_0000 <= v <= 0x7fff_ffff,
            -0x8000_0000_0000_0000 <= k <= 0x7fff_ffff_ffff_ffff,
    ;
    let p: i128 = (v as i128) * (k as i128);
    let q: i128 = crate::fixed::floor_div(p, ONE as i128);
    if q < 0 {
        0
    } else if q > 255 {
        255
    } else {
        q as i32
    }
}

/// One stored pixel: four channels of eight bits.
#[derive(Clone, Copy, Debug, PartialEq, Eq, Structural)]
pub struct TgaPixel {
    pub r: u8,
    pub g: u8,
    pub b: u8,
    pub a: u8,
}

impl Default for TgaPixel {
    fn default() -> (p: TgaPixel)
        ensures
            p == TgaPixel::blank(),
    {
        TgaPixel { r: 0, g: 0, b: 0, a: 0 }
    }
}

impl TgaPixel {
    /// The pixel of a grid that nothing was painted on: all channels zero.
    pub open spec fn blank() -> TgaPixel {
        TgaPixel { r: 0, g: 0, b: 0, a: 0 }
    }

    /// The pixel that stores `c`: each channel clamped to `0..=255`.
    pub open spec fn of(c: RgbaColor) -> TgaPixel {
        TgaPixel {
            r: clamp_channel(c.r as int) as u8,
            g: clamp_channel(c.g as int) as u8,
            b: clamp_channel(c.b as int) as u8,
            a: clamp_channel(c.a as int) as u8,
        }
    }

    /// The color this pixel holds.
    pub open spec fn color(self) -> RgbaColor {
        RgbaColor { r: self.r as i32, g: self.g as i32, b: self.b as i32, a: self.a as i32 }
    }

    /// Stores `color`, clamped to the channel range.
    pub fn set_color(&mut self, color: &RgbaColor)
        ensures
            *final(self) == TgaPixel::of(*color),
    {
        let mut copy: RgbaColor = *color;
        let c: RgbaColor = copy.clamp();
        self.r = c.r as u8;
        self.g = c.g as u8;
        self.b = c.b as u8;
        self.a = c.a as u8;
    }

    /// The color that the pixel holds.
    pub fn get_color(&self) -> (c: RgbaColor)
        ensures
            c == self.color(),
            c.in_range(),
    {
        RgbaColor::new_from_u8(self.r, self.g, self.b, self.a)
    }
}

/// Storing a color that is in range and reading it back gives the same color.
pub proof fn lemma_pixel_keeps_color(c: RgbaColor)
    requires
        c.in_range(),
    ensures
        TgaPixel::of(c).color() == c,
{
}

/// A grid of pixels, stored row by row: the pixel at `(x, y)` is at
/// position `x + width * y`.
pub struct TgaImage {
    pub width: i32,
    pub height: i32,
    pub pixels: Vec<TgaPixel>,
}

impl View for TgaImage {
    type V = Seq<TgaPixel>;

    /// The pixels, row by row.
    open spec fn view(&self) -> Seq<TgaPixel> {
        self.pixels@
    }
}

impl TgaImage {
    /// Both dimensions are positive and at most `MAX_DIM`, and there is one
    /// stored pixel for each position.
    pub open spec fn wf(&self) -> bool {
        &&& 0 < self.width <= MAX_DIM
        &&& 0 < self.height <= MAX_DIM
        &&& self@.len() == self.width * self.height
    }

    /// Whether `(x, y)` is a position of the grid.
    pub open spec fn contains(&self, x: int, y: int) -> bool {
        0 <= x < self.width && 0 <= y < self.height
    }

    /// Where the pixel at `(x, y)` is stored.
    pub open spec fn offset(&self, x: int, y: int) -> int {
        x + self.width * y
    }

    /// The stored pixel at `(x, y)`.
    pub open spec fn pixel(&self, x: int, y: int) -> TgaPixel {
        self@[self.offset(x, y)]
    }

    /// A grid of the given size with every pixel blank.
    pub fn new(width: i32, height: i32) -> (img: TgaImage)
        requires
            0 < width <= MAX_DIM,
            0 < height <= MAX_DIM,
        ensures
            img.wf(),
            img.width == width,
            img.height == height,
            img@ == Seq::new((width * height) as nat, |i: int| TgaPixel::blank()),
    {
        assert(0 < width * height <= 65535 * 65535) by (nonlinear_arith)
            requires
                0 < width <= 65535,
                0 < height <= 65535,
        ;
        let n: u64 = (width as u64) * (height as u64);
        let mut pixels: Vec<TgaPixel> = Vec::new();
        let mut i: u64 = 0;
        while i < n
            invariant
                i <= n,
                pixels@ == Seq::new(i as nat, |j: int| TgaPixel::blank()),
            decreases n - i,
        {
            pixels.push(TgaPixel { r: 0, g: 0, b: 0, a: 0 });
            i += 1;
            assert(pixels@ =~= Seq::new(i as nat, |j: int| TgaPixel::blank()));
        }
        TgaImage { width, height, pixels }
    }

    /// Where the pixel at `(x, y)` is stored, for a position of the grid.
    pub fn position(&self, x: i32, y: i32) -> (at: usize)
        requires
            self.wf(),
            self.contains(x as int, y as int),
        ensures
            at == self.offset(x as int, y as int),
            at < self@.len(),
    {
        proof {
            lemma_offset_in_range(self.width as int, self.height as int, x as int, y as int);
            assert(self.width * self.height <= 65535 * 65535) by (nonlinear_arith)
                requires
                    0 < self.width <= 65535,
                    0 < self.height <= 65535,
            ;
        }
        (x as u64 + (self.width as u64) * (y as u64)) as usize
    }

    /// Stores `color` at `(x, y)`. A position outside the grid is ignored.
    pub fn set_pixel(&mut self, x: i32, y: i32, color: &RgbaColor)
        requires
            old(self).wf(),
        ensures
            final(self).wf(),
            final(self).width == old(self).width,
            final(self).height == old(self).height,
            old(self).contains(x as int, y as int) ==> final(self)@ == old(self)@.update(
                old(self).offset(x as int, y as int),
                TgaPixel::of(*color),
            ),
            !old(self).contains(x as int, y as int) ==> final(self)@ == old(self)@,
    {
        if 0 <= x && x < self.width && 0 <= y && y < self.height {
            let at: usize = self.position(x, y);
            let mut p: TgaPixel = TgaPixel { r: 0, g: 0, b: 0, a: 0 };
            p.set_color(color);
            self.pixels.set(at, p);
        }
    }

    /// The color stored at `(x, y)`, which must be a position of the grid.
    pub fn get_pixel(&self, x: i32, y: i32) -> (c: RgbaColor)
        requires
            self.wf(),
            self.contains(x as int, y as int),
        ensures
            c == self.pixel(x as int, y as int).color(),
            c.in_range(),
    {
        let at: usize = self.position(x, y);
        self.pixels[at].get_color()
    }
}

/// Inside a grid, `x + width * y` is a position of the row-by-row storage.
pub proof fn lemma_offset_in_range(width: int, height: int, x: int, y: int)
    requires
        0 <= x < width,
        0 <= y < height,
    ensures
        0 <= x + width * y < width * height,
        0 <= width * y <= width * height,
{
    assert(0 <= width * y && width * y + width <= width * height) by (nonlinear_arith)
        requires
            0 <= y,
            y + 1 <= height,
            0 < width,
    ;
}

} // verus!
