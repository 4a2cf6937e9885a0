//! What holds of filling a triangle.

use vstd::prelude::*;
use crate::fixed::{abs, lerp, round_units};
use crate::raster::{
    columns, fragment, fragments, lemma_sorted_ordered, sorted, Canvas, Fragment, Tri, Vertex,
};
use crate::depth_laws::{
    cell, lands, lemma_draw_settles, lemma_offset_injective, lemma_settle_depth,
    lemma_settle_hidden, written,
};
use crate::tga::{RgbaColor, TgaImage, TgaPixel};

verus! {

/// A triangle whose three corners share one `x` has no fragments, so
/// filling it leaves every pixel and every depth as it was.
pub proof fn lemma_upright_paints_nothing(
    cv: Canvas,
    diffuse: Option<TgaImage>,
    flat: RgbaColor,
    v0: Vertex,
    v1: Vertex,
    v2: Vertex,
)
    requires
        v0.p.x == v1.p.x,
        v1.p.x == v2.p.x,
    ensures
        fragments(diffuse, flat, v0, v1, v2) == Seq::<Fragment>::empty(),
        cv.draw(fragments(diffuse, flat, v0, v1, v2)) == cv,
{
    assert(sorted(v0, v1, v2).span() == 0);
}

/// On which side of the line from `(ax, ay)` to `(bx, by)` the point
/// `(px, py)` lies: positive on one side, negative on the other, zero on
/// the line.
pub open spec fn edge(ax: int, ay: int, bx: int, by: int, px: int, py: int) -> int {
    (bx - ax) * (py - ay) - (by - ay) * (px - ax)
}

/// Whether `(x, y)` lies strictly inside the triangle with the given
/// corners: strictly on the same side of all three edges, taken in turn.
pub open spec fn strictly_inside(v0: Vertex, v1: Vertex, v2: Vertex, x: int, y: int) -> bool {
    let e0 = edge(v0.p.x as int, v0.p.y as int, v1.p.x as int, v1.p.y as int, x, y);
    let e1 = edge(v1.p.x as int, v1.p.y as int, v2.p.x as int, v2.p.y as int, x, y);
    let e2 = edge(v2.p.x as int, v2.p.y as int, v0.p.x as int, v0.p.y as int, x, y);
    (e0 > 0 && e1 > 0 && e2 > 0) || (e0 < 0 && e1 < 0 && e2 < 0)
}

/// Taking an edge in the other direction changes the sign of its sides.
proof fn lemma_edge_flip(ax: int, ay: int, bx: int, by: int, px: int, py: int)
    ensures
        edge(bx, by, ax, ay, px, py) == -edge(ax, ay, bx, by, px, py),
{
    assert((ax - bx) * (py - by) - (ay - by) * (px - bx) == -((bx - ax) * (py - ay) - (by - ay) * (
    px - ax))) by (nonlinear_arith);
}

/// A point strictly inside a triangle is strictly inside it in whatever
/// order the corners are given, so also in their order from left to right.
proof fn lemma_inside_sorted(v0: Vertex, v1: Vertex, v2: Vertex, x: int, y: int)
    requires
        strictly_inside(v0, v1, v2, x, y),
    ensures
        strictly_inside(sorted(v0, v1, v2).s0, sorted(v0, v1, v2).s1, sorted(v0, v1, v2).s2, x, y),
{
    lemma_edge_flip(v0.p.x as int, v0.p.y as int, v1.p.x as int, v1.p.y as int, x, y);
    lemma_edge_flip(v1.p.x as int, v1.p.y as int, v2.p.x as int, v2.p.y as int, x, y);
    lemma_edge_flip(v2.p.x as int, v2.p.y as int, v0.p.x as int, v0.p.y as int, x, y);
}

/// Where a point lies relative to a line decides where its height lies
/// relative to the line's height in the point's column, in fixed point.
proof fn lemma_edge_height(y0: int, y1: int, num: int, den: int, py: int)
    requires
        0 < den,
    ensures
        den * (py - y0) < (y1 - y0) * num ==> py * 65536 <= lerp(
            y0 * 65536,
            y1 * 65536,
            num,
            den,
        ),
        den * (py - y0) > (y1 - y0) * num ==> lerp(y0 * 65536, y1 * 65536, num, den) < py * 65536,
{
    let n = (y1 * 65536 - y0 * 65536) * num;
    let q = n / den;
    let m = (py - y0) * 65536;
    assert(den * q <= n < den * q + den) by (nonlinear_arith)
        requires
            q == n / den,
            0 < den,
    ;
    assert(n == 65536 * ((y1 - y0) * num)) by (nonlinear_arith)
        requires
            n == (y1 * 65536 - y0 * 65536) * num,
    ;
    assert(m * den == 65536 * (den * (py - y0))) by (nonlinear_arith)
        requires
            m == (py - y0) * 65536,
    ;
    if den * (py - y0) < (y1 - y0) * num {
        assert(m <= q) by (nonlinear_arith)
            requires
                m * den < n,
                n < den * q + den,
                0 < den,
        ;
    }
    if den * (py - y0) > (y1 - y0) * num {
        assert(q < m) by (nonlinear_arith)
            requires
                m * den > n,
                den * q <= n,
                0 < den,
        ;
    }
}

/// The sign of a product is the product of the signs.
proof fn lemma_product_sign(a: int, b: int)
    ensures
        (a > 0 && b > 0) || (a < 0 && b < 0) ==> a * b > 0,
        (a > 0 && b < 0) || (a < 0 && b > 0) ==> a * b < 0,
        a == 0 || b == 0 ==> a * b == 0,
{
    assert((a > 0 && b > 0) || (a < 0 && b < 0) ==> a * b > 0) by (nonlinear_arith);
    assert((a > 0 && b < 0) || (a < 0 && b > 0) ==> a * b < 0) by (nonlinear_arith);
    assert(a == 0 || b == 0 ==> a * b == 0) by (nonlinear_arith);
}

/// An identity between the area of a triangle and two of its edge
/// functions at a point, all relative to the first corner.
proof fn lemma_area_split(al: int, bl: int, a: int, b: int, c: int, h: int)
    ensures
        c * (a * bl - b * al) == al * (bl * h - b * c) + bl * (a * c - al * h),
{
    let t1 = bl * h;
    let t2 = b * c;
    let t3 = a * c;
    let t4 = al * h;
    let u1 = a * bl;
    let u2 = b * al;
    assert(al * (t1 - t2) == al * t1 - al * t2) by (nonlinear_arith);
    assert(bl * (t3 - t4) == bl * t3 - bl * t4) by (nonlinear_arith);
    assert(c * (u1 - u2) == c * u1 - c * u2) by (nonlinear_arith);
    assert(al * t1 == bl * t4) by (nonlinear_arith)
        requires
            t1 == bl * h,
            t4 == al * h,
    ;
    assert(al * t2 == c * u2) by (nonlinear_arith)
        requires
            t2 == b * c,
            u2 == b * al,
    ;
    assert(bl * t3 == c * u1) by (nonlinear_arith)
        requires
            t3 == a * c,
            u1 == a * bl,
    ;
}

/// The three edge functions of a triangle at a point add up to twice the
/// triangle's area, all relative to the first corner.
proof fn lemma_area_sum(al: int, bl: int, a: int, b: int, c: int, h: int)
    ensures
        (bl * h - b * c) + ((al - bl) * (h - b) - (a - b) * (c - bl)) + (a * c - al * h) == a * bl
            - b * al,
{
    assert((al - bl) * (h - b) == al * h - al * b - bl * h + bl * b) by (nonlinear_arith);
    assert((a - b) * (c - bl) == a * c - a * bl - b * c + b * bl) by (nonlinear_arith);
    assert(al * b == b * al && bl * b == b * bl) by (nonlinear_arith);
}

/// The product of two differences is the same however the differences are
/// written.
proof fn lemma_same_product(p: int, q: int, r: int, s: int)
    requires
        p == r,
        q == s,
    ensures
        p * q == r * s,
{
}

/// A point at which the three edge functions of a triangle have one strict
/// sign lies strictly between the triangle's first and last column. The
/// triangle is given relative to its first corner: `bl` and `al` are the
/// columns of the second and third corner, `b` and `a` their heights; `c`
/// and `h` are the column and height of the point.
proof fn lemma_between_columns(al: int, bl: int, a: int, b: int, c: int, h: int)
    requires
        0 <= bl <= al,
        ({
            let e0 = bl * h - b * c;
            let e1 = (al - bl) * (h - b) - (a - b) * (c - bl);
            let e2 = a * c - al * h;
            (e0 > 0 && e1 > 0 && e2 > 0) || (e0 < 0 && e1 < 0 && e2 < 0)
        }),
    ensures
        0 < c < al,
{
    let e0 = bl * h - b * c;
    let e1 = (al - bl) * (h - b) - (a - b) * (c - bl);
    let e2 = a * c - al * h;
    let area = a * bl - b * al;
    lemma_area_sum(al, bl, a, b, c, h);
    lemma_area_split(al, bl, a, b, c, h);
    assert(c * area == al * e0 + bl * e2);
    assert((al - c) * area == al * e1 + (al - bl) * e2) by (nonlinear_arith)
        requires
            e0 + e1 + e2 == area,
            c * area == al * e0 + bl * e2,
    ;
    if al == 0 {
        assert(area == 0) by (nonlinear_arith)
            requires
                area == a * bl - b * al,
                al == 0,
                bl == 0,
        ;
    }
    lemma_product_sign(al, e0);
    lemma_product_sign(bl, e2);
    lemma_product_sign(al, e1);
    lemma_product_sign(al - bl, e2);
    lemma_product_sign(c, area);
    lemma_product_sign(al - c, area);
}

/// A point strictly inside a triangle whose corners are ordered from left
/// to right lies in a column strictly between the first corner and the last,
/// and its height lies between the two edge points of that column: above
/// the lower one, and at most at the upper one.
proof fn lemma_inside_column(t: Tri, x: int, y: int)
    requires
        t.ordered(),
        strictly_inside(t.s0, t.s1, t.s2, x, y),
    ensures
        0 < x - t.s0.p.x < t.span(),
        (t.short_point(x - t.s0.p.x).y < y * 65536 <= t.long_point(x - t.s0.p.x).y) || (
        t.long_point(x - t.s0.p.x).y < y * 65536 <= t.short_point(x - t.s0.p.x).y),
{
    let x0 = t.s0.p.x as int;
    let y0 = t.s0.p.y as int;
    let x1 = t.s1.p.x as int;
    let y1 = t.s1.p.y as int;
    let x2 = t.s2.p.x as int;
    let y2 = t.s2.p.y as int;
    let al = x2 - x0;
    let bl = x1 - x0;
    let cl = x2 - x1;
    let c = x - x0;
    let h = y - y0;
    let a = y2 - y0;
    let b = y1 - y0;
    let e0 = edge(x0, y0, x1, y1, x, y);
    let e1 = edge(x1, y1, x2, y2, x, y);
    let e2 = edge(x2, y2, x0, y0, x, y);
    let long_side = edge(x0, y0, x2, y2, x, y);
    lemma_edge_flip(x0, y0, x2, y2, x, y);
    assert(e0 == bl * h - b * c);
    assert(e1 == (al - bl) * (h - b) - (a - b) * (c - bl)) by {
        lemma_same_product(x2 - x1, y - y1, al - bl, h - b);
        lemma_same_product(y2 - y1, x - x1, a - b, c - bl);
    }
    assert(long_side == al * h - a * c);
    assert(e2 == a * c - al * h);
    lemma_between_columns(al, bl, a, b, c, h);
    lemma_edge_height(y0, y2, c, al, y);
    if t.on_first(c) {
        lemma_edge_height(y0, y1, c, bl, y);
    } else {
        assert(cl > 0 && 0 <= c - bl <= cl);
        lemma_edge_height(y1, y2, c - bl, cl, y);
        assert(e1 == cl * (y - y1) - (y2 - y1) * (c - bl));
    }
}

/// One step down a column moves a sample by at most one pixel.
proof fn lemma_step_small(from: int, to: int, rows: int, k: int)
    requires
        rows == round_units(abs(to - from)) + 1,
        0 <= k < rows,
    ensures
        from <= to ==> lerp(from, to, k, rows) <= lerp(from, to, k + 1, rows) <= lerp(
            from,
            to,
            k,
            rows,
        ) + 65536,
        to <= from ==> lerp(from, to, k, rows) - 65536 <= lerp(from, to, k + 1, rows) <= lerp(
            from,
            to,
            k,
            rows,
        ),
{
    let d = to - from;
    let r = round_units(abs(d));
    assert(abs(d) < rows * 65536) by {
        assert(65536 * r <= abs(d) + 32768 < 65536 * r + 65536);
    }
    let q1 = (d * k) / rows;
    let q2 = (d * (k + 1)) / rows;
    assert(rows * q1 <= d * k < rows * q1 + rows) by (nonlinear_arith)
        requires
            q1 == (d * k) / rows,
            0 < rows,
    ;
    assert(rows * q2 <= d * (k + 1) < rows * q2 + rows) by (nonlinear_arith)
        requires
            q2 == (d * (k + 1)) / rows,
            0 < rows,
    ;
    assert(d * (k + 1) == d * k + d) by (nonlinear_arith);
    if d >= 0 {
        assert(q1 <= q2 <= q1 + 65536) by (nonlinear_arith)
            requires
                rows * q1 <= d * k,
                d * k < rows * q1 + rows,
                rows * q2 <= d * k + d,
                d * k + d < rows * q2 + rows,
                0 <= d < rows * 65536,
                0 < rows,
        ;
    }
    if d <= 0 {
        assert(q1 - 65536 <= q2 <= q1) by (nonlinear_arith)
            requires
                rows * q1 <= d * k,
                d * k < rows * q1 + rows,
                rows * q2 <= d * k + d,
                d * k + d < rows * q2 + rows,
                -(rows * 65536) < d <= 0,
                0 < rows,
        ;
    }
}

/// Going up a column from below a pixel row to it or beyond, some sample
/// falls into the row.
proof fn lemma_crossing_up(from: int, to: int, rows: int, target: int, n: int) -> (k: int)
    requires
        rows == round_units(abs(to - from)) + 1,
        from <= to,
        0 <= n <= rows,
        from < target,
        target <= lerp(from, to, n, rows),
    ensures
        0 <= k <= n,
        target <= lerp(from, to, k, rows) < target + 65536,
    decreases n,
{
    if n == 0 {
        crate::fixed::lemma_lerp_bounds(from, to, 0, rows);
        0
    } else if target <= lerp(from, to, n - 1, rows) {
        lemma_crossing_up(from, to, rows, target, n - 1)
    } else {
        lemma_step_small(from, to, rows, n - 1);
        n
    }
}

/// Going down a column from a pixel row or beyond to below it, some sample
/// falls into the row.
proof fn lemma_crossing_down(from: int, to: int, rows: int, target: int, n: int) -> (k: int)
    requires
        rows == round_units(abs(to - from)) + 1,
        to <= from,
        0 <= n <= rows,
        target <= from,
        lerp(from, to, n, rows) < target,
    ensures
        0 <= k <= n,
        target <= lerp(from, to, k, rows) < target + 65536,
    decreases n,
{
    if n == 0 {
        crate::fixed::lemma_lerp_bounds(from, to, 0, rows);
        0
    } else if lerp(from, to, n - 1, rows) < target {
        lemma_crossing_down(from, to, rows, target, n - 1)
    } else {
        lemma_step_small(from, to, rows, n - 1);
        n - 1
    }
}

/// Every sample of every column among the first `n` is among the
/// fragments of those columns.
proof fn lemma_columns_member(
    diffuse: Option<TgaImage>,
    flat: RgbaColor,
    t: Tri,
    n: nat,
    c: int,
    k: int,
) -> (at: int)
    requires
        0 <= c < n,
        0 <= k <= t.rows(c),
    ensures
        0 <= at < columns(diffuse, flat, t, n).len(),
        columns(diffuse, flat, t, n)[at] == fragment(diffuse, flat, t, c, k),
    decreases n,
{
    let before = columns(diffuse, flat, t, (n - 1) as nat);
    if c == n - 1 {
        before.len() + k
    } else {
        lemma_columns_member(diffuse, flat, t, (n - 1) as nat, c, k)
    }
}

/// Every fragment of the first `n` columns is a sample of one of them.
proof fn lemma_columns_origin(
    diffuse: Option<TgaImage>,
    flat: RgbaColor,
    t: Tri,
    n: nat,
    at: int,
) -> (r: (int, int))
    requires
        0 <= at < columns(diffuse, flat, t, n).len(),
    ensures
        0 <= r.0 < n,
        0 <= r.1 <= t.rows(r.0),
        columns(diffuse, flat, t, n)[at] == fragment(diffuse, flat, t, r.0, r.1),
    decreases n,
{
    let before = columns(diffuse, flat, t, (n - 1) as nat);
    if at < before.len() {
        lemma_columns_origin(diffuse, flat, t, (n - 1) as nat, at)
    } else {
        (n - 1, at - before.len())
    }
}

/// Every sample of a triangle has an intensity between the smallest and the
/// largest intensity of the corners.
proof fn lemma_intensity_between(t: Tri, c: int, k: int)
    requires
        t.ordered(),
        0 < t.span(),
        0 <= c <= t.span(),
        0 <= k <= t.rows(c),
    ensures
        min3(t.s0.i as int, t.s1.i as int, t.s2.i as int) <= t.sample(c, k).i <= max3(
            t.s0.i as int,
            t.s1.i as int,
            t.s2.i as int,
        ),
{
    crate::fixed::lemma_lerp_bounds(t.s0.i as int, t.s2.i as int, c, t.span());
    if t.on_first(c) {
        crate::fixed::lemma_lerp_bounds(t.s0.i as int, t.s1.i as int, c, t.first_span());
    } else {
        crate::fixed::lemma_lerp_bounds(
            t.s1.i as int,
            t.s2.i as int,
            c - t.first_span(),
            t.second_span(),
        );
    }
    assert(t.rows(c) > 0);
    crate::fixed::lemma_lerp_bounds(t.short_point(c).i, t.long_point(c).i, k, t.rows(c));
}

/// A pixel strictly inside a triangle is reached: one of the triangle's
/// fragments falls on it.
proof fn lemma_fill_reaches(
    diffuse: Option<TgaImage>,
    flat: RgbaColor,
    v0: Vertex,
    v1: Vertex,
    v2: Vertex,
    x: int,
    y: int,
) -> (j: int)
    requires
        0 <= y,
        strictly_inside(v0, v1, v2, x, y),
    ensures
        0 <= j < fragments(diffuse, flat, v0, v1, v2).len(),
        fragments(diffuse, flat, v0, v1, v2)[j].x == x,
        fragments(diffuse, flat, v0, v1, v2)[j].y == y,
{
    let t = sorted(v0, v1, v2);
    let c = x - t.s0.p.x;
    lemma_sorted_ordered(v0, v1, v2);
    lemma_inside_sorted(v0, v1, v2, x, y);
    lemma_inside_column(t, x, y);
    let short = t.short_point(c).y;
    let long = t.long_point(c).y;
    let rows = t.rows(c);
    crate::fixed::lemma_lerp_bounds(short, long, rows, rows);
    let k = if short < y * 65536 <= long {
        lemma_crossing_up(short, long, rows, y * 65536, rows)
    } else {
        lemma_crossing_down(short, long, rows, y * 65536, rows)
    };
    assert(t.sample(c, k).y == lerp(short, long, k, rows));
    let f = fragment(diffuse, flat, t, c, k);
    assert(f.x == x && f.y == y);
    lemma_columns_member(diffuse, flat, t, (t.span() + 1) as nat, c, k)
}

/// Without a texture and with a positive intensity at every corner, every
/// fragment of a triangle has the flat color scaled by an intensity between
/// the smallest and the largest of the corners.
proof fn lemma_fragment_color(
    flat: RgbaColor,
    v0: Vertex,
    v1: Vertex,
    v2: Vertex,
    i: int,
) -> (intensity: int)
    requires
        v0.i > 0,
        v1.i > 0,
        v2.i > 0,
        0 <= i < fragments(None, flat, v0, v1, v2).len(),
    ensures
        min3(v0.i as int, v1.i as int, v2.i as int) <= intensity <= max3(
            v0.i as int,
            v1.i as int,
            v2.i as int,
        ),
        fragments(None, flat, v0, v1, v2)[i].color == flat.scaled(intensity),
{
    let t = sorted(v0, v1, v2);
    lemma_sorted_ordered(v0, v1, v2);
    let (c, k) = lemma_columns_origin(None, flat, t, (t.span() + 1) as nat, i);
    lemma_intensity_between(t, c, k);
    assert(min3(t.s0.i as int, t.s1.i as int, t.s2.i as int) == min3(
        v0.i as int,
        v1.i as int,
        v2.i as int,
    ));
    assert(max3(t.s0.i as int, t.s1.i as int, t.s2.i as int) == max3(
        v0.i as int,
        v1.i as int,
        v2.i as int,
    ));
    t.sample(c, k).i
}

/// A pixel strictly inside a triangle is painted: where the triangle has a
/// positive intensity at every corner and no texture, and nothing was drawn
/// at the pixel before, the pixel ends up with the flat color scaled by an
/// intensity between the smallest and the largest of the corners.
pub proof fn lemma_fill_covers(
    cv: Canvas,
    flat: RgbaColor,
    v0: Vertex,
    v1: Vertex,
    v2: Vertex,
    x: int,
    y: int,
)
    requires
        cv.wf(),
        cv.contains(x, y),
        cv.depth[cv.offset(x, y)] is None,
        v0.i > 0,
        v1.i > 0,
        v2.i > 0,
        strictly_inside(v0, v1, v2, x, y),
    ensures
        exists|intensity: int|
            min3(v0.i as int, v1.i as int, v2.i as int) <= intensity <= max3(
                v0.i as int,
                v1.i as int,
                v2.i as int,
            ) && cv.draw(fragments(None, flat, v0, v1, v2)).pixels[cv.offset(x, y)]
                == TgaPixel::of(#[trigger] flat.scaled(intensity)),
{
    let fs = fragments(None, flat, v0, v1, v2);
    let at = cv.offset(x, y);
    let j = lemma_fill_reaches(None, flat, v0, v1, v2, x, y);
    crate::tga::lemma_offset_in_range(cv.width, cv.height, x, y);
    lemma_draw_settles(cv, fs, at);
    lemma_settle_depth(cv, cell(cv, at), fs, at);
    let after = crate::depth_laws::settle(cv, cell(cv, at), fs, at);
    assert(lands(cv, fs[j], at));
    assert(!crate::depth_laws::below(after.depth, fs[j].depth));
    assert(after != cell(cv, at));
    let i = choose|i: int| 0 <= i < fs.len() && lands(cv, #[trigger] fs[i], at) && after == written(fs[i]);
    let intensity = lemma_fragment_color(flat, v0, v1, v2, i);
    assert(cv.draw(fs).pixels[at] == TgaPixel::of(flat.scaled(intensity)));
}

/// A pixel strictly inside a triangle of one positive intensity and no
/// texture, at which nothing was drawn before, ends up with the flat color
/// scaled by that intensity.
pub proof fn lemma_fill_covers_evenly(
    cv: Canvas,
    flat: RgbaColor,
    v0: Vertex,
    v1: Vertex,
    v2: Vertex,
    x: int,
    y: int,
)
    requires
        cv.wf(),
        cv.contains(x, y),
        cv.depth[cv.offset(x, y)] is None,
        v0.i == v1.i,
        v1.i == v2.i,
        v0.i > 0,
        strictly_inside(v0, v1, v2, x, y),
    ensures
        cv.draw(fragments(None, flat, v0, v1, v2)).pixels[cv.offset(x, y)] == TgaPixel::of(
            flat.scaled(v0.i as int),
        ),
{
    lemma_fill_covers(cv, flat, v0, v1, v2, x, y);
}

/// The smallest of three numbers.
pub open spec fn min3(a: int, b: int, c: int) -> int {
    if a <= b && a <= c {
        a
    } else if b <= c {
        b
    } else {
        c
    }
}

/// The largest of three numbers.
pub open spec fn max3(a: int, b: int, c: int) -> int {
    if a >= b && a >= c {
        a
    } else if b >= c {
        b
    } else {
        c
    }
}

/// Every fragment of a triangle lies in a column between the leftmost and
/// the rightmost corner.
pub proof fn lemma_fragments_in_columns(
    diffuse: Option<TgaImage>,
    flat: RgbaColor,
    v0: Vertex,
    v1: Vertex,
    v2: Vertex,
    at: int,
)
    requires
        0 <= at < fragments(diffuse, flat, v0, v1, v2).len(),
    ensures
        min3(v0.p.x as int, v1.p.x as int, v2.p.x as int) <= fragments(
            diffuse,
            flat,
            v0,
            v1,
            v2,
        )[at].x <= max3(v0.p.x as int, v1.p.x as int, v2.p.x as int),
{
    let t = sorted(v0, v1, v2);
    lemma_sorted_ordered(v0, v1, v2);
    let (c, k) = lemma_columns_origin(diffuse, flat, t, (t.span() + 1) as nat, at);
}

/// Filling a triangle touches no position outside its columns: a position
/// left of the leftmost corner or right of the rightmost keeps its pixel and
/// its depth.
pub proof fn lemma_fill_within_columns(
    cv: Canvas,
    diffuse: Option<TgaImage>,
    flat: RgbaColor,
    v0: Vertex,
    v1: Vertex,
    v2: Vertex,
    x: int,
    y: int,
)
    requires
        cv.wf(),
        cv.contains(x, y),
        x < min3(v0.p.x as int, v1.p.x as int, v2.p.x as int) || x > max3(
            v0.p.x as int,
            v1.p.x as int,
            v2.p.x as int,
        ),
    ensures
        cell(cv.draw(fragments(diffuse, flat, v0, v1, v2)), cv.offset(x, y)) == cell(
            cv,
            cv.offset(x, y),
        ),
{
    let fs = fragments(diffuse, flat, v0, v1, v2);
    let at = cv.offset(x, y);
    crate::tga::lemma_offset_in_range(cv.width, cv.height, x, y);
    assert forall|i: int| 0 <= i < fs.len() && lands(cv, #[trigger] fs[i], at) implies !crate::depth_laws::below(
        cell(cv, at).depth,
        fs[i].depth,
    ) by {
        lemma_fragments_in_columns(diffuse, flat, v0, v1, v2, i);
        lemma_offset_injective(cv, fs[i].x, fs[i].y, x, y);
    }
    lemma_settle_hidden(cv, cell(cv, at), fs, at);
    lemma_draw_settles(cv, fs, at);
}

} // verus!
