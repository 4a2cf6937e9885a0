//! What holds of the path of a line.

use vstd::prelude::*;
use crate::fixed::abs;
use crate::raster::{
    lemma_round_half_down, line_path, line_point, line_steps, round_half_down, signum, Canvas,
};
use crate::tga::TgaPixel;

verus! {

/// Rounding half down leaves a remainder above minus one half and of at
/// most one half.
pub proof fn lemma_round_remainder(n: int, d: int)
    requires
        0 < d,
    ensures
        -d < 2 * (n - round_half_down(n, d) * d) <= d,
{
    let m = round_half_down(n, d);
    assert(-d < 2 * (n - m * d) <= d) by (nonlinear_arith)
        requires
            0 < d,
            m == (2 * n + d - 1) / (2 * d),
    ;
}

/// Whether `n / d` lies exactly halfway between two whole numbers.
pub open spec fn halfway(n: int, d: int) -> bool {
    2 * (n - round_half_down(n, d) * d) == d
}

/// Whether the line between two points lies, after `k` steps, exactly
/// halfway between two pixels along one of the axes.
pub open spec fn tie_at(x0: int, y0: int, x1: int, y1: int, k: int) -> bool {
    halfway(k * abs(x1 - x0), line_steps(x0, y0, x1, y1)) || halfway(
        k * abs(y1 - y0),
        line_steps(x0, y0, x1, y1),
    )
}

/// Whether the line between two points never passes exactly halfway
/// between two pixels.
pub open spec fn tie_free(x0: int, y0: int, x1: int, y1: int) -> bool {
    forall|k: int| 0 <= k <= line_steps(x0, y0, x1, y1) ==> !#[trigger] tie_at(x0, y0, x1, y1, k)
}

/// A line has one point more than it has steps: one more than the larger
/// of its two extents.
pub proof fn lemma_line_length(x0: int, y0: int, x1: int, y1: int)
    ensures
        line_path(x0, y0, x1, y1).len() == line_steps(x0, y0, x1, y1) + 1,
        line_steps(x0, y0, x1, y1) >= abs(x1 - x0),
        line_steps(x0, y0, x1, y1) >= abs(y1 - y0),
        line_steps(x0, y0, x1, y1) == abs(x1 - x0) || line_steps(x0, y0, x1, y1) == abs(y1 - y0),
{
}

/// After `k` steps an axis of extent `a` has advanced by `k * a / steps`,
/// rounded; for the axis of the larger extent that is `k` itself.
proof fn lemma_full_axis(k: int, s: int)
    requires
        0 < s,
    ensures
        round_half_down(k * s, s) == k,
{
    lemma_round_half_down(k * s, s, k);
}

/// A line starts at its first end and stops at its second.
pub proof fn lemma_line_ends(x0: int, y0: int, x1: int, y1: int)
    ensures
        line_path(x0, y0, x1, y1).first() == (x0, y0),
        line_path(x0, y0, x1, y1).last() == (x1, y1),
{
    let s = line_steps(x0, y0, x1, y1);
    if s > 0 {
        let ax = abs(x1 - x0);
        let ay = abs(y1 - y0);
        assert(0 * ax == 0 && 0 * ay == 0);
        lemma_round_half_down(0, s, 0);
        assert(-s < 2 * (s * ax - ax * s) <= s && -s < 2 * (s * ay - ay * s) <= s)
            by (nonlinear_arith)
            requires
                0 < s,
        ;
        lemma_round_half_down(s * ax, s, ax);
        lemma_round_half_down(s * ay, s, ay);
        assert(signum(x1 - x0) * ax == x1 - x0 && signum(y1 - y0) * ay == y1 - y0)
            by (nonlinear_arith)
            requires
                ax == abs(x1 - x0),
                ay == abs(y1 - y0),
        ;
    }
}

/// No two points of a line are the same: a line of `n` steps paints
/// exactly `n + 1` different positions.
pub proof fn lemma_line_distinct(x0: int, y0: int, x1: int, y1: int)
    ensures
        line_path(x0, y0, x1, y1).no_duplicates(),
{
    let s = line_steps(x0, y0, x1, y1);
    let path = line_path(x0, y0, x1, y1);
    assert forall|i: int, j: int| 0 <= i < path.len() && 0 <= j < path.len() && i != j implies path[i]
        != path[j] by {
        lemma_full_axis(i, s);
        lemma_full_axis(j, s);
        if abs(x1 - x0) == s {
            assert(signum(x1 - x0) * i != signum(x1 - x0) * j) by (nonlinear_arith)
                requires
                    i != j,
                    signum(x1 - x0) == 1 || signum(x1 - x0) == -1,
            ;
        } else {
            assert(signum(y1 - y0) * i != signum(y1 - y0) * j) by (nonlinear_arith)
                requires
                    i != j,
                    signum(y1 - y0) == 1 || signum(y1 - y0) == -1,
            ;
        }
    }
}

/// Along one axis, where the line never passes exactly halfway, walking
/// `steps - k` steps back from the far end arrives where `k` steps from the
/// near end do.
proof fn lemma_axis_reversed(from: int, to: int, s: int, k: int)
    requires
        0 <= k <= s,
        0 < s,
        abs(to - from) <= s,
        !halfway(k * abs(to - from), s),
    ensures
        to + signum(from - to) * round_half_down((s - k) * abs(from - to), s) == from + signum(
            to - from,
        ) * round_half_down(k * abs(to - from), s),
{
    let a = abs(to - from);
    let m = round_half_down(k * a, s);
    lemma_round_remainder(k * a, s);
    assert(-s < 2 * ((s - k) * a - (a - m) * s) <= s) by (nonlinear_arith)
        requires
            -s < 2 * (k * a - m * s) < s,
    ;
    lemma_round_half_down((s - k) * a, s, a - m);
    assert(abs(from - to) == a);
    assert(to + signum(from - to) * (a - m) == from + signum(to - from) * m) by (nonlinear_arith)
        requires
            a == abs(to - from),
    ;
}

/// Where a line never passes exactly halfway between two pixels, the line
/// drawn from its second end to its first visits the same points in the
/// opposite order.
pub proof fn lemma_line_reversed(x0: int, y0: int, x1: int, y1: int, k: int)
    requires
        tie_free(x0, y0, x1, y1),
        0 <= k <= line_steps(x0, y0, x1, y1),
    ensures
        line_steps(x1, y1, x0, y0) == line_steps(x0, y0, x1, y1),
        line_point(x1, y1, x0, y0, line_steps(x0, y0, x1, y1) - k) == line_point(
            x0,
            y0,
            x1,
            y1,
            k,
        ),
{
    let s = line_steps(x0, y0, x1, y1);
    assert(abs(x0 - x1) == abs(x1 - x0) && abs(y0 - y1) == abs(y1 - y0));
    if s > 0 {
        assert(!tie_at(x0, y0, x1, y1, k));
        lemma_axis_reversed(x0, x1, s, k);
        lemma_axis_reversed(y0, y1, s, k);
    }
}

/// Where a line never passes exactly halfway between two pixels, it
/// consists of the same points whichever end it is drawn from.
pub proof fn lemma_line_same_points(x0: int, y0: int, x1: int, y1: int)
    requires
        tie_free(x0, y0, x1, y1),
    ensures
        line_path(x1, y1, x0, y0).to_set() == line_path(x0, y0, x1, y1).to_set(),
{
    let s = line_steps(x0, y0, x1, y1);
    let there = line_path(x0, y0, x1, y1);
    let back = line_path(x1, y1, x0, y0);
    assert(line_steps(x1, y1, x0, y0) == s);
    assert forall|p: (int, int)| there.to_set().contains(p) <==> back.to_set().contains(p) by {
        if there.to_set().contains(p) {
            let k = choose|k: int| 0 <= k < there.len() && there[k] == p;
            lemma_line_reversed(x0, y0, x1, y1, k);
            assert(back[s - k] == p);
        }
        if back.to_set().contains(p) {
            let j = choose|j: int| 0 <= j < back.len() && back[j] == p;
            lemma_line_reversed(x0, y0, x1, y1, s - j);
            assert(there[s - j] == p);
        }
    }
    assert(there.to_set() =~= back.to_set());
}

/// Whether a path has a point on the canvas that is stored at `at`.
pub open spec fn passes(cv: Canvas, path: Seq<(int, int)>, at: int) -> bool {
    exists|j: int|
        0 <= j < path.len() && cv.contains((#[trigger] path[j]).0, path[j].1) && cv.offset(
            path[j].0,
            path[j].1,
        ) == at
}

/// Stamping a path changes exactly the pixels that the path passes, and
/// nothing else of the canvas.
pub proof fn lemma_trace_pixels(cv: Canvas, path: Seq<(int, int)>, pixel: TgaPixel)
    requires
        cv.wf(),
    ensures
        cv.trace(path, pixel).width == cv.width,
        cv.trace(path, pixel).height == cv.height,
        cv.trace(path, pixel).depth == cv.depth,
        cv.trace(path, pixel).pixels.len() == cv.pixels.len(),
        forall|at: int|
            0 <= at < cv.pixels.len() ==> #[trigger] cv.trace(path, pixel).pixels[at] == if passes(
                cv,
                path,
                at,
            ) {
                pixel
            } else {
                cv.pixels[at]
            },
    decreases path.len(),
{
    if path.len() > 0 {
        let front = path.drop_last();
        let p = path.last();
        lemma_trace_pixels(cv, front, pixel);
        let before = cv.trace(front, pixel);
        if before.contains(p.0, p.1) {
            crate::tga::lemma_offset_in_range(cv.width, cv.height, p.0, p.1);
        }
        assert forall|at: int| 0 <= at < cv.pixels.len() implies #[trigger] cv.trace(
            path,
            pixel,
        ).pixels[at] == if passes(cv, path, at) {
            pixel
        } else {
            cv.pixels[at]
        } by {
            if passes(cv, front, at) {
                let j = choose|j: int|
                    0 <= j < front.len() && cv.contains((#[trigger] front[j]).0, front[j].1)
                        && cv.offset(front[j].0, front[j].1) == at;
                assert(path[j] == front[j]);
            }
            if cv.contains(p.0, p.1) && cv.offset(p.0, p.1) == at {
                assert(path[path.len() - 1] == p);
            }
            if passes(cv, path, at) {
                let j = choose|j: int|
                    0 <= j < path.len() && cv.contains((#[trigger] path[j]).0, path[j].1)
                        && cv.offset(path[j].0, path[j].1) == at;
                if j < front.len() {
                    assert(front[j] == path[j]);
                }
            }
        }
    }
}

/// Where a line never passes exactly halfway between two pixels, painting
/// it from either end gives the same canvas.
pub proof fn lemma_line_symmetric(
    cv: Canvas,
    x0: int,
    y0: int,
    x1: int,
    y1: int,
    pixel: TgaPixel,
)
    requires
        cv.wf(),
        tie_free(x0, y0, x1, y1),
    ensures
        cv.trace(line_path(x1, y1, x0, y0), pixel) == cv.trace(line_path(x0, y0, x1, y1), pixel),
{
    let s = line_steps(x0, y0, x1, y1);
    let there = line_path(x0, y0, x1, y1);
    let back = line_path(x1, y1, x0, y0);
    assert(line_steps(x1, y1, x0, y0) == s);
    lemma_trace_pixels(cv, there, pixel);
    lemma_trace_pixels(cv, back, pixel);
    assert forall|at: int| 0 <= at < cv.pixels.len() implies passes(cv, there, at) == passes(
        cv,
        back,
        at,
    ) by {
        if passes(cv, there, at) {
            let k = choose|k: int|
                0 <= k < there.len() && cv.contains((#[trigger] there[k]).0, there[k].1)
                    && cv.offset(there[k].0, there[k].1) == at;
            lemma_line_reversed(x0, y0, x1, y1, k);
            assert(back[s - k] == there[k]);
        }
        if passes(cv, back, at) {
            let j = choose|j: int|
                0 <= j < back.len() && cv.contains((#[trigger] back[j]).0, back[j].1) && cv.offset(
                    back[j].0,
                    back[j].1,
                ) == at;
            lemma_line_reversed(x0, y0, x1, y1, s - j);
            assert(there[s - j] == back[j]);
        }
    }
    assert(cv.trace(back, pixel).pixels =~= cv.trace(there, pixel).pixels);
}

} // verus!
