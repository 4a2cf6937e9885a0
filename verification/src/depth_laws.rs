//! What holds of the depth test: what a position holds after a sequence of
//! fragments, and when the order of two sequences does not matter.

use vstd::prelude::*;
use crate::raster::{fragments, lemma_draw_wf, Canvas, Fragment, Vertex};
use crate::tga::{lemma_offset_in_range, RgbaColor, TgaImage, TgaPixel};

verus! {

/// What one position of a canvas holds: its pixel and its depth.
pub ghost struct Cell {
    pub pixel: TgaPixel,
    pub depth: Option<int>,
}

/// Whether a depth of `z` is painted over what the cell holds.
pub open spec fn below(depth: Option<int>, z: int) -> bool {
    match depth {
        Some(d) => d < z,
        None => true,
    }
}

/// Whether a fragment lies on the canvas and is stored at `at`.
pub open spec fn lands(cv: Canvas, f: Fragment, at: int) -> bool {
    cv.contains(f.x, f.y) && cv.offset(f.x, f.y) == at
}

/// The cell of a canvas at `at`.
pub open spec fn cell(cv: Canvas, at: int) -> Cell {
    Cell { pixel: cv.pixels[at], depth: cv.depth[at] }
}

/// What a position holds once a fragment was painted there.
pub open spec fn written(f: Fragment) -> Cell {
    Cell { pixel: TgaPixel::of(f.color), depth: Some(f.depth) }
}

/// What the position `at` holds after a sequence of fragments: each
/// fragment that lands there and is deeper than what is there replaces it.
pub open spec fn settle(cv: Canvas, c: Cell, fs: Seq<Fragment>, at: int) -> Cell
    decreases fs.len(),
{
    if fs.len() == 0 {
        c
    } else {
        let before = settle(cv, c, fs.drop_last(), at);
        if lands(cv, fs.last(), at) && below(before.depth, fs.last().depth) {
            written(fs.last())
        } else {
            before
        }
    }
}

/// Two positions of a canvas that are stored at the same place are the
/// same position.
pub proof fn lemma_offset_injective(cv: Canvas, x: int, y: int, u: int, v: int)
    requires
        cv.contains(x, y),
        cv.contains(u, v),
        cv.offset(x, y) == cv.offset(u, v),
    ensures
        x == u,
        y == v,
{
    assert(y == v) by (nonlinear_arith)
        requires
            0 <= x < cv.width,
            0 <= u < cv.width,
            x + cv.width * y == u + cv.width * v,
    ;
}

/// Painting a sequence of fragments settles every position by itself.
pub proof fn lemma_draw_settles(cv: Canvas, fs: Seq<Fragment>, at: int)
    requires
        cv.wf(),
        0 <= at < cv.pixels.len(),
    ensures
        cell(cv.draw(fs), at) == settle(cv, cell(cv, at), fs, at),
    decreases fs.len(),
{
    if fs.len() > 0 {
        let front = fs.drop_last();
        let f = fs.last();
        lemma_draw_settles(cv, front, at);
        lemma_draw_wf(cv, front);
        let before = cv.draw(front);
        if before.contains(f.x, f.y) {
            lemma_offset_in_range(before.width, before.height, f.x, f.y);
        }
    }
}

/// Fragments that do not land at a position, or are not deeper than what
/// it holds, leave it as it is.
pub proof fn lemma_settle_hidden(cv: Canvas, c: Cell, fs: Seq<Fragment>, at: int)
    requires
        forall|i: int| 0 <= i < fs.len() && lands(cv, #[trigger] fs[i], at) ==> !below(c.depth, fs[i].depth),
    ensures
        settle(cv, c, fs, at) == c,
    decreases fs.len(),
{
    if fs.len() > 0 {
        let front = fs.drop_last();
        assert forall|i: int| 0 <= i < front.len() && lands(cv, #[trigger] front[i], at) implies !below(
            c.depth,
            front[i].depth,
        ) by {
            assert(front[i] == fs[i]);
        }
        lemma_settle_hidden(cv, c, front, at);
        assert(fs.last() == fs[fs.len() - 1]);
    }
}

/// After a sequence of fragments a position is at least as deep as before,
/// and at least as deep as every fragment that landed there; and it holds
/// either what it held or the color and depth of one of those fragments.
pub proof fn lemma_settle_depth(cv: Canvas, c: Cell, fs: Seq<Fragment>, at: int)
    ensures
        forall|z: int| !below(c.depth, z) ==> !below(settle(cv, c, fs, at).depth, z),
        forall|i: int|
            0 <= i < fs.len() && lands(cv, #[trigger] fs[i], at) ==> !below(
                settle(cv, c, fs, at).depth,
                fs[i].depth,
            ),
        settle(cv, c, fs, at) == c || exists|i: int|
            0 <= i < fs.len() && lands(cv, #[trigger] fs[i], at) && settle(cv, c, fs, at)
                == written(fs[i]),
    decreases fs.len(),
{
    if fs.len() > 0 {
        let front = fs.drop_last();
        let f = fs.last();
        lemma_settle_depth(cv, c, front, at);
        let before = settle(cv, c, front, at);
        let after = settle(cv, c, fs, at);
        assert forall|i: int| 0 <= i < fs.len() && lands(cv, #[trigger] fs[i], at) implies !below(
            after.depth,
            fs[i].depth,
        ) by {
            if i < front.len() {
                assert(front[i] == fs[i]);
            }
        }
        if after != c {
            if lands(cv, f, at) && below(before.depth, f.depth) {
                assert(fs[fs.len() - 1] == f);
            } else {
                let i = choose|i: int|
                    0 <= i < front.len() && lands(cv, #[trigger] front[i], at) && before
                        == written(front[i]);
                assert(fs[i] == front[i]);
            }
        }
    }
}

/// Where every fragment that lands at a position is deeper than either of
/// two cells, and at least one fragment lands there, both cells settle to
/// the same.
pub proof fn lemma_settle_covers(cv: Canvas, c: Cell, d: Cell, fs: Seq<Fragment>, at: int)
    requires
        forall|i: int|
            0 <= i < fs.len() && lands(cv, #[trigger] fs[i], at) ==> below(c.depth, fs[i].depth)
                && below(d.depth, fs[i].depth),
        exists|i: int| 0 <= i < fs.len() && lands(cv, #[trigger] fs[i], at),
    ensures
        settle(cv, c, fs, at) == settle(cv, d, fs, at),
    decreases fs.len(),
{
    let front = fs.drop_last();
    let f = fs.last();
    assert(fs[fs.len() - 1] == f);
    assert forall|i: int| 0 <= i < front.len() && lands(cv, #[trigger] front[i], at) implies below(
        c.depth,
        front[i].depth,
    ) && below(d.depth, front[i].depth) by {
        assert(front[i] == fs[i]);
    }
    if exists|i: int| 0 <= i < front.len() && lands(cv, #[trigger] front[i], at) {
        lemma_settle_covers(cv, c, d, front, at);
    } else {
        assert forall|i: int| 0 <= i < front.len() && lands(cv, #[trigger] front[i], at) implies !below(
            c.depth,
            front[i].depth,
        ) && !below(d.depth, front[i].depth) by {}
        lemma_settle_hidden(cv, c, front, at);
        lemma_settle_hidden(cv, d, front, at);
        let w = choose|i: int| 0 <= i < fs.len() && lands(cv, #[trigger] fs[i], at);
        if w < front.len() {
            assert(front[w] == fs[w]);
        }
    }
}

/// Whether fragments of both sequences land at `at`.
pub open spec fn shared(cv: Canvas, first: Seq<Fragment>, second: Seq<Fragment>, at: int) -> bool {
    &&& exists|i: int| 0 <= i < first.len() && lands(cv, #[trigger] first[i], at)
    &&& exists|j: int| 0 <= j < second.len() && lands(cv, #[trigger] second[j], at)
}

/// Whether, wherever a fragment of `first` and one of `second` fall on the
/// same position of the canvas, the one of `second` is the deeper.
pub open spec fn deeper(cv: Canvas, first: Seq<Fragment>, second: Seq<Fragment>) -> bool {
    forall|i: int, j: int|
        0 <= i < first.len() && 0 <= j < second.len() && cv.contains(
            (#[trigger] first[i]).x,
            first[i].y,
        ) && first[i].x == (#[trigger] second[j]).x && first[i].y == second[j].y ==> first[i].depth
            < second[j].depth
}

/// One position under two sequences of fragments of which the second is
/// the deeper: in either order the position ends as the order `first`,
/// `second` leaves it, and where both land, as `second` alone leaves it.
proof fn lemma_cell_order(cv: Canvas, c: Cell, first: Seq<Fragment>, second: Seq<Fragment>, at: int)
    requires
        cv.wf(),
        deeper(cv, first, second),
    ensures
        settle(cv, settle(cv, c, first, at), second, at) == settle(
            cv,
            settle(cv, c, second, at),
            first,
            at,
        ),
        shared(cv, first, second, at) ==> settle(cv, settle(cv, c, first, at), second, at)
            == settle(cv, c, second, at),
{
    let some_first = exists|i: int| 0 <= i < first.len() && lands(cv, #[trigger] first[i], at);
    let some_second = exists|j: int| 0 <= j < second.len() && lands(cv, #[trigger] second[j], at);
    if !some_second {
        lemma_settle_hidden(cv, c, second, at);
        lemma_settle_hidden(cv, settle(cv, c, first, at), second, at);
    } else if !some_first {
        lemma_settle_hidden(cv, c, first, at);
        lemma_settle_hidden(cv, settle(cv, c, second, at), first, at);
    } else {
        assert forall|i: int, j: int|
            0 <= i < first.len() && 0 <= j < second.len() && lands(cv, #[trigger] first[i], at)
                && lands(cv, #[trigger] second[j], at) implies first[i].depth < second[j].depth by {
            lemma_offset_injective(cv, first[i].x, first[i].y, second[j].x, second[j].y);
        }
        let after_first = settle(cv, c, first, at);
        let after_second = settle(cv, c, second, at);
        lemma_settle_depth(cv, c, first, at);
        lemma_settle_depth(cv, c, second, at);
        // After the deeper sequence nothing of the other is painted.
        let j0 = choose|j: int| 0 <= j < second.len() && lands(cv, #[trigger] second[j], at);
        assert forall|i: int| 0 <= i < first.len() && lands(cv, #[trigger] first[i], at) implies !below(
            after_second.depth,
            first[i].depth,
        ) by {
            assert(!below(after_second.depth, second[j0].depth));
            assert(first[i].depth < second[j0].depth);
        }
        lemma_settle_hidden(cv, after_second, first, at);
        // Before it, the other sequence either changed nothing or stayed
        // below every fragment of the deeper one.
        if exists|j: int|
            0 <= j < second.len() && lands(cv, #[trigger] second[j], at) && !below(
                c.depth,
                second[j].depth,
            ) {
            let j1 = choose|j: int|
                0 <= j < second.len() && lands(cv, #[trigger] second[j], at) && !below(
                    c.depth,
                    second[j].depth,
                );
            assert forall|i: int| 0 <= i < first.len() && lands(cv, #[trigger] first[i], at) implies !below(
                c.depth,
                first[i].depth,
            ) by {
                assert(first[i].depth < second[j1].depth);
            }
            lemma_settle_hidden(cv, c, first, at);
        } else {
            assert forall|j: int| 0 <= j < second.len() && lands(cv, #[trigger] second[j], at) implies below(
                c.depth,
                second[j].depth,
            ) && below(after_first.depth, second[j].depth) by {
                if after_first != c {
                    let i = choose|i: int|
                        0 <= i < first.len() && lands(cv, #[trigger] first[i], at) && after_first
                            == written(first[i]);
                    assert(first[i].depth < second[j].depth);
                }
            }
            lemma_settle_covers(cv, after_first, c, second, at);
        }
    }
}

/// Where, at every position on which fragments of two sequences fall, those
/// of `second` are deeper than those of `first`, painting the two sequences
/// gives the same canvas in either order; and every position on which both
/// fall ends as `second` alone would leave it.
pub proof fn lemma_depth_order(cv: Canvas, first: Seq<Fragment>, second: Seq<Fragment>)
    requires
        cv.wf(),
        deeper(cv, first, second),
    ensures
        cv.draw(first).draw(second) == cv.draw(second).draw(first),
        forall|at: int|
            0 <= at < cv.pixels.len() && shared(cv, first, second, at) ==> cell(
                #[trigger] cv.draw(first).draw(second),
                at,
            ) == cell(cv.draw(second), at),
{
    let one = cv.draw(first).draw(second);
    let other = cv.draw(second).draw(first);
    lemma_draw_wf(cv, first);
    lemma_draw_wf(cv, second);
    lemma_draw_wf(cv.draw(first), second);
    lemma_draw_wf(cv.draw(second), first);
    assert forall|at: int| 0 <= at < cv.pixels.len() implies cell(one, at) == cell(other, at) && (
    shared(cv, first, second, at) ==> cell(one, at) == cell(cv.draw(second), at)) by {
        lemma_draw_settles(cv, first, at);
        lemma_draw_settles(cv, second, at);
        lemma_draw_settles(cv.draw(first), second, at);
        lemma_draw_settles(cv.draw(second), first, at);
        lemma_settle_same_size(cv, cv.draw(first), cell(cv.draw(first), at), second, at);
        lemma_settle_same_size(cv, cv.draw(second), cell(cv.draw(second), at), first, at);
        lemma_cell_order(cv, cell(cv, at), first, second, at);
    }
    assert(one.pixels =~= other.pixels) by {
        assert forall|at: int| 0 <= at < one.pixels.len() implies one.pixels[at] == other.pixels[at] by {
            assert(cell(one, at) == cell(other, at));
        }
    }
    assert(one.depth =~= other.depth) by {
        assert forall|at: int| 0 <= at < one.depth.len() implies one.depth[at] == other.depth[at] by {
            assert(cell(one, at) == cell(other, at));
        }
    }
}

/// Settling depends on a canvas only through its size.
pub proof fn lemma_settle_same_size(cv: Canvas, other: Canvas, c: Cell, fs: Seq<Fragment>, at: int)
    requires
        cv.width == other.width,
        cv.height == other.height,
    ensures
        settle(cv, c, fs, at) == settle(other, c, fs, at),
    decreases fs.len(),
{
    if fs.len() > 0 {
        lemma_settle_same_size(cv, other, c, fs.drop_last(), at);
    }
}

/// Two triangles of which the second is the deeper wherever both fall on
/// the same pixel give the same canvas in either order.
pub proof fn lemma_triangles_commute(
    cv: Canvas,
    diffuse: Option<TgaImage>,
    flat: RgbaColor,
    a0: Vertex,
    a1: Vertex,
    a2: Vertex,
    b0: Vertex,
    b1: Vertex,
    b2: Vertex,
)
    requires
        cv.wf(),
        deeper(cv, fragments(diffuse, flat, a0, a1, a2), fragments(diffuse, flat, b0, b1, b2)),
    ensures
        cv.draw(fragments(diffuse, flat, a0, a1, a2)).draw(fragments(diffuse, flat, b0, b1, b2))
            == cv.draw(fragments(diffuse, flat, b0, b1, b2)).draw(
            fragments(diffuse, flat, a0, a1, a2),
        ),
{
    lemma_depth_order(cv, fragments(diffuse, flat, a0, a1, a2), fragments(diffuse, flat, b0, b1, b2));
}

} // verus!
