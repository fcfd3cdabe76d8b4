//! Orthographic projection of cube vertices onto screen coordinates.
//!
//! Vertex coordinates arrive in thousandths of a unit. A vertex `(x, y)`
//! maps to `x * scale * 2/5 + width/2` columns and
//! `y * scale * 2/5 * 1/2 + height/2` rows, where `scale` is the smaller
//! frame dimension, `2/5` is the zoom factor and `1/2` compensates for
//! the tall shape of terminal character cells. Depth is discarded. The
//! whole computation is integer arithmetic on the thousandths; the result
//! is truncated toward negative infinity, floored at zero, and capped so
//! it always fits a screen coordinate. A capped value lies far outside
//! any real frame and is clipped by the compositor like any other
//! off-frame pixel.

use vstd::prelude::*;

verus! {

/// The projection's scale: the smaller of the two frame dimensions.
pub open spec fn scale_of(w: int, h: int) -> int {
    if w > h {
        h
    } else {
        w
    }
}

/// Thousandths to a screen coordinate: floored at zero and capped at the
/// largest supported coordinate.
pub open spec fn to_coord(num: int) -> int {
    if num < 0 {
        0
    } else if num / 1_000_000 > 0x7fff_ffff {
        0x7fff_ffff
    } else {
        num / 1_000_000
    }
}

/// The screen column of a vertex with `xm` thousandths in x.
pub open spec fn project_x_spec(xm: int, w: int, h: int) -> int {
    to_coord(xm * scale_of(w, h) * 400 + w * 500_000)
}

/// The screen row of a vertex with `ym` thousandths in y.
pub open spec fn project_y_spec(ym: int, w: int, h: int) -> int {
    to_coord(ym * scale_of(w, h) * 200 + h * 500_000)
}

/// Projects one vertex, given in thousandths of a unit, onto integer
/// screen coordinates for a `width` by `height` frame.
pub fn project_vertex(xm: i64, ym: i64, width: usize, height: usize) -> (p: (usize, usize))
    requires
        -1_000_000_000 <= xm <= 1_000_000_000,
        -1_000_000_000 <= ym <= 1_000_000_000,
        width <= 1_000_000,
        height <= 1_000_000,
    ensures
        p.0 == project_x_spec(xm as int, width as int, height as int),
        p.1 == project_y_spec(ym as int, width as int, height as int),
        p.0 <= 0x7fff_ffff,
        p.1 <= 0x7fff_ffff,
{
    let scale: i64 = if width > height {
        height as i64
    } else {
        width as i64
    };
    proof {
        assert(-1_000_000_000_000_000 <= (xm as int) * (scale as int) <= 1_000_000_000_000_000
            && -1_000_000_000_000_000 <= (ym as int) * (scale as int)
            <= 1_000_000_000_000_000) by (nonlinear_arith)
            requires
                -1_000_000_000 <= xm as int <= 1_000_000_000,
                -1_000_000_000 <= ym as int <= 1_000_000_000,
                0 <= scale as int <= 1_000_000,
        ;
    }
    let numx: i64 = xm * scale * 400 + (width as i64) * 500_000;
    let numy: i64 = ym * scale * 200 + (height as i64) * 500_000;
    let px: i64 = if numx < 0 {
        0
    } else if numx / 1_000_000 > 0x7fff_ffff {
        0x7fff_ffff
    } else {
        numx / 1_000_000
    };
    let py: i64 = if numy < 0 {
        0
    } else if numy / 1_000_000 > 0x7fff_ffff {
        0x7fff_ffff
    } else {
        numy / 1_000_000
    };
    (px as usize, py as usize)
}

/// The projected corners of a whole vertex list.
pub open spec fn projected_corners(verts: Seq<(i64, i64, i64)>, w: int, h: int) -> Seq<
    (usize, usize),
> {
    Seq::new(
        verts.len(),
        |k: int|
            (
                project_x_spec(verts[k].0 as int, w, h) as usize,
                project_y_spec(verts[k].1 as int, w, h) as usize,
            ),
    )
}

/// A screen coordinate is never negative and never beyond the cap.
pub proof fn lemma_coord_bounds(num: int)
    ensures
        0 <= to_coord(num) <= 0x7fff_ffff,
{
    if num >= 0 {
        assert(num / 1_000_000 >= 0) by (nonlinear_arith)
            requires
                num >= 0,
        ;
    }
}

/// Projects every vertex of a list, in order.
pub fn project_vertices(verts: &Vec<(i64, i64, i64)>, width: usize, height: usize) -> (corners:
    Vec<(usize, usize)>)
    requires
        forall|k: int|
            0 <= k < verts@.len() ==> -1_000_000_000 <= (#[trigger] verts@[k]).0
                <= 1_000_000_000 && -1_000_000_000 <= verts@[k].1 <= 1_000_000_000,
        width <= 1_000_000,
        height <= 1_000_000,
    ensures
        corners@ == projected_corners(verts@, width as int, height as int),
        forall|k: int|
            0 <= k < corners@.len() ==> (#[trigger] corners@[k]).0 <= 0x7fff_ffff
                && corners@[k].1 <= 0x7fff_ffff,
{
    let mut corners: Vec<(usize, usize)> = Vec::new();
    let mut k: usize = 0;
    while k < verts.len()
        invariant
            k <= verts@.len(),
            width <= 1_000_000,
            height <= 1_000_000,
            forall|j: int|
                0 <= j < verts@.len() ==> -1_000_000_000 <= (#[trigger] verts@[j]).0
                    <= 1_000_000_000 && -1_000_000_000 <= verts@[j].1 <= 1_000_000_000,
            corners@.len() == k,
            forall|j: int|
                0 <= j < k ==> (#[trigger] corners@[j]) == projected_corners(
                    verts@,
                    width as int,
                    height as int,
                )[j],
            forall|j: int|
                0 <= j < k ==> (#[trigger] corners@[j]).0 <= 0x7fff_ffff && corners@[j].1
                    <= 0x7fff_ffff,
        decreases verts@.len() - k,
    {
        let v = verts[k];
        let p = project_vertex(v.0, v.1, width, height);
        proof {
            lemma_coord_bounds(
                (verts@[k as int].0 as int) * scale_of(width as int, height as int) * 400 + (
                width as int) * 500_000,
            );
            lemma_coord_bounds(
                (verts@[k as int].1 as int) * scale_of(width as int, height as int) * 200 + (
                height as int) * 500_000,
            );
        }
        corners.push(p);
        k = k + 1;
    }
    proof {
        assert(corners@ =~= projected_corners(verts@, width as int, height as int));
    }
    corners
}

/// At the nominal 80 by 40 frame, no vertex of the unit cube leaves the
/// frame: every coordinate of a rotated unit-cube vertex stays within
/// 1733 thousandths (the cube's circumradius), and such a vertex projects
/// strictly inside the 80-column, 40-row grid.
pub proof fn lemma_project_in_bounds(xm: int, ym: int)
    requires
        -1733 <= xm <= 1733,
        -1733 <= ym <= 1733,
    ensures
        0 <= project_x_spec(xm, 80, 40) < 80,
        0 <= project_y_spec(ym, 80, 40) < 40,
{
    let numx = xm * 40 * 400 + 80 * 500_000;
    let numy = ym * 40 * 200 + 40 * 500_000;
    assert(12_272_000 <= numx <= 67_728_000);
    assert(6_136_000 <= numy <= 33_864_000);
    assert(numx / 1_000_000 < 80);
    assert(numy / 1_000_000 < 40);
}

} // verus!
