//! The character frame buffer and the wireframe compositor.
//!
//! A frame is a grid of character cells, one row per vector entry. The
//! compositor rasterizes each cube edge between its two projected corners
//! and marks the covered cells, silently dropping any pixel that falls
//! outside the grid.

use vstd::prelude::*;
use vstd::seq_lib::lemma_seq_contains_after_push;
use crate::raster::{bresenham_line, line_pixels, pixels_view};
use crate::project::{project_vertices, projected_corners};
use crate::model::{cube_edges, cube_edges_spec};

verus! {

/// A well-formed frame: `h` rows of `w` cells each.
pub open spec fn frame_wf(f: Seq<Vec<char>>, w: int, h: int) -> bool {
    f.len() == h && forall|r: int| 0 <= r < h ==> (#[trigger] f[r])@.len() == w
}

/// Whether pixel `(x, y)` lies on the rasterized line of some edge of the
/// wireframe, where each edge joins two corners by index.
pub open spec fn on_wireframe(
    corners: Seq<(usize, usize)>,
    edges: Seq<(usize, usize)>,
    x: int,
    y: int,
) -> bool {
    exists|k: int|
        0 <= k < edges.len() && edge_pixels(corners, #[trigger] edges[k]).contains((x, y))
}

/// The pixels of one edge: the line between its two corners.
pub open spec fn edge_pixels(corners: Seq<(usize, usize)>, e: (usize, usize)) -> Seq<(int, int)> {
    line_pixels(
        corners[e.0 as int].0 as int,
        corners[e.0 as int].1 as int,
        corners[e.1 as int].0 as int,
        corners[e.1 as int].1 as int,
    )
}

/// A row of `width` background cells.
fn blank_row(width: usize) -> (row: Vec<char>)
    ensures
        row@.len() == width,
        forall|c: int| 0 <= c < width ==> row@[c] == ' ',
{
    let mut row: Vec<char> = Vec::new();
    let mut c: usize = 0;
    while c < width
        invariant
            c <= width,
            row@.len() == c,
            forall|k: int| 0 <= k < c ==> row@[k] == ' ',
        decreases width - c,
    {
        row.push(' ');
        c = c + 1;
    }
    row
}

/// Allocates a `width` by `height` grid filled with the background
/// character.
pub fn new_frame(width: usize, height: usize) -> (f: Vec<Vec<char>>)
    ensures
        frame_wf(f@, width as int, height as int),
        forall|r: int, c: int|
            0 <= r < height && 0 <= c < width ==> (#[trigger] f@[r]@[c]) == ' ',
{
    let mut f: Vec<Vec<char>> = Vec::new();
    let mut r: usize = 0;
    while r < height
        invariant
            r <= height,
            f@.len() == r,
            forall|k: int| 0 <= k < r ==> (#[trigger] f@[k])@.len() == width,
            forall|k: int, c: int| 0 <= k < r && 0 <= c < width ==> (#[trigger] f@[k]@[c]) == ' ',
        decreases height - r,
    {
        f.push(blank_row(width));
        r = r + 1;
    }
    f
}

/// Marks cell `(x, y)` as drawn if it lies inside the grid; a cell
/// outside the grid is silently dropped. No other cell changes.
pub fn plot(f: &mut Vec<Vec<char>>, x: usize, y: usize)
    ensures
        final(f)@.len() == old(f)@.len(),
        forall|r: int|
            0 <= r < old(f)@.len() ==> (#[trigger] final(f)@[r])@.len() == old(f)@[r]@.len(),
        forall|r: int, c: int|
            0 <= r < old(f)@.len() && 0 <= c < old(f)@[r]@.len() ==> (
            #[trigger] final(f)@[r]@[c]) == if r == y && c == x {
                '#'
            } else {
                old(f)@[r]@[c]
            },
{
    if y < f.len() {
        if x < f[y].len() {
            f[y][x] = '#';
        }
    }
}

/// Rasterizes one line segment into the frame: every cell covered by the
/// line and lying inside the grid becomes the drawn character, all other
/// cells keep their value.
pub fn draw_edge(f: &mut Vec<Vec<char>>, x0: i32, y0: i32, x1: i32, y1: i32)
    requires
        0 <= x0,
        0 <= y0,
        0 <= x1,
        0 <= y1,
    ensures
        final(f)@.len() == old(f)@.len(),
        forall|r: int|
            0 <= r < old(f)@.len() ==> (#[trigger] final(f)@[r])@.len() == old(f)@[r]@.len(),
        forall|r: int, c: int|
            0 <= r < old(f)@.len() && 0 <= c < old(f)@[r]@.len() ==> (
            #[trigger] final(f)@[r]@[c]) == if line_pixels(x0 as int, y0 as int, x1 as int, y1 as int).contains(
                (c, r),
            ) {
                '#'
            } else {
                old(f)@[r]@[c]
            },
{
    let pts = bresenham_line(x0, y0, x1, y1);
    let ghost lp = line_pixels(x0 as int, y0 as int, x1 as int, y1 as int);
    let mut k: usize = 0;
    while k < pts.len()
        invariant
            k <= pts@.len(),
            pixels_view(pts@) == lp,
            f@.len() == old(f)@.len(),
            forall|r: int|
                0 <= r < old(f)@.len() ==> (#[trigger] f@[r])@.len() == old(f)@[r]@.len(),
            forall|r: int, c: int|
                0 <= r < old(f)@.len() && 0 <= c < old(f)@[r]@.len() ==> (#[trigger] f@[r]@[c])
                    == if lp.subrange(0, k as int).contains((c, r)) {
                    '#'
                } else {
                    old(f)@[r]@[c]
                },
        decreases pts@.len() - k,
    {
        let ghost pre = f@;
        let p = pts[k];
        plot(f, p.0, p.1);
        proof {
            let sub0 = lp.subrange(0, k as int);
            let sub1 = lp.subrange(0, k as int + 1);
            assert(lp[k as int] == (p.0 as int, p.1 as int));
            assert(sub1 =~= sub0.push(lp[k as int]));
            assert forall|q: (int, int)| #[trigger]
                sub1.contains(q) <==> (sub0.contains(q) || q == lp[k as int]) by {
                lemma_seq_contains_after_push(sub0, lp[k as int], q);
            }
        }
        k = k + 1;
    }
    proof {
        assert(lp.subrange(0, pts@.len() as int) =~= lp);
    }
}

/// Composites a whole wireframe: allocates a fresh `width` by `height`
/// grid and rasterizes every edge between its projected corners. A cell
/// is drawn exactly when some edge's line covers it; every other cell is
/// the background character.
pub fn render_wireframe(
    corners: &Vec<(usize, usize)>,
    edges: &Vec<(usize, usize)>,
    width: usize,
    height: usize,
) -> (f: Vec<Vec<char>>)
    requires
        forall|k: int|
            0 <= k < edges@.len() ==> (#[trigger] edges@[k]).0 < corners@.len()
                && edges@[k].1 < corners@.len(),
        forall|k: int|
            0 <= k < corners@.len() ==> (#[trigger] corners@[k]).0 <= 0x7fff_ffff
                && corners@[k].1 <= 0x7fff_ffff,
    ensures
        frame_wf(f@, width as int, height as int),
        forall|r: int, c: int|
            0 <= r < height && 0 <= c < width ==> (#[trigger] f@[r]@[c]) == if on_wireframe(
                corners@,
                edges@,
                c,
                r,
            ) {
                '#'
            } else {
                ' '
            },
{
    let mut f = new_frame(width, height);
    let mut k: usize = 0;
    while k < edges.len()
        invariant
            k <= edges@.len(),
            forall|e: int|
                0 <= e < edges@.len() ==> (#[trigger] edges@[e]).0 < corners@.len()
                    && edges@[e].1 < corners@.len(),
            forall|e: int|
                0 <= e < corners@.len() ==> (#[trigger] corners@[e]).0 <= 0x7fff_ffff
                    && corners@[e].1 <= 0x7fff_ffff,
            frame_wf(f@, width as int, height as int),
            forall|r: int, c: int|
                0 <= r < height && 0 <= c < width ==> (#[trigger] f@[r]@[c]) == if (exists|e: int|
                    0 <= e < k && edge_pixels(corners@, #[trigger] edges@[e]).contains((c, r))) {
                    '#'
                } else {
                    ' '
                },
        decreases edges@.len() - k,
    {
        let e = edges[k];
        let p0 = corners[e.0];
        let p1 = corners[e.1];
        let ghost pre = f@;
        draw_edge(&mut f, p0.0 as i32, p0.1 as i32, p1.0 as i32, p1.1 as i32);
        proof {
            assert forall|r: int, c: int| 0 <= r < height && 0 <= c < width implies (#[trigger] f@[r]@[c])
                == if (exists|e2: int|
                0 <= e2 < k + 1 && edge_pixels(corners@, #[trigger] edges@[e2]).contains(
                    (c, r),
                )) {
                '#'
            } else {
                ' '
            } by {
                if f@[r]@[c] == '#' {
                    if edge_pixels(corners@, edges@[k as int]).contains((c, r)) {
                        assert(0 <= (k as int) && (k as int) < k + 1 && edge_pixels(
                            corners@,
                            edges@[k as int],
                        ).contains((c, r)));
                    } else {
                        let w = choose|e2: int|
                            0 <= e2 < k && edge_pixels(corners@, #[trigger] edges@[e2]).contains(
                                (c, r),
                            );
                        assert(0 <= w < k + 1 && edge_pixels(corners@, edges@[w]).contains((c, r)));
                    }
                }
            }
        }
        k = k + 1;
    }
    f
}

/// Renders one frame of the cube: projects the 8 vertices, given in
/// thousandths of a unit, onto the frame and rasterizes the 12 edges
/// between them. A cell is drawn exactly when some edge's line covers
/// it.
pub fn render_cube(verts: &Vec<(i64, i64, i64)>, width: usize, height: usize) -> (f: Vec<
    Vec<char>,
>)
    requires
        verts@.len() == 8,
        forall|k: int|
            0 <= k < verts@.len() ==> -1_000_000_000 <= (#[trigger] verts@[k]).0
                <= 1_000_000_000 && -1_000_000_000 <= verts@[k].1 <= 1_000_000_000,
        width <= 1_000_000,
        height <= 1_000_000,
    ensures
        frame_wf(f@, width as int, height as int),
        forall|r: int, c: int|
            0 <= r < height && 0 <= c < width ==> (#[trigger] f@[r]@[c]) == if on_wireframe(
                projected_corners(verts@, width as int, height as int),
                cube_edges_spec(),
                c,
                r,
            ) {
                '#'
            } else {
                ' '
            },
{
    let corners = project_vertices(verts, width, height);
    let edges = cube_edges();
    render_wireframe(&corners, &edges, width, height)
}

} // verus!
