//! Line rasterization with integer-only arithmetic.
//!
//! `bresenham_line` walks from one endpoint to the other, steered by an
//! error accumulator, and returns every pixel of the discrete line. The
//! walk always starts from the lexicographically smaller endpoint, so the
//! pixel set of a segment does not depend on the direction it is given in.

use vstd::prelude::*;

verus! {

/// The absolute distance between two integers.
pub open spec fn span(a: int, b: int) -> int {
    if b >= a {
        b - a
    } else {
        a - b
    }
}

/// Whether `v` lies between `a` and `b`, inclusive.
pub open spec fn betw(a: int, b: int, v: int) -> bool {
    (a <= v && v <= b) || (b <= v && v <= a)
}

/// Lexicographic order on screen points: the walk always starts at the
/// smaller endpoint.
pub open spec fn lex_le(x0: int, y0: int, x1: int, y1: int) -> bool {
    x0 < x1 || (x0 == x1 && y0 <= y1)
}

/// The step direction along one axis, from `a` toward `b`.
pub open spec fn dir(a: int, b: int) -> int {
    if a < b {
        1int
    } else {
        -1int
    }
}

/// One step of the error-steered walk: from position `(x, y)` with error
/// `err`, the next position and error. `dx` and `dy` are the absolute
/// spans of the segment, `sx` and `sy` the step directions.
pub open spec fn bstep(x: int, y: int, sx: int, sy: int, dx: int, dy: int, err: int) -> (
    int,
    int,
    int,
) {
    let e2 = 2 * err;
    (
        if e2 > -dy {
            x + sx
        } else {
            x
        },
        if e2 < dx {
            y + sy
        } else {
            y
        },
        err + (if e2 > -dy {
            -dy
        } else {
            0int
        }) + (if e2 < dx {
            dx
        } else {
            0int
        }),
    )
}

/// The pixels the walk emits from `(x, y)` until it reaches `(tx, ty)`,
/// inclusive. On a state the walk could never reach, where a step would
/// fail to close in on the target, the sequence is cut short so that the
/// definition stays well-founded; every reachable state takes the
/// recursive branch.
pub open spec fn bres_seq(
    x: int,
    y: int,
    tx: int,
    ty: int,
    sx: int,
    sy: int,
    dx: int,
    dy: int,
    err: int,
) -> Seq<(int, int)>
    decreases span(x, tx) + span(y, ty),
{
    if x == tx && y == ty {
        seq![(x, y)]
    } else {
        let next = bstep(x, y, sx, sy, dx, dy, err);
        if span(next.0, tx) + span(next.1, ty) < span(x, tx) + span(y, ty) {
            seq![(x, y)] + bres_seq(next.0, next.1, tx, ty, sx, sy, dx, dy, next.2)
        } else {
            seq![(x, y)]
        }
    }
}

/// The discrete line from `(x0, y0)` to `(x1, y1)`, walked in that
/// direction.
pub open spec fn line_pixels_from(x0: int, y0: int, x1: int, y1: int) -> Seq<(int, int)> {
    bres_seq(
        x0,
        y0,
        x1,
        y1,
        dir(x0, x1),
        dir(y0, y1),
        span(x0, x1),
        span(y0, y1),
        span(x0, x1) - span(y0, y1),
    )
}

/// The discrete line between two screen points. The walk starts at the
/// lexicographically smaller endpoint, so exchanging the endpoints gives
/// the same sequence.
pub open spec fn line_pixels(x0: int, y0: int, x1: int, y1: int) -> Seq<(int, int)> {
    if lex_le(x0, y0, x1, y1) {
        line_pixels_from(x0, y0, x1, y1)
    } else {
        line_pixels_from(x1, y1, x0, y0)
    }
}

/// The integer view of a pixel list.
pub open spec fn pixels_view(s: Seq<(usize, usize)>) -> Seq<(int, int)> {
    s.map_values(|p: (usize, usize)| (p.0 as int, p.1 as int))
}

/// A state the walk from `(x0, y0)` toward `(tx, ty)` can actually reach:
/// the position lies between start and target on both axes, and the error
/// term carries the exact balance of steps taken so far.
spec fn st_ok(x0: int, y0: int, tx: int, ty: int, x: int, y: int, err: int) -> bool {
    &&& betw(x0, tx, x)
    &&& betw(y0, ty, y)
    &&& err == span(x0, tx) - span(y0, ty) + span(y0, y) * span(x0, tx) - span(x0, x) * span(
        y0,
        ty,
    )
}

/// On a reachable, unfinished state the walk makes a step: it moves at
/// least one axis toward the target, never overshoots, keeps the error
/// balance, and the emitted sequence unfolds by exactly one pixel.
proof fn lemma_step(x0: int, y0: int, tx: int, ty: int, x: int, y: int, err: int)
    requires
        st_ok(x0, y0, tx, ty, x, y, err),
        !(x == tx && y == ty),
    ensures
        ({
            let n = bstep(x, y, dir(x0, tx), dir(y0, ty), span(x0, tx), span(y0, ty), err);
            &&& betw(x, tx, n.0)
            &&& betw(y, ty, n.1)
            &&& span(x, n.0) <= 1
            &&& span(y, n.1) <= 1
            &&& span(n.0, tx) + span(n.1, ty) < span(x, tx) + span(y, ty)
            &&& st_ok(x0, y0, tx, ty, n.0, n.1, n.2)
            &&& bres_seq(x, y, tx, ty, dir(x0, tx), dir(y0, ty), span(x0, tx), span(y0, ty), err)
                == seq![(x, y)] + bres_seq(
                n.0,
                n.1,
                tx,
                ty,
                dir(x0, tx),
                dir(y0, ty),
                span(x0, tx),
                span(y0, ty),
                n.2,
            )
        }),
{
    let sx = dir(x0, tx);
    let sy = dir(y0, ty);
    let dx = span(x0, tx);
    let dy = span(y0, ty);
    let i = span(x0, x);
    let j = span(y0, y);
    let e2 = 2 * err;
    let n = bstep(x, y, sx, sy, dx, dy, err);

    assert(0 <= i && i <= dx);
    assert(0 <= j && j <= dy);
    assert(span(x, tx) == dx - i);
    assert(span(y, ty) == dy - j);
    assert((i + 1) * dy == i * dy + dy) by (nonlinear_arith);
    assert((j + 1) * dx == j * dx + dx) by (nonlinear_arith);

    // Which branches of the step fire.
    if x == tx {
        // Only y is left; the x branch must stay off, else the walk
        // would overshoot the target column.
        assert(i == dx && j < dy);
        assert(e2 <= -2 * dy) by (nonlinear_arith)
            requires
                e2 == 2 * (dx - dy + j * dx - i * dy),
                i == dx,
                0 <= j,
                j <= dy - 1,
                0 <= dx,
        ;
        assert(!(e2 > -dy));
        assert(e2 < dx);
    } else if y == ty {
        // Only x is left; the y branch must stay off.
        assert(j == dy && i < dx);
        assert(e2 >= 2 * dx) by (nonlinear_arith)
            requires
                e2 == 2 * (dx - dy + j * dx - i * dy),
                j == dy,
                0 <= i,
                i <= dx - 1,
                0 <= dy,
        ;
        assert(e2 > -dy);
        assert(!(e2 < dx));
    } else {
        assert(i < dx && j < dy);
        if !(e2 > -dy) && !(e2 < dx) {
            assert(dx <= e2 && e2 <= -dy);
            assert(false);
        }
    }

    // Per-axis movement facts.
    if e2 > -dy {
        assert(x != tx && i < dx);
        assert(n.0 == x + sx);
        assert(span(x0, n.0) == i + 1);
        assert(betw(x0, tx, n.0) && betw(x, tx, n.0));
        assert(span(n.0, tx) == dx - (i + 1));
    } else {
        assert(n.0 == x);
    }
    if e2 < dx {
        assert(y != ty && j < dy);
        assert(n.1 == y + sy);
        assert(span(y0, n.1) == j + 1);
        assert(betw(y0, ty, n.1) && betw(y, ty, n.1));
        assert(span(n.1, ty) == dy - (j + 1));
    } else {
        assert(n.1 == y);
    }

    // The error balance is kept through the update.
    assert(n.2 == dx - dy + span(y0, n.1) * dx - span(x0, n.0) * dy);

    // The sequence unfolds by one pixel, since the step closes in.
    assert(span(n.0, tx) + span(n.1, ty) < span(x, tx) + span(y, ty));
    assert(bres_seq(x, y, tx, ty, sx, sy, dx, dy, err) == seq![(x, y)] + bres_seq(
        n.0,
        n.1,
        tx,
        ty,
        sx,
        sy,
        dx,
        dy,
        n.2,
    ));
}

/// A product with a zero factor vanishes; the error balance of a fresh
/// or degenerate walk is full of such products.
proof fn lemma_mul_zero()
    ensures
        forall|a: int, b: int| a == 0 ==> #[trigger] (a * b) == 0,
        forall|a: int, b: int| b == 0 ==> #[trigger] (a * b) == 0,
{
    assert forall|a: int, b: int| a == 0 implies #[trigger] (a * b) == 0 by {
        assert(a * b == 0) by (nonlinear_arith)
            requires
                a == 0,
        ;
    }
    assert forall|a: int, b: int| b == 0 implies #[trigger] (a * b) == 0 by {
        assert(a * b == 0) by (nonlinear_arith)
            requires
                b == 0,
        ;
    }
}

/// The walked sequence from any reachable state starts at that state,
/// ends at the target, stays inside the rectangle the two span, and moves
/// by at most one cell per axis between neighbours, never standing still.
proof fn lemma_bres_seq_props(x0: int, y0: int, tx: int, ty: int, x: int, y: int, err: int)
    requires
        st_ok(x0, y0, tx, ty, x, y, err),
    ensures
        ({
            let s = bres_seq(
                x,
                y,
                tx,
                ty,
                dir(x0, tx),
                dir(y0, ty),
                span(x0, tx),
                span(y0, ty),
                err,
            );
            &&& s.len() >= 1
            &&& s[0] == (x, y)
            &&& s[s.len() - 1] == (tx, ty)
            &&& forall|k: int|
                0 <= k < s.len() ==> betw(x, tx, (#[trigger] s[k]).0) && betw(y, ty, s[k].1)
            &&& forall|k: int|
                0 <= k < s.len() - 1 ==> span((#[trigger] s[k]).0, s[k + 1].0) <= 1 && span(
                    s[k].1,
                    s[k + 1].1,
                ) <= 1 && s[k + 1] != s[k]
            &&& forall|k: int, l: int| 0 <= k < l < s.len() ==> #[trigger] s[k] != #[trigger] s[l]
        }),
    decreases span(x, tx) + span(y, ty),
{
    let sx = dir(x0, tx);
    let sy = dir(y0, ty);
    let dx = span(x0, tx);
    let dy = span(y0, ty);
    let s = bres_seq(x, y, tx, ty, sx, sy, dx, dy, err);
    if x == tx && y == ty {
        assert(s == seq![(x, y)]);
    } else {
        lemma_step(x0, y0, tx, ty, x, y, err);
        let n = bstep(x, y, sx, sy, dx, dy, err);
        lemma_bres_seq_props(x0, y0, tx, ty, n.0, n.1, n.2);
        let t = bres_seq(n.0, n.1, tx, ty, sx, sy, dx, dy, n.2);
        assert(s == seq![(x, y)] + t);
        assert(s.len() == 1 + t.len());
        assert(s[s.len() - 1] == t[t.len() - 1]);
        assert forall|k: int|
            0 <= k < s.len() implies betw(x, tx, (#[trigger] s[k]).0) && betw(
            y,
            ty,
            s[k].1,
        ) by {
            if k > 0 {
                assert(s[k] == t[k - 1]);
                assert(betw(n.0, tx, t[k - 1].0) && betw(n.1, ty, t[k - 1].1));
            }
        }
        assert forall|k: int|
            0 <= k < s.len() - 1 implies span((#[trigger] s[k]).0, s[k + 1].0) <= 1 && span(
            s[k].1,
            s[k + 1].1,
        ) <= 1 && s[k + 1] != s[k] by {
            if k == 0 {
                assert(s[0] == (x, y));
                assert(s[1] == t[0]);
                assert(t[0] == (n.0, n.1));
            } else {
                assert(s[k] == t[k - 1]);
                assert(s[k + 1] == t[k]);
            }
        }
        // The walk never revisits a pixel: the first pixel lies outside
        // the rectangle the rest of the walk stays in, on whichever axis
        // the step moved.
        assert forall|k: int, l: int| 0 <= k < l < s.len() implies #[trigger] s[k]
            != #[trigger] s[l] by {
            if k == 0 {
                assert(s[l] == t[l - 1]);
                assert(betw(n.0, tx, t[l - 1].0) && betw(n.1, ty, t[l - 1].1));
                if n.0 != x {
                    assert(s[l].0 != x);
                } else {
                    assert(n.1 != y);
                    assert(s[l].1 != y);
                }
            } else {
                assert(s[k] == t[k - 1]);
                assert(s[l] == t[l - 1]);
            }
        }
    }
}

/// The discrete line between two points covers both endpoints, stays in
/// the rectangle they span, and has no gaps: neighbouring pixels differ
/// by at most one cell in each axis and never coincide.
pub proof fn lemma_line_shape(x0: int, y0: int, x1: int, y1: int)
    ensures
        ({
            let s = line_pixels(x0, y0, x1, y1);
            &&& s.len() >= 1
            &&& s.contains((x0, y0))
            &&& s.contains((x1, y1))
            &&& (s[0] == (x0, y0) && s[s.len() - 1] == (x1, y1)) || (s[0] == (x1, y1) && s[s.len()
                - 1] == (x0, y0))
            &&& forall|k: int|
                0 <= k < s.len() ==> betw(x0, x1, (#[trigger] s[k]).0) && betw(y0, y1, s[k].1)
            &&& forall|k: int|
                0 <= k < s.len() - 1 ==> span((#[trigger] s[k]).0, s[k + 1].0) <= 1 && span(
                    s[k].1,
                    s[k + 1].1,
                ) <= 1 && s[k + 1] != s[k]
            &&& forall|k: int, l: int| 0 <= k < l < s.len() ==> #[trigger] s[k] != #[trigger] s[l]
        }),
{
    let s = line_pixels(x0, y0, x1, y1);
    lemma_mul_zero();
    if lex_le(x0, y0, x1, y1) {
        lemma_bres_seq_props(x0, y0, x1, y1, x0, y0, span(x0, x1) - span(y0, y1));
        assert(s[0] == (x0, y0) && s[s.len() - 1] == (x1, y1));
    } else {
        lemma_bres_seq_props(x1, y1, x0, y0, x1, y1, span(x1, x0) - span(y1, y0));
        assert(s[0] == (x1, y1) && s[s.len() - 1] == (x0, y0));
    }
    assert(s.contains((x0, y0))) by {
        assert(s[0] == (x0, y0) || s[s.len() - 1] == (x0, y0));
    }
    assert(s.contains((x1, y1))) by {
        assert(s[0] == (x1, y1) || s[s.len() - 1] == (x1, y1));
    }
}

/// Along a horizontal walk the error term pins every step: the walk
/// visits each column once, left to right, and never leaves the row.
proof fn lemma_bres_row(x0: int, y: int, tx: int, x: int, err: int)
    requires
        x0 <= x <= tx,
        st_ok(x0, y, tx, y, x, y, err),
    ensures
        ({
            let s = bres_seq(x, y, tx, y, dir(x0, tx), dir(y, y), span(x0, tx), 0, err);
            &&& s.len() == tx - x + 1
            &&& forall|k: int| 0 <= k < s.len() ==> #[trigger] s[k] == (x + k, y)
        }),
    decreases tx - x,
{
    lemma_mul_zero();
    let s = bres_seq(x, y, tx, y, dir(x0, tx), dir(y, y), span(x0, tx), 0, err);
    if x == tx {
        assert(s == seq![(x, y)]);
    } else {
        assert(err == span(x0, tx));
        lemma_step(x0, y, tx, y, x, y, err);
        let n = bstep(x, y, dir(x0, tx), dir(y, y), span(x0, tx), 0, err);
        assert(n.0 == x + 1 && n.1 == y && n.2 == err);
        lemma_bres_row(x0, y, tx, x + 1, err);
        let t = bres_seq(x + 1, y, tx, y, dir(x0, tx), dir(y, y), span(x0, tx), 0, err);
        assert(s == seq![(x, y)] + t);
        assert forall|k: int| 0 <= k < s.len() implies #[trigger] s[k] == (x + k, y) by {
            if k > 0 {
                assert(s[k] == t[k - 1]);
            }
        }
    }
}

/// Along a vertical walk the error term pins every step: the walk visits
/// each row once, top to bottom, and never leaves the column.
proof fn lemma_bres_col(x: int, y0: int, ty: int, y: int, err: int)
    requires
        y0 <= y <= ty,
        st_ok(x, y0, x, ty, x, y, err),
    ensures
        ({
            let s = bres_seq(x, y, x, ty, dir(x, x), dir(y0, ty), 0, span(y0, ty), err);
            &&& s.len() == ty - y + 1
            &&& forall|k: int| 0 <= k < s.len() ==> #[trigger] s[k] == (x, y + k)
        }),
    decreases ty - y,
{
    lemma_mul_zero();
    let s = bres_seq(x, y, x, ty, dir(x, x), dir(y0, ty), 0, span(y0, ty), err);
    if y == ty {
        assert(s == seq![(x, y)]);
    } else {
        assert(err == -span(y0, ty));
        lemma_step(x, y0, x, ty, x, y, err);
        let n = bstep(x, y, dir(x, x), dir(y0, ty), 0, span(y0, ty), err);
        assert(n.0 == x && n.1 == y + 1 && n.2 == err);
        lemma_bres_col(x, y0, ty, y + 1, err);
        let t = bres_seq(x, y + 1, x, ty, dir(x, x), dir(y0, ty), 0, span(y0, ty), err);
        assert(s == seq![(x, y)] + t);
        assert forall|k: int| 0 <= k < s.len() implies #[trigger] s[k] == (x, y + k) by {
            if k > 0 {
                assert(s[k] == t[k - 1]);
            }
        }
    }
}

/// A horizontal segment rasterizes to exactly one pixel per column
/// between its endpoints, inclusive, all on the segment's row.
pub proof fn lemma_line_horizontal(x0: int, x1: int, y: int)
    ensures
        ({
            let s = line_pixels(x0, y, x1, y);
            let a = if x0 <= x1 {
                x0
            } else {
                x1
            };
            &&& s.len() == span(x0, x1) + 1
            &&& forall|k: int| 0 <= k < s.len() ==> #[trigger] s[k] == (a + k, y)
        }),
{
    lemma_mul_zero();
    if x0 <= x1 {
        lemma_bres_row(x0, y, x1, x0, span(x0, x1));
    } else {
        lemma_bres_row(x1, y, x0, x1, span(x1, x0));
    }
}

/// A vertical segment rasterizes to exactly one pixel per row between
/// its endpoints, inclusive, all in the segment's column.
pub proof fn lemma_line_vertical(x: int, y0: int, y1: int)
    ensures
        ({
            let s = line_pixels(x, y0, x, y1);
            let a = if y0 <= y1 {
                y0
            } else {
                y1
            };
            &&& s.len() == span(y0, y1) + 1
            &&& forall|k: int| 0 <= k < s.len() ==> #[trigger] s[k] == (x, a + k)
        }),
{
    lemma_mul_zero();
    if y0 <= y1 {
        lemma_bres_col(x, y0, y1, y0, -span(y0, y1));
    } else {
        lemma_bres_col(x, y1, y0, y1, -span(y1, y0));
    }
}

/// Along an exactly diagonal walk the error term stays balanced, so both
/// axes step together: the walk visits one pixel per column, moving one
/// row each time.
proof fn lemma_bres_diag(x0: int, y0: int, tx: int, ty: int, x: int, y: int, err: int)
    requires
        x0 <= x <= tx,
        span(x0, tx) == span(y0, ty),
        span(x0, x) == span(y0, y),
        st_ok(x0, y0, tx, ty, x, y, err),
    ensures
        ({
            let s = bres_seq(
                x,
                y,
                tx,
                ty,
                dir(x0, tx),
                dir(y0, ty),
                span(x0, tx),
                span(y0, ty),
                err,
            );
            &&& s.len() == tx - x + 1
            &&& forall|k: int|
                0 <= k < s.len() ==> #[trigger] s[k] == (
                    x + k,
                    if y0 <= ty {
                        y + k
                    } else {
                        y - k
                    },
                )
        }),
    decreases tx - x,
{
    let sy = dir(y0, ty);
    let s = bres_seq(x, y, tx, ty, dir(x0, tx), sy, span(x0, tx), span(y0, ty), err);
    assert(err == 0);
    if x == tx {
        assert(y == ty);
        assert(s == seq![(x, y)]);
    } else {
        lemma_step(x0, y0, tx, ty, x, y, err);
        let n = bstep(x, y, dir(x0, tx), sy, span(x0, tx), span(y0, ty), err);
        assert(n.0 == x + 1 && n.1 == y + sy && n.2 == 0);
        lemma_bres_diag(x0, y0, tx, ty, x + 1, y + sy, 0);
        let t = bres_seq(x + 1, y + sy, tx, ty, dir(x0, tx), sy, span(x0, tx), span(y0, ty), 0);
        assert(s == seq![(x, y)] + t);
        assert forall|k: int|
            0 <= k < s.len() implies #[trigger] s[k] == (
            x + k,
            if y0 <= ty {
                y + k
            } else {
                y - k
            },
        ) by {
            if k > 0 {
                assert(s[k] == t[k - 1]);
            }
        }
    }
}

/// A segment at exactly forty-five degrees rasterizes to one pixel per
/// column, stepping one row per column: the pure diagonal.
pub proof fn lemma_line_diagonal(x0: int, y0: int, x1: int, y1: int)
    requires
        span(x0, x1) == span(y0, y1),
    ensures
        ({
            let s = line_pixels(x0, y0, x1, y1);
            let ax = if x0 <= x1 {
                x0
            } else {
                x1
            };
            let ay = if x0 <= x1 {
                y0
            } else {
                y1
            };
            let by = if x0 <= x1 {
                y1
            } else {
                y0
            };
            &&& s.len() == span(x0, x1) + 1
            &&& forall|k: int|
                0 <= k < s.len() ==> #[trigger] s[k] == (
                    ax + k,
                    if ay <= by {
                        ay + k
                    } else {
                        ay - k
                    },
                )
        }),
{
    lemma_mul_zero();
    if x0 < x1 {
        lemma_bres_diag(x0, y0, x1, y1, x0, y0, span(x0, x1) - span(y0, y1));
    } else if x1 < x0 {
        lemma_bres_diag(x1, y1, x0, y0, x1, y1, span(x1, x0) - span(y1, y0));
    } else {
        // Equal spans and equal columns leave a single point.
        assert(y0 == y1);
        assert(line_pixels_from(x0, y0, x0, y0) == seq![(x0, y0)]);
    }
}

/// A segment whose endpoints coincide rasterizes to exactly that one
/// pixel.
pub proof fn lemma_line_identical(x: int, y: int)
    ensures
        line_pixels(x, y, x, y) == seq![(x, y)],
{
    assert(line_pixels_from(x, y, x, y) == seq![(x, y)]);
}

/// Rasterizing a segment does not depend on the direction it is given
/// in: exchanging the endpoints yields the same pixels, hence the same
/// pixel set.
pub proof fn lemma_line_symmetric(x0: int, y0: int, x1: int, y1: int)
    ensures
        line_pixels(x0, y0, x1, y1) == line_pixels(x1, y1, x0, y0),
        line_pixels(x0, y0, x1, y1).to_set() == line_pixels(x1, y1, x0, y0).to_set(),
{
}

/// Rasterizes the straight line between two screen points into the set of
/// pixels covering it, endpoints included, with integer arithmetic only.
/// Both endpoints must be non-negative; every returned pixel lies in the
/// rectangle the endpoints span.
pub fn bresenham_line(x0: i32, y0: i32, x1: i32, y1: i32) -> (pixels: Vec<(usize, usize)>)
    requires
        0 <= x0,
        0 <= y0,
        0 <= x1,
        0 <= y1,
    ensures
        pixels_view(pixels@) == line_pixels(x0 as int, y0 as int, x1 as int, y1 as int),
{
    let (ax, ay, bx, by): (i32, i32, i32, i32) = if x0 < x1 || (x0 == x1 && y0 <= y1) {
        (x0, y0, x1, y1)
    } else {
        (x1, y1, x0, y0)
    };
    proof {
        assert(line_pixels(x0 as int, y0 as int, x1 as int, y1 as int) == line_pixels_from(
            ax as int,
            ay as int,
            bx as int,
            by as int,
        ));
    }
    let tx: i64 = bx as i64;
    let ty: i64 = by as i64;
    let dx: i64 = if bx >= ax {
        tx - (ax as i64)
    } else {
        (ax as i64) - tx
    };
    let dy: i64 = if by >= ay {
        ty - (ay as i64)
    } else {
        (ay as i64) - ty
    };
    let sx: i64 = if ax < bx {
        1
    } else {
        -1
    };
    let sy: i64 = if ay < by {
        1
    } else {
        -1
    };
    let mut x: i64 = ax as i64;
    let mut y: i64 = ay as i64;
    let mut err: i64 = dx - dy;
    let mut pixels: Vec<(usize, usize)> = Vec::new();

    proof {
        assert(err == dx - dy + span(ay as int, y as int) * (dx as int) - span(ax as int, x as int)
            * (dy as int));
        assert(pixels_view(pixels@) + bres_seq(
            x as int,
            y as int,
            tx as int,
            ty as int,
            sx as int,
            sy as int,
            dx as int,
            dy as int,
            err as int,
        ) =~= line_pixels_from(ax as int, ay as int, bx as int, by as int));
    }

    while x != tx || y != ty
        invariant
            0 <= ax && 0 <= ay && 0 <= tx <= 0x7fff_ffff && 0 <= ty <= 0x7fff_ffff,
            dx == span(ax as int, tx as int) && dy == span(ay as int, ty as int),
            0 <= dx <= 0x7fff_ffff && 0 <= dy <= 0x7fff_ffff,
            sx == dir(ax as int, tx as int) && sy == dir(ay as int, ty as int),
            0 <= x <= 0x7fff_ffff && 0 <= y <= 0x7fff_ffff,
            st_ok(ax as int, ay as int, tx as int, ty as int, x as int, y as int, err as int),
            -2 * (dy as int) <= err as int && err as int <= 2 * (dx as int),
            pixels_view(pixels@) + bres_seq(
                x as int,
                y as int,
                tx as int,
                ty as int,
                sx as int,
                sy as int,
                dx as int,
                dy as int,
                err as int,
            ) == line_pixels_from(ax as int, ay as int, bx as int, by as int),
        decreases span(x as int, tx as int) + span(y as int, ty as int),
    {
        proof {
            lemma_step(ax as int, ay as int, tx as int, ty as int, x as int, y as int, err as int);
        }
        let ghost prev = pixels@;
        let ghost cur = (x as int, y as int);
        pixels.push((x as usize, y as usize));
        proof {
            assert(pixels_view(pixels@) =~= pixels_view(prev).push(cur));
        }
        let e2: i64 = 2 * err;
        if e2 > -dy {
            err = err - dy;
            x = x + sx;
        }
        if e2 < dx {
            err = err + dx;
            y = y + sy;
        }
        proof {
            assert(pixels_view(prev).push(cur) + bres_seq(
                x as int,
                y as int,
                tx as int,
                ty as int,
                sx as int,
                sy as int,
                dx as int,
                dy as int,
                err as int,
            ) =~= pixels_view(prev) + (seq![cur] + bres_seq(
                x as int,
                y as int,
                tx as int,
                ty as int,
                sx as int,
                sy as int,
                dx as int,
                dy as int,
                err as int,
            )));
        }
    }

    let ghost prev = pixels@;
    pixels.push((tx as usize, ty as usize));
    proof {
        assert(bres_seq(
            x as int,
            y as int,
            tx as int,
            ty as int,
            sx as int,
            sy as int,
            dx as int,
            dy as int,
            err as int,
        ) == seq![(tx as int, ty as int)]);
        assert(pixels_view(pixels@) =~= pixels_view(prev).push((tx as int, ty as int)));
        assert(pixels_view(prev).push((tx as int, ty as int)) =~= pixels_view(prev) + seq![
            (tx as int, ty as int),
        ]);
    }
    pixels
}

} // verus!
