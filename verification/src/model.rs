//! The cube's constant topology and its canonical starting layout.
//!
//! Vertex coordinates are kept in thousandths of a unit, so that the whole
//! model stays in integer arithmetic; the corners of the unit cube sit at
//! plus or minus one thousand in each axis.

use vstd::prelude::*;

verus! {

/// The 12 edges of a cube, as unordered pairs of indices into the
/// 8-vertex list.
pub open spec fn cube_edges_spec() -> Seq<(usize, usize)> {
    seq![
        (0usize, 1usize),
        (0usize, 3usize),
        (0usize, 7usize),
        (1usize, 2usize),
        (1usize, 6usize),
        (2usize, 5usize),
        (2usize, 3usize),
        (3usize, 4usize),
        (4usize, 5usize),
        (4usize, 7usize),
        (5usize, 6usize),
        (6usize, 7usize),
    ]
}

/// The canonical unit-cube layout: each vertex at plus or minus one
/// thousand thousandths in every axis, in the fixed order the edge
/// table refers to.
pub open spec fn cube_vertices_spec() -> Seq<(i64, i64, i64)> {
    seq![
        (1000i64, 1000i64, 1000i64),
        (1000i64, -1000i64, 1000i64),
        (-1000i64, -1000i64, 1000i64),
        (-1000i64, 1000i64, 1000i64),
        (-1000i64, 1000i64, -1000i64),
        (-1000i64, -1000i64, -1000i64),
        (1000i64, -1000i64, -1000i64),
        (1000i64, 1000i64, -1000i64),
    ]
}

/// Builds the constant edge table. Every endpoint is a valid index into
/// the 8-vertex list.
pub fn cube_edges() -> (r: Vec<(usize, usize)>)
    ensures
        r@ == cube_edges_spec(),
        r@.len() == 12,
        forall|k: int| 0 <= k < r@.len() ==> (#[trigger] r@[k]).0 < 8 && r@[k].1 < 8,
{
    let mut r: Vec<(usize, usize)> = Vec::new();
    r.push((0, 1));
    r.push((0, 3));
    r.push((0, 7));
    r.push((1, 2));
    r.push((1, 6));
    r.push((2, 5));
    r.push((2, 3));
    r.push((3, 4));
    r.push((4, 5));
    r.push((4, 7));
    r.push((5, 6));
    r.push((6, 7));
    proof {
        assert(r@ =~= cube_edges_spec());
    }
    r
}

/// Builds a fresh copy of the canonical vertex layout, in thousandths of
/// a unit.
pub fn cube_vertices_milli() -> (r: Vec<(i64, i64, i64)>)
    ensures
        r@ == cube_vertices_spec(),
        r@.len() == 8,
{
    let mut r: Vec<(i64, i64, i64)> = Vec::new();
    r.push((1000, 1000, 1000));
    r.push((1000, -1000, 1000));
    r.push((-1000, -1000, 1000));
    r.push((-1000, 1000, 1000));
    r.push((-1000, 1000, -1000));
    r.push((-1000, -1000, -1000));
    r.push((1000, -1000, -1000));
    r.push((1000, 1000, -1000));
    proof {
        assert(r@ =~= cube_vertices_spec());
    }
    r
}

} // verus!
