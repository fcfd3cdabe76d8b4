use spincube::frame::{draw_edge, new_frame, plot, render_cube, render_wireframe};
use spincube::frame_height;
use spincube::model::{cube_edges, cube_vertices_milli};
use spincube::project::project_vertex;
use spincube::raster::bresenham_line;

#[test]
fn raster_horizontal() {
    let pts = bresenham_line(0, 0, 5, 0);
    assert_eq!(pts, vec![(0, 0), (1, 0), (2, 0), (3, 0), (4, 0), (5, 0)]);
}

#[test]
fn raster_vertical() {
    let pts = bresenham_line(0, 0, 0, 5);
    assert_eq!(pts, vec![(0, 0), (0, 1), (0, 2), (0, 3), (0, 4), (0, 5)]);
}

#[test]
fn raster_diagonal() {
    let pts = bresenham_line(0, 0, 3, 3);
    assert_eq!(pts, vec![(0, 0), (1, 1), (2, 2), (3, 3)]);
}

#[test]
fn raster_single_point() {
    let pts = bresenham_line(7, 9, 7, 9);
    assert_eq!(pts, vec![(7, 9)]);
}

#[test]
fn raster_symmetric() {
    let fwd = bresenham_line(1, 2, 7, 5);
    let rev = bresenham_line(7, 5, 1, 2);
    let mut fwd_set = fwd.clone();
    let mut rev_set = rev.clone();
    fwd_set.sort();
    rev_set.sort();
    assert_eq!(fwd_set, rev_set);
}

#[test]
fn raster_symmetric_steep() {
    let fwd = bresenham_line(3, 0, 5, 9);
    let rev = bresenham_line(5, 9, 3, 0);
    let mut fwd_set = fwd.clone();
    let mut rev_set = rev.clone();
    fwd_set.sort();
    rev_set.sort();
    assert_eq!(fwd_set, rev_set);
}

#[test]
fn raster_endpoints_once() {
    let pts = bresenham_line(2, 1, 9, 4);
    assert_eq!(pts.iter().filter(|p| **p == (2, 1)).count(), 1);
    assert_eq!(pts.iter().filter(|p| **p == (9, 4)).count(), 1);
    let first = pts[0];
    let last = pts[pts.len() - 1];
    assert!(first == (2, 1) && last == (9, 4) || first == (9, 4) && last == (2, 1));
}

#[test]
fn raster_no_gaps() {
    let pts = bresenham_line(0, 0, 11, 4);
    for w in pts.windows(2) {
        let (x0, y0) = w[0];
        let (x1, y1) = w[1];
        assert!(x0.abs_diff(x1) <= 1 && y0.abs_diff(y1) <= 1);
        assert_ne!(w[0], w[1]);
    }
}

#[test]
fn projector_nominal_bounds() {
    for &(x, y, _z) in cube_vertices_milli().iter() {
        let (px, py) = project_vertex(x, y, 80, 40);
        assert!(px < 80);
        assert!(py < 40);
    }
    for &m in &[-1733i64, 1733i64] {
        let (px, py) = project_vertex(m, m, 80, 40);
        assert!(px < 80);
        assert!(py < 40);
    }
}

#[test]
fn projector_values() {
    assert_eq!(project_vertex(1000, 1000, 10, 10), (9, 7));
    assert_eq!(project_vertex(-1000, -1000, 10, 10), (1, 3));
    assert_eq!(project_vertex(0, 0, 10, 10), (5, 5));
}

#[test]
fn frame_blank() {
    let f = new_frame(4, 3);
    assert_eq!(f.len(), 3);
    for row in &f {
        assert_eq!(row.len(), 4);
        assert!(row.iter().all(|&c| c == ' '));
    }
}

#[test]
fn frame_plot_in_and_out_of_bounds() {
    let mut f = new_frame(4, 3);
    plot(&mut f, 1, 2);
    assert_eq!(f[2][1], '#');
    let before = f.clone();
    plot(&mut f, 99, 99);
    assert_eq!(f, before);
}

#[test]
fn edge_clipped_at_frame_border() {
    let mut f = new_frame(5, 1);
    draw_edge(&mut f, 0, 0, 15, 0);
    assert_eq!(f[0], vec!['#', '#', '#', '#', '#']);
}

#[test]
fn wireframe_square() {
    let corners = vec![(0, 0), (3, 0), (3, 3), (0, 3)];
    let edges = vec![(0, 1), (1, 2), (2, 3), (3, 0)];
    let f = render_wireframe(&corners, &edges, 5, 5);
    let rows: Vec<String> = f.iter().map(|r| r.iter().collect()).collect();
    assert_eq!(rows, vec!["#### ", "#  # ", "#  # ", "#### ", "     "]);
}

#[test]
fn cube_frame_is_deterministic() {
    let verts = cube_vertices_milli();
    let f1 = render_cube(&verts, 10, 10);
    let f2 = render_cube(&verts, 10, 10);
    assert_eq!(f1, f2);
    let rows: Vec<String> = f1.iter().map(|r| r.iter().collect()).collect();
    let expected = vec![
        "          ",
        "          ",
        "          ",
        " #########",
        " #       #",
        " #       #",
        " #       #",
        " #########",
        "          ",
        "          ",
    ];
    assert_eq!(rows, expected);
}

#[test]
fn cube_topology() {
    let edges = cube_edges();
    assert_eq!(edges.len(), 12);
    let expected = vec![
        (0, 1),
        (0, 3),
        (0, 7),
        (1, 2),
        (1, 6),
        (2, 5),
        (2, 3),
        (3, 4),
        (4, 5),
        (4, 7),
        (5, 6),
        (6, 7),
    ];
    assert_eq!(edges, expected);
    for &(a, b) in &edges {
        assert!(a < 8 && b < 8);
    }
}

#[test]
fn cube_layout() {
    let verts = cube_vertices_milli();
    assert_eq!(verts.len(), 8);
    assert_eq!(verts[0], (1000, 1000, 1000));
    assert_eq!(verts[5], (-1000, -1000, -1000));
    for &(x, y, z) in &verts {
        assert!(x.abs() == 1000 && y.abs() == 1000 && z.abs() == 1000);
    }
}

#[test]
fn reserved_rows_clamp() {
    assert_eq!(frame_height(50), 48);
    assert_eq!(frame_height(2), 0);
    assert_eq!(frame_height(1), 0);
    assert_eq!(frame_height(0), 0);
}
