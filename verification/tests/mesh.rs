use osmviz::mesh::{generate_patch_grid, loft_split_index, pyramid_fan, quad_strip, PatchCorner, StripCorner};

fn c(point: usize, upper: bool) -> StripCorner {
    StripCorner { point, upper }
}

#[test]
fn quad_strip_two_triangles_per_edge() {
    assert!(quad_strip(0).is_empty());
    assert!(quad_strip(1).is_empty());
    assert_eq!(
        quad_strip(3),
        vec![
            c(0, false), c(1, false), c(1, true), c(0, false), c(1, true), c(0, true),
            c(1, false), c(2, false), c(2, true), c(1, false), c(2, true), c(1, true),
        ]
    );
}

#[test]
fn pyramid_fan_edges_to_peak() {
    assert!(pyramid_fan(1).is_empty());
    assert_eq!(pyramid_fan(3), vec![Some(0), Some(1), None, Some(1), Some(2), None]);
}

#[test]
fn patch_grid_corners() {
    assert!(generate_patch_grid(0).is_empty());
    let g = generate_patch_grid(2);
    assert_eq!(g.len(), 16);
    let p = |x, z, right, down| PatchCorner { x, z, right, down };
    assert_eq!(&g[0..4], &[p(0, 0, false, false), p(0, 0, true, false), p(0, 0, true, true), p(0, 0, false, true)]);
    assert_eq!(g[4], p(1, 0, false, false));
    assert_eq!(g[8], p(0, 1, false, false));
    assert_eq!(g[15], p(1, 1, false, true));
    assert_eq!(generate_patch_grid(4).len(), 64);
}

#[test]
fn loft_split_after_courtyards() {
    assert_eq!(loft_split_index(5, &vec![]), 5);
    assert_eq!(loft_split_index(5, &vec![4, 6]), 15);
}
