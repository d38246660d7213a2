use physics2d::order::order_key;
use physics2d::select::{
    circle_polygon_contact, first_vertex_within, seq_after, AxisSearch, last_edge_in_region, polygon_contact,
    shallowest_axis, support_index, CircleContact, EdgeProjection, PolygonContact, ZERO_KEY,
};

fn key(x: f32) -> u32 {
    order_key(x.to_bits())
}

fn keys(xs: &[f32]) -> Vec<u32> {
    xs.iter().map(|&x| key(x)).collect()
}

fn axes(xs: &[Option<f32>]) -> Vec<Option<u32>> {
    xs.iter().map(|x| x.map(key)).collect()
}

fn edge(along: f32, length: f32, across: f32) -> EdgeProjection {
    EdgeProjection { along: key(along), length: key(length), across: key(across) }
}

#[test]
fn zero_key_is_key_of_zero() {
    assert_eq!(ZERO_KEY, key(0.0));
}

#[test]
fn support_is_deepest_vertex() {
    let pen = keys(&[-1.0, 0.5, 2.0, 1.5]);
    assert_eq!(support_index(&pen, ZERO_KEY), Some(2));
}

#[test]
fn support_takes_first_of_equal_depths() {
    let pen = keys(&[0.25, 1.25, 1.25, -3.0]);
    assert_eq!(support_index(&pen, ZERO_KEY), Some(1));
}

#[test]
fn support_needs_positive_penetration() {
    assert_eq!(support_index(&keys(&[-1.0, 0.0, -0.0]), ZERO_KEY), None);
    assert_eq!(support_index(&Vec::new(), ZERO_KEY), None);
}

#[test]
fn shallowest_axis_is_least_depth() {
    let a = axes(&[Some(1.2), Some(0.4), Some(0.8), Some(1.6)]);
    assert_eq!(shallowest_axis(&a, key(f32::MAX)), Some(1));
}

#[test]
fn shallowest_axis_takes_first_tie() {
    let a = axes(&[Some(0.9), Some(0.5), Some(0.5)]);
    assert_eq!(shallowest_axis(&a, key(f32::MAX)), Some(1));
}

#[test]
fn separating_axis_means_no_contact() {
    let a = axes(&[Some(0.1), None, Some(0.3)]);
    assert_eq!(shallowest_axis(&a, key(f32::MAX)), None);
    assert_eq!(shallowest_axis(&Vec::new(), key(f32::MAX)), None);
}

#[test]
fn depth_at_ceiling_is_not_taken() {
    let a = axes(&[Some(f32::MAX), Some(f32::INFINITY)]);
    assert_eq!(shallowest_axis(&a, key(f32::MAX)), None);
}

fn normals(xs: &[(f32, f32)]) -> Vec<(u32, u32)> {
    xs.iter().map(|&(x, y)| (key(x), key(y))).collect()
}

fn search(depths: &[Option<f32>], ns: &[(f32, f32)], vertices: &[(f32, f32)]) -> AxisSearch {
    AxisSearch { depths: axes(depths), normals: normals(ns), vertices: normals(vertices) }
}

const SQUARE_NORMALS: [(f32, f32); 4] = [(0.0, -1.0), (1.0, 0.0), (0.0, 1.0), (-1.0, 0.0)];

fn square(cx: f32, cy: f32, half: f32) -> Vec<(f32, f32)> {
    vec![(cx - half, cy - half), (cx + half, cy - half), (cx + half, cy + half), (cx - half, cy + half)]
}

#[test]
fn seq_after_is_lexicographic() {
    let a = normals(&[(0.0, 1.0), (2.0, 3.0)]);
    let b = normals(&[(0.0, 1.0), (2.0, 4.0)]);
    assert!(seq_after(&b, &a));
    assert!(!seq_after(&a, &b));
    assert!(!seq_after(&a, &a));
    let prefix = normals(&[(0.0, 1.0)]);
    assert!(seq_after(&a, &prefix));
    assert!(!seq_after(&prefix, &a));
}

#[test]
fn polygon_contact_prefers_shallower_side() {
    let v = square(0.0, 0.0, 1.0);
    let a = search(&[Some(1.2), Some(0.4), Some(0.8), Some(1.6)], &SQUARE_NORMALS, &v);
    let b = search(&[Some(0.3), Some(1.6), Some(1.2), Some(0.9)], &SQUARE_NORMALS, &v);
    let ceiling = key(f32::MAX);
    assert_eq!(polygon_contact(&a, &b, ceiling), Some(PolygonContact::FromSecondNegated(0)));
    assert_eq!(polygon_contact(&b, &a, ceiling), Some(PolygonContact::FromFirst(0)));
}

#[test]
fn polygon_contact_tie_is_symmetric() {
    // Squares of side 2 centred at (0, 0) and (1.5, 1.5): both overlap 0.5 on x and on y.
    let a = search(&[Some(3.5), Some(0.5), Some(0.5), Some(3.5)], &SQUARE_NORMALS, &square(0.0, 0.0, 1.0));
    let b = search(&[Some(0.5), Some(3.5), Some(3.5), Some(0.5)], &SQUARE_NORMALS, &square(1.5, 1.5, 1.0));
    let ceiling = key(f32::MAX);
    // The first square's normal (1, 0) comes after the second's (0, -1).
    assert_eq!(polygon_contact(&a, &b, ceiling), Some(PolygonContact::FromFirst(1)));
    assert_eq!(polygon_contact(&b, &a, ceiling), Some(PolygonContact::FromSecondNegated(1)));
}

#[test]
fn polygon_contact_tie_takes_later_normal() {
    let a = search(&[Some(0.5), Some(0.7)], &[(0.0, -1.0), (1.0, 0.0)], &[(0.0, 0.0)]);
    let b = search(&[Some(0.9), Some(0.5)], &[(0.0, 1.0), (0.0, 1.0)], &[(1.0, 1.0)]);
    let ceiling = key(f32::MAX);
    assert_eq!(polygon_contact(&a, &b, ceiling), Some(PolygonContact::FromSecondNegated(1)));
    assert_eq!(polygon_contact(&b, &a, ceiling), Some(PolygonContact::FromFirst(1)));
}

#[test]
fn concentric_squares_are_symmetric() {
    // A 2x2 square inside a 4x4 one: every axis has depth 3 and the normals agree.
    let small = search(&[Some(3.0); 4], &SQUARE_NORMALS, &square(0.0, 0.0, 1.0));
    let large = search(&[Some(3.0); 4], &SQUARE_NORMALS, &square(0.0, 0.0, 2.0));
    let ceiling = key(f32::MAX);
    // The small square's first vertex (-1, -1) comes after the large one's (-2, -2).
    assert_eq!(polygon_contact(&small, &large, ceiling), Some(PolygonContact::FromFirst(0)));
    assert_eq!(polygon_contact(&large, &small, ceiling), Some(PolygonContact::FromSecondNegated(0)));
}

#[test]
fn polygon_contact_none_when_either_side_separates() {
    let v = square(0.0, 0.0, 1.0);
    let a = search(&[Some(0.5), Some(0.7)], &[(0.0, 1.0), (1.0, 0.0)], &v);
    let b = search(&[Some(0.9), None], &[(0.0, 1.0), (1.0, 0.0)], &v);
    let ceiling = key(f32::MAX);
    assert_eq!(polygon_contact(&a, &b, ceiling), None);
    assert_eq!(polygon_contact(&b, &a, ceiling), None);
}

#[test]
fn edge_region_bounds_are_strict() {
    assert!(edge(1.0, 2.0, 0.5).in_region());
    assert!(edge(1.0, 2.0, 0.0).in_region());
    assert!(!edge(0.0, 2.0, 0.5).in_region());
    assert!(!edge(2.0, 2.0, 0.5).in_region());
    assert!(!edge(1.0, 2.0, -0.5).in_region());
}

#[test]
fn last_qualifying_edge_wins() {
    let edges = vec![edge(1.0, 2.0, 0.5), edge(-1.0, 2.0, 3.0), edge(0.5, 4.0, 6.0), edge(3.0, 2.0, 1.0)];
    assert_eq!(last_edge_in_region(&edges), Some(2));
    assert_eq!(last_edge_in_region(&vec![edge(3.0, 2.0, 1.0)]), None);
}

#[test]
fn first_vertex_within_radius_wins() {
    let d = keys(&[30.0, 20.0, 4.0, 30.0]);
    assert_eq!(first_vertex_within(&d, key(25.0)), Some(1));
    assert_eq!(first_vertex_within(&d, key(4.0)), None);
}

#[test]
fn circle_meets_edge_inside_radius() {
    // A circle of radius 5 four units outside edge 1 of a polygon.
    let edges = vec![edge(-1.0, 10.0, 12.0), edge(3.0, 10.0, 4.0), edge(12.0, 10.0, 1.0)];
    let d = keys(&[100.0, 90.0, 200.0]);
    assert_eq!(circle_polygon_contact(&edges, key(5.0), &d, key(25.0)), Some(CircleContact::Edge(1)));
}

#[test]
fn circle_at_radius_from_edge_is_boundary() {
    let edges = vec![edge(3.0, 10.0, 5.0)];
    let d = keys(&[34.0, 34.0]);
    assert_eq!(circle_polygon_contact(&edges, key(5.0), &d, key(25.0)), None);
    let closer = vec![edge(3.0, 10.0, 4.0)];
    assert_eq!(circle_polygon_contact(&closer, key(5.0), &d, key(25.0)), Some(CircleContact::Edge(0)));
}

#[test]
fn circle_falls_back_to_vertex() {
    let edges = vec![edge(-1.0, 10.0, 3.0), edge(11.0, 10.0, 3.0)];
    let d = keys(&[30.0, 9.0, 4.0]);
    assert_eq!(circle_polygon_contact(&edges, key(5.0), &d, key(25.0)), Some(CircleContact::Vertex(1)));
    let far = keys(&[30.0, 26.0]);
    assert_eq!(circle_polygon_contact(&edges, key(5.0), &far, key(25.0)), None);
}
