use spatial_tree::COORD_LIMIT;
use spatial_tree::Dimension;
use spatial_tree::LineTree;
use spatial_tree::Line;
use spatial_tree::Oct;
use spatial_tree::OctTree;
use spatial_tree::Quad;
use spatial_tree::Tess;
use spatial_tree::TessTree;

#[test]
fn line_overlap_is_boundary_inclusive() {
    let a = Line::new(0, 10);
    let b = Line::new(20, 10);
    let c = Line::new(21, 10);
    assert!(a.overlaps(&b));
    assert!(b.overlaps(&a));
    assert!(!a.overlaps(&c));
    assert!(a.overlaps(&a));
}

#[test]
fn line_contains_center_uses_midpoint() {
    let a = Line::new(0, 10);
    // The midpoint of [8, 13] is 10, inside [-10, 10].
    let b = Line { min: 8, max: 13 };
    assert!(a.contains_center(&b));
    // The midpoint of [9, 14] is 11, outside.
    let c = Line { min: 9, max: 14 };
    assert!(!a.contains_center(&c));
    // Negative interval: the midpoint of [-3, 0] is -2.
    let d = Line { min: -3, max: 0 };
    assert!(Line { min: -2, max: -2 }.contains_center(&d));
}

#[test]
fn line_subdivisions_tile_the_segment() {
    let a = Line::new(0, 500);
    let subs = a.subdivisions();
    assert_eq!(subs.len(), 2);
    assert_eq!(subs[0], Line { min: -500, max: 0 });
    assert_eq!(subs[1], Line { min: 0, max: 500 });
    // An odd width splits without a gap: both halves keep the midpoint.
    let odd = Line { min: 0, max: 5 };
    let parts = odd.subdivisions();
    assert_eq!(parts[0], Line { min: 0, max: 2 });
    assert_eq!(parts[1], Line { min: 2, max: 5 });
}

#[test]
fn quad_new_computes_corners() {
    let q = Quad::new(0, 0, 500, 250);
    assert_eq!(q, Quad { x_min: -500, x_max: 500, y_min: -250, y_max: 250 });
    let subs = q.subdivisions();
    assert_eq!(subs.len(), 4);
    assert_eq!(subs[0], Quad { x_min: -500, x_max: 0, y_min: -250, y_max: 0 });
    assert_eq!(subs[1], Quad { x_min: 0, x_max: 500, y_min: -250, y_max: 0 });
    assert_eq!(subs[2], Quad { x_min: -500, x_max: 0, y_min: 0, y_max: 250 });
    assert_eq!(subs[3], Quad { x_min: 0, x_max: 500, y_min: 0, y_max: 250 });
}

#[test]
fn quad_overlap_needs_both_axes() {
    let a = Quad::new(0, 0, 10, 10);
    assert!(a.overlaps(&Quad::new(20, 0, 10, 10)));
    assert!(!a.overlaps(&Quad::new(21, 0, 10, 10)));
    assert!(!a.overlaps(&Quad::new(20, 21, 10, 10)));
    assert!(a.overlaps(&Quad::new(20, 20, 10, 10)));
}

#[test]
fn oct_tree_stores_and_finds() {
    let mut tree = OctTree::new(Oct::new(0, 0, 0, 500, 500, 500));
    for i in 0..8i64 {
        let s = |b: i64| if b == 0 { -100 } else { 100 };
        assert!(tree.insert(i, Oct::new(s(i & 1), s((i >> 1) & 1), s((i >> 2) & 1), 5, 5, 5)));
    }
    assert_eq!(tree.count(), 8);
    let found = tree.search(&Oct::new(0, 0, 0, 500, 500, 500));
    assert_eq!(found.len(), 8);
    let subs = Oct::new(0, 0, 0, 500, 500, 500).subdivisions();
    assert_eq!(subs.len(), 8);
    assert_eq!(subs[0], Oct {
        x_min: -500,
        x_max: 0,
        y_min: -500,
        y_max: 0,
        z_min: -500,
        z_max: 0,
    });
    assert_eq!(subs[7], Oct { x_min: 0, x_max: 500, y_min: 0, y_max: 500, z_min: 0, z_max: 500 });
}

#[test]
fn tess_tree_stores_and_finds() {
    let mut tree = TessTree::new(Tess::new(0, 0, 0, 0, 500, 500, 500, 500));
    for i in 0..16i64 {
        assert!(tree.insert(i, Tess::new(i * 20 - 150, 0, 0, 0, 5, 5, 5, 5)));
    }
    assert_eq!(tree.count(), 16);
    let found = tree.search(&Tess::new(0, 0, 0, 0, 500, 500, 500, 500));
    assert_eq!(found.len(), 16);
    let subs = Tess::new(0, 0, 0, 0, 500, 500, 500, 500).subdivisions();
    assert_eq!(subs.len(), 16);
    assert_eq!(subs[15], Tess {
        x_min: 0,
        x_max: 500,
        y_min: 0,
        y_max: 500,
        z_min: 0,
        z_max: 500,
        w_min: 0,
        w_max: 500,
    });
}

#[test]
fn extreme_coordinates_still_work() {
    let root = Line::new(0, COORD_LIMIT);
    assert_eq!(root, Line { min: -COORD_LIMIT, max: COORD_LIMIT });
    let subs = root.subdivisions();
    assert_eq!(subs[0], Line { min: -COORD_LIMIT, max: 0 });
    assert_eq!(subs[1], Line { min: 0, max: COORD_LIMIT });
    let mut tree = LineTree::new(root);
    assert!(tree.insert(1, Line::new(COORD_LIMIT - 5, 5)));
    assert!(tree.insert(2, Line::new(-COORD_LIMIT + 5, 5)));
    assert_eq!(tree.count(), 2);
    let found = tree.search(&root);
    assert_eq!(found.len(), 2);
}
