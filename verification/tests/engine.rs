use spatial_tree::Quad;
use spatial_tree::QuadTree;
use spatial_tree::Line;
use spatial_tree::LineTree;
use spatial_tree::TNode;
use spatial_tree::Tree;

fn quad_tree(capacity: u8, depth: u8) -> Tree<i64, 4, Quad, TNode<i64, 4, Quad>> {
    Tree::new_tree(TNode::new(Quad::new(0, 0, 500, 500), capacity, depth))
}

#[test]
fn count_tracks_center_contained_inserts() {
    let mut tree = QuadTree::new(Quad::new(0, 0, 500, 500));
    // Center inside the root region: counted.
    assert!(tree.insert(1, Quad::new(10, 10, 5, 5)));
    assert_eq!(tree.count(), 1);
    // Overlaps the root but its center lies outside: stored, not counted.
    assert!(!tree.insert(2, Quad::new(505, 0, 10, 10)));
    assert_eq!(tree.count(), 1);
    // No overlap at all: rejected, not counted.
    assert!(!tree.insert(3, Quad::new(2000, 2000, 5, 5)));
    assert_eq!(tree.count(), 1);
    // Center exactly on the boundary: boundary-inclusive, counted.
    assert!(tree.insert(4, Quad::new(500, 0, 5, 5)));
    assert_eq!(tree.count(), 2);
    // The uncounted overlapping shape is still retrievable.
    let found = tree.search(&Quad::new(0, 0, 500, 500));
    assert!(found.iter().any(|e| e.0 == 2));
    assert!(!found.iter().any(|e| e.0 == 3));
}

#[test]
fn search_is_idempotent_between_mutations() {
    let mut tree = quad_tree(2, 8);
    for (i, (x, y)) in [(10, 10), (-40, 25), (100, -320), (5, 5), (-5, -5)].iter().enumerate() {
        tree.insert(i as i64, Quad::new(*x, *y, 3, 3));
    }
    let area = Quad::new(0, 0, 200, 200);
    let first = tree.search(&area);
    let second = tree.search(&area);
    assert_eq!(first, second);
    let whole = tree.search(&Quad::new(0, 0, 500, 500));
    let whole_again = tree.search(&Quad::new(0, 0, 500, 500));
    assert_eq!(whole, whole_again);
}

#[test]
fn clear_empties_every_search() {
    let mut tree = quad_tree(2, 8);
    for i in 0..20i64 {
        tree.insert(i, Quad::new((i * 37) % 400 - 200, (i * 53) % 400 - 200, 2, 2));
    }
    let counted = tree.count();
    assert!(counted > 0);
    tree.clear();
    assert_eq!(tree.search(&Quad::new(0, 0, 500, 500)).len(), 0);
    assert_eq!(tree.search(&Quad::new(123, -77, 10, 10)).len(), 0);
    // The insert counter survives a clear: it is only a buffer-sizing hint.
    assert_eq!(tree.count(), counted);
    // The tree keeps working after a clear; the new pair may sit in several
    // leaves of the surviving topology, but nothing else comes back.
    assert!(tree.insert(99, Quad::new(1, 1, 1, 1)));
    let after = tree.search(&Quad::new(0, 0, 500, 500));
    assert!(after.len() >= 1);
    assert!(after.iter().all(|e| e.0 == 99));
}

#[test]
fn third_contained_insert_subdivides_once() {
    let mut tree = quad_tree(2, 8);
    tree.insert(1, Quad::new(10, 10, 1, 1));
    tree.insert(2, Quad::new(-10, -10, 1, 1));
    assert!(!tree.prime().is_subdivided());
    tree.insert(3, Quad::new(20, 20, 1, 1));
    assert!(tree.prime().is_subdivided());
    // Exactly four children, tiling the root at its midpoint: corner views of
    // the quadrants centered at (+-250, +-250) with half extent (250, 250).
    let root = tree.prime();
    assert_eq!(*root.subtree(0).space(), Quad::new(-250, -250, 250, 250));
    assert_eq!(*root.subtree(1).space(), Quad::new(250, -250, 250, 250));
    assert_eq!(*root.subtree(2).space(), Quad::new(-250, 250, 250, 250));
    assert_eq!(*root.subtree(3).space(), Quad::new(250, 250, 250, 250));
    // All three pairs are still found when asking for the whole root region.
    let mut ids: Vec<i64> = tree.search(&Quad::new(0, 0, 500, 500)).iter().map(|e| e.0).collect();
    ids.sort();
    assert_eq!(ids, vec![1, 2, 3]);
    // Subdivision happens at most once: more inserts keep the same children.
    tree.insert(4, Quad::new(30, 30, 1, 1));
    tree.insert(5, Quad::new(-30, 30, 1, 1));
    assert!(tree.prime().is_subdivided());
    assert_eq!(*tree.prime().subtree(0).space(), Quad::new(-250, -250, 250, 250));
}

#[test]
fn straddling_shape_appears_once_per_leaf() {
    let mut tree = quad_tree(2, 8);
    tree.insert(1, Quad::new(-100, -100, 1, 1));
    tree.insert(2, Quad::new(100, -100, 1, 1));
    // The third contained insert subdivides; it straddles the x = 0 boundary
    // between the south-west and south-east children.
    tree.insert(3, Quad::new(0, -100, 10, 10));
    assert!(tree.prime().is_subdivided());
    let found = tree.search(&Quad::new(0, 0, 500, 500));
    let of = |id: i64| found.iter().filter(|e| e.0 == id).count();
    assert_eq!(of(1), 1);
    assert_eq!(of(2), 1);
    assert_eq!(of(3), 2);
    assert_eq!(found.len(), 4);
}

#[test]
fn zero_depth_tree_stays_flat() {
    let root = Line::new(0, 500);
    let mut tree: Tree<i64, 2, Line, TNode<i64, 2, Line>> =
        Tree::new_tree(TNode::new(root, 4, 0));
    for i in 0..10_000i64 {
        // Mutually overlapping segments, all centered near the origin.
        assert!(tree.insert(i, Line::new((i % 7) as i64, 40)));
    }
    assert!(!tree.prime().is_subdivided());
    assert_eq!(tree.count(), 10_000);
    let found = tree.search(&Line::new(0, 10));
    assert_eq!(found.len(), 10_000);
}

#[test]
fn search_never_misses_an_overlapping_pair() {
    let mut tree = quad_tree(3, 6);
    let mut inserted: Vec<(i64, Quad)> = Vec::new();
    for gx in -5..5i64 {
        for gy in -5..5i64 {
            let id = gx * 100 + gy;
            let q = Quad::new(gx * 90 + 7, gy * 90 + 7, 4, 4);
            assert!(tree.insert(id, q));
            inserted.push((id, q));
        }
    }
    assert_eq!(tree.count(), 100);
    let found = tree.search(&Quad::new(0, 0, 500, 500));
    // Broad phase: every stored pair comes back (possibly more than once).
    for (id, q) in &inserted {
        assert!(found.iter().any(|e| e.0 == *id && e.1 == *q));
    }
    // And nothing is invented.
    for e in &found {
        assert!(inserted.iter().any(|p| p.0 == e.0 && p.1 == e.1));
    }
}

#[test]
fn search_custom_matches_plain_search() {
    let mut tree = quad_tree(2, 8);
    for i in 0..12i64 {
        tree.insert(i, Quad::new((i * 61) % 300 - 150, (i * 83) % 300 - 150, 2, 2));
    }
    let area = Quad::new(0, 0, 120, 120);
    let plain = tree.search(&area);
    let custom = tree.search_custom(&|d: &Quad| {
        d.x_min <= area.x_max && area.x_min <= d.x_max && d.y_min <= area.y_max
            && area.y_min <= d.y_max
    });
    assert_eq!(plain, custom);
    let nothing = tree.search_custom(&|_d: &Quad| false);
    assert_eq!(nothing.len(), 0);
    let everything = tree.search_custom(&|_d: &Quad| true);
    assert_eq!(everything.len(), 12);
}

#[test]
fn boundary_touch_counts_as_overlap() {
    let mut tree = quad_tree(8, 4);
    // Touches the root region exactly at x = 500: boundary-inclusive.
    assert!(!tree.insert(1, Quad::new(510, 0, 10, 10)));
    let found = tree.search(&Quad::new(499, 0, 1, 1));
    assert!(found.iter().any(|e| e.0 == 1));
    // One unit beyond: no overlap, nothing stored.
    assert!(!tree.insert(2, Quad::new(512, 0, 10, 10)));
    let all = tree.search(&Quad::new(0, 0, 500, 500));
    assert!(!all.iter().any(|e| e.0 == 2));
}

#[test]
fn empty_tree_finds_nothing() {
    let tree = quad_tree(2, 8);
    assert_eq!(tree.count(), 0);
    assert_eq!(tree.search(&Quad::new(0, 0, 500, 500)).len(), 0);
    assert!(!tree.prime().is_subdivided());
}

#[test]
fn duplicate_ids_are_kept() {
    let mut line_tree = LineTree::new(Line::new(0, 100));
    assert!(line_tree.insert(7, Line::new(10, 2)));
    assert!(line_tree.insert(7, Line::new(10, 2)));
    assert_eq!(line_tree.count(), 2);
    let found = line_tree.search(&Line::new(10, 1));
    assert_eq!(found.len(), 2);
}

#[test]
fn replay_can_cascade_subdivision() {
    let mut tree = quad_tree(2, 8);
    // All three centers sit in the same quadrant, and two of them share the
    // next cell down as well, so the split triggered by the third insert
    // cascades while the stored pairs are replayed.
    tree.insert(1, Quad::new(60, 60, 1, 1));
    tree.insert(2, Quad::new(180, 180, 1, 1));
    tree.insert(3, Quad::new(190, 190, 1, 1));
    assert_eq!(tree.count(), 3);
    let root = tree.prime();
    assert!(root.is_subdivided());
    let ne = root.subtree(3);
    assert_eq!(*ne.space(), Quad::new(250, 250, 250, 250));
    assert!(ne.is_subdivided());
    let ne_sw = ne.subtree(0);
    assert_eq!(*ne_sw.space(), Quad::new(125, 125, 125, 125));
    assert!(ne_sw.is_subdivided());
    assert!(!ne_sw.subtree(0).is_subdivided());
    // No pair was lost or duplicated on the way down.
    let mut ids: Vec<i64> = tree.search(&Quad::new(0, 0, 500, 500)).iter().map(|e| e.0).collect();
    ids.sort();
    assert_eq!(ids, vec![1, 2, 3]);
}
