use spatial_tree::Line;
use spatial_tree::Node;
use spatial_tree::TNode;

#[test]
fn node_used_directly() {
    let mut n: TNode<u32, 2, Line> = TNode::new(Line::new(0, 100), 3, 2);
    assert!(n.insert(1, Line::new(-50, 5)));
    assert!(!n.is_subdivided());
    n.subdivide();
    assert!(n.is_subdivided());
    assert_eq!(*n.subtree(0).space(), Line { min: -100, max: 0 });
    assert_eq!(*n.subtree(1).space(), Line { min: 0, max: 100 });
    // The replayed pair sits in the lower half only.
    let mut buf: Vec<(u32, Line)> = Vec::new();
    n.search(&Line::new(-50, 1), &mut buf);
    assert_eq!(buf, vec![(1, Line { min: -55, max: -45 })]);
    // A query that misses the lower half finds nothing.
    let mut high: Vec<(u32, Line)> = Vec::new();
    n.search(&Line::new(50, 10), &mut high);
    assert_eq!(high.len(), 0);
    // The custom coverage test drives the same traversal.
    let mut custom: Vec<(u32, Line)> = Vec::new();
    n.search_with(&|d: &Line| d.min <= -100, &mut custom);
    assert_eq!(custom, vec![(1, Line { min: -55, max: -45 })]);
    n.clear();
    let mut after: Vec<(u32, Line)> = Vec::new();
    n.search(&Line::new(0, 100), &mut after);
    assert_eq!(after.len(), 0);
    // Clearing keeps the topology.
    assert!(n.is_subdivided());
}
