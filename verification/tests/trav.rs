use spatial_tree::TravIndex;
use spatial_tree::TravLineDirection;

#[test]
fn trav_index_starts_empty() {
    let idx: TravIndex<TravLineDirection> = TravIndex::new();
    assert_eq!(idx.depth(), 0);
    assert_eq!(idx.direciton().len(), 0);
}

#[test]
fn trav_index_add_descends() {
    let idx: TravIndex<TravLineDirection> = TravIndex::new();
    let idx = idx.add(TravLineDirection::Left);
    let idx = idx.add(TravLineDirection::Right);
    assert_eq!(idx.depth(), 2);
    assert_eq!(idx.direciton().len(), 2);
    assert!(matches!(idx.direciton()[0], TravLineDirection::Left));
    assert!(matches!(idx.direciton()[1], TravLineDirection::Right));
}
