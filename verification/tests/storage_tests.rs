use engine_core::storage::HandleTracker;

#[test]
fn elements_without_handles_go_at_the_end_of_the_frame() {
    let mut t = HandleTracker::new();
    t.insert(1);
    t.insert(2);
    t.clone_handle(2);
    assert_eq!(t.count(2), Some(2));
    t.drop_handle(1);
    t.drop_handle(2);
    assert_eq!(t.count(1), Some(0));
    // Nothing goes before the end of the frame.
    assert_eq!(t.count(2), Some(1));
    let removed = t.end_frame();
    assert_eq!(removed, vec![1]);
    assert_eq!(t.count(1), None);
    assert_eq!(t.count(2), Some(1));
    t.drop_handle(2);
    assert_eq!(t.end_frame(), vec![2]);
    assert!(t.end_frame().is_empty());
}
