use device_scanner::flush_tracker::FlushTracker;

#[test]
fn test_creation() {
    let xs = vec![1, 3, 4, 6];

    let ft = FlushTracker::new(xs, 10);

    assert_eq!(ft.len(), 4);
    for id in [1, 3, 4, 6] {
        assert!(ft.contains(id));
        assert_eq!(ft.slice_point(id), 0);
    }
    assert!(!ft.contains(2));
    assert_eq!(ft, FlushTracker::new(vec![6, 4, 3, 1], 10));
    assert_ne!(ft, FlushTracker::new(vec![1, 3, 4], 10));
    assert_ne!(ft, FlushTracker::new(vec![1, 3, 4, 6], 11));
}

#[test]
fn test_has_more() {
    let mut ft = FlushTracker::new(vec![1], 10);

    assert!(ft.has_more());

    ft.advance(1, 5);

    assert!(ft.has_more());

    ft.advance(1, 4);

    assert!(ft.has_more());

    ft.advance(1, 1);

    assert_eq!(ft.has_more(), false);

    assert_eq!(ft.len(), 0)
}

#[test]
fn test_remove() {
    let mut ft = FlushTracker::new(vec![1], 10);

    ft.remove(1);

    assert_eq!(ft.has_more(), false);

    assert_eq!(ft.len(), 0)
}

#[test]
fn advance_moves_only_the_writer_that_wrote() {
    let mut ft = FlushTracker::new(vec![1, 2], 10);
    ft.advance(1, 3);
    assert_eq!(ft.slice_point(1), 3);
    assert_eq!(ft.slice_point(2), 0);
    ft.advance(2, 9);
    assert_eq!(ft.slice_point(1), 3);
    assert_eq!(ft.slice_point(2), 9);
}

#[test]
fn advance_drops_the_writer_that_is_done() {
    let mut ft = FlushTracker::new(vec![1, 2], 10);
    ft.advance(1, 10);
    assert!(!ft.contains(1));
    assert!(ft.contains(2));
    assert!(ft.has_more());
}

#[test]
fn advance_past_the_largest_number_drops_the_writer() {
    let mut ft = FlushTracker::new(vec![1], usize::MAX);
    ft.advance(1, usize::MAX - 1);
    assert_eq!(ft.slice_point(1), usize::MAX - 1);
    ft.advance(1, usize::MAX);
    assert!(!ft.contains(1));
}

#[test]
fn a_writer_that_is_named_twice_is_tracked_once() {
    let ft = FlushTracker::new(vec![4, 4, 5], 3);
    assert_eq!(ft.len(), 2);
}

#[test]
fn a_tracker_of_an_empty_buffer_has_no_more() {
    let mut ft = FlushTracker::new(vec![1, 2], 0);
    assert!(!ft.has_more());
    ft.advance(1, 0);
    assert_eq!(ft.len(), 0);
}

#[test]
fn remove_leaves_the_other_writers() {
    let mut ft = FlushTracker::new(vec![1, 2, 3], 10);
    ft.advance(3, 4);
    ft.remove(2);
    ft.remove(7);
    assert_eq!(ft.len(), 2);
    assert_eq!(ft.slice_point(1), 0);
    assert_eq!(ft.slice_point(3), 4);
}
