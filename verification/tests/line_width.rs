use bevscode::line_width::LineWidthTracker;
use ropey::Rope;

#[test]
fn test_empty_rope() {
    let rope = Rope::from_str("");
    let tracker = LineWidthTracker::from_rope(&rope);
    assert_eq!(tracker.max_width(), 0);
}

#[test]
fn test_initial_max_is_zero() {
    // With viewport-based approach, initial max is 0
    let rope = Rope::from_str("hello world");
    let tracker = LineWidthTracker::from_rope(&rope);
    assert_eq!(tracker.max_width(), 0); // Not yet seen any lines
}

#[test]
fn test_update_visible_range() {
    let rope = Rope::from_str("short\nthis is a longer line\nmed");
    let mut tracker = LineWidthTracker::from_rope(&rope);

    // Initially 0
    assert_eq!(tracker.max_width(), 0);

    // After seeing all lines
    tracker.update_visible_range(&rope, 0, 3);
    assert_eq!(tracker.max_width(), 21); // "this is a longer line"
}

#[test]
fn test_incremental_discovery() {
    let rope = Rope::from_str("short\nthis is a longer line\nmed");
    let mut tracker = LineWidthTracker::from_rope(&rope);

    // See only first line
    tracker.update_visible_range(&rope, 0, 1);
    assert_eq!(tracker.max_width(), 5); // "short"

    // Now see the longer line
    tracker.update_visible_range(&rope, 1, 2);
    assert_eq!(tracker.max_width(), 21); // Updated to longer line
}

#[test]
fn test_update_line() {
    let rope = Rope::from_str("short\nlong line here\nmed");
    let mut tracker = LineWidthTracker::from_rope(&rope);
    tracker.update_visible_range(&rope, 0, 3);
    assert_eq!(tracker.max_width(), 14); // "long line here"

    // Typing makes a line longer
    tracker.update_line(1, 20);
    assert_eq!(tracker.max_width(), 20);
}
