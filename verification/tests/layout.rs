use hangman::layout::Layout;
use hangman::tracker::Tracker;

fn small_layout() -> Layout {
    let rows: Vec<Vec<char>> = vec![vec!['a', 'b'], vec!['c', 'd', 'e']];
    Layout::new(rows).unwrap()
}

#[test]
fn layout_reports_its_shape() {
    let layout = small_layout();
    assert_eq!(layout.num_rows(), 2);
    assert_eq!(layout.row_len(0), 2);
    assert_eq!(layout.row_len(1), 3);
    assert_eq!(layout.char_at(0, 1), 'b');
    assert_eq!(layout.char_at(1, 2), 'e');
}

#[test]
fn find_cell_is_case_insensitive() {
    let layout = small_layout();
    assert_eq!(layout.find_cell('a'), Some((0, 0)));
    assert_eq!(layout.find_cell('A'), Some((0, 0)));
    assert_eq!(layout.find_cell('d'), Some((1, 1)));
    assert_eq!(layout.find_cell('x'), None);
}

#[test]
fn fresh_tracker_is_all_available_and_marks_stick() {
    let layout = small_layout();
    let mut tracker = Tracker::new(&layout);
    assert_eq!(tracker.num_rows(), 2);
    assert_eq!(tracker.row_len(1), 3);
    assert!(tracker.is_available(0, 0));
    assert!(tracker.is_available(1, 2));
    tracker.mark_guessed(1, 2);
    assert!(!tracker.is_available(1, 2));
    tracker.mark_guessed(1, 2);
    assert!(!tracker.is_available(1, 2));
    assert!(tracker.is_available(0, 0));
    assert!(tracker.is_available(1, 0));
    assert!(tracker.is_available(1, 1));
}
