use memoradical::history::{history_capacity, HistoryWindow};

#[test]
fn capacity_is_rounded_log2() {
    // round(log2(n)), with 0 for n <= 1.
    let expected = [
        (0usize, 0usize),
        (1, 0),
        (2, 1),
        (3, 2),
        (4, 2),
        (5, 2),
        (6, 3),
        (7, 3),
        (8, 3),
        (11, 3),
        (12, 4),
        (16, 4),
        (23, 5),
        (1024, 10),
    ];
    for (n, cap) in expected {
        assert_eq!(history_capacity(n), cap, "capacity of {}", n);
    }
}

#[test]
fn push_evicts_oldest_beyond_capacity() {
    // With 8 cards the capacity is 3.
    let mut w = HistoryWindow::new();
    for pos in [0usize, 1, 2, 3, 4] {
        w.push(pos, 8);
    }
    assert_eq!(w.len(), 3);
    // The window keeps the newest entries: 2, 3, 4.
    assert!(!w.contains(0));
    assert!(!w.contains(1));
    assert!(w.contains(2));
    assert!(w.contains(3));
    assert!(w.contains(4));
}

#[test]
fn capacity_zero_for_single_card() {
    let mut w = HistoryWindow::new();
    w.push(0, 1);
    assert_eq!(w.len(), 0);
}

#[test]
fn pop_last_is_lifo() {
    let mut w = HistoryWindow::new();
    w.push(4, 100);
    w.push(7, 100);
    w.push(9, 100);
    assert_eq!(w.pop_last(), Some(9));
    assert_eq!(w.pop_last(), Some(7));
    assert_eq!(w.pop_last(), Some(4));
    assert_eq!(w.pop_last(), None);
}

#[test]
fn clear_empties_the_window() {
    let mut w = HistoryWindow::new();
    w.push(1, 50);
    w.push(2, 50);
    w.clear();
    assert_eq!(w.len(), 0);
    assert!(!w.contains(1));
}
