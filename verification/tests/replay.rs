//! The replay window.

use javs::replay::ReplayWindow;

#[test]
fn accepts_in_order() {
    let mut w = ReplayWindow::new();
    for pid in 1..=10 {
        assert!(w.check_and_set(pid), "should accept {pid}");
    }
}

#[test]
fn rejects_duplicate() {
    let mut w = ReplayWindow::new();
    assert!(w.check_and_set(5));
    assert!(!w.check_and_set(5));
}

#[test]
fn accepts_within_window_out_of_order() {
    let mut w = ReplayWindow::new();
    assert!(w.check_and_set(10));
    assert!(w.check_and_set(8));
    assert!(w.check_and_set(9));
    // 8 and 9 are now duplicates.
    assert!(!w.check_and_set(8));
    assert!(!w.check_and_set(9));
}

#[test]
fn rejects_too_old() {
    let mut w = ReplayWindow::new();
    assert!(w.check_and_set(100));
    // 100 - WINDOW_SIZE (64) = 36 → ids <= 36 are out of window.
    assert!(!w.check_and_set(36));
    assert!(!w.check_and_set(1));
    // 37 is in-window.
    assert!(w.check_and_set(37));
}

#[test]
fn rejects_zero() {
    let mut w = ReplayWindow::new();
    assert!(!w.check_and_set(0));
}

#[test]
fn large_jump_resets_window() {
    let mut w = ReplayWindow::new();
    assert!(w.check_and_set(1));
    // A jump of >= 64 wipes the bitmap and only the new id is recorded.
    assert!(w.check_and_set(1_000));
    // 1 is now far out of window.
    assert!(!w.check_and_set(1));
    // The new id is a duplicate now.
    assert!(!w.check_and_set(1_000));
}

#[test]
fn no_id_passes_twice_whatever_comes_between() {
    let ids: Vec<u32> = vec![3, 1, 70, 2, 69, 134, 70, 71, 200, 140, 3, u32::MAX, 200, u32::MAX];
    let mut w = ReplayWindow::default();
    let mut passed: Vec<u32> = Vec::new();
    for id in ids {
        if w.check_and_set(id) {
            assert!(!passed.contains(&id));
            passed.push(id);
        }
    }
    assert_eq!(passed, vec![3, 1, 70, 69, 134, 71, 200, 140, u32::MAX]);
}

#[test]
fn window_edges() {
    let mut w = ReplayWindow::new();
    assert!(w.check_and_set(64));
    assert!(w.check_and_set(1));
    assert!(w.check_and_set(65));
    // 1 is 64 behind now, and was seen anyway; 2 is the oldest in the window.
    assert!(!w.check_and_set(1));
    assert!(w.check_and_set(2));
    assert!(!w.check_and_set(2));
    // A jump of exactly 64 forgets everything but the new id.
    assert!(w.check_and_set(129));
    assert!(!w.check_and_set(65));
    assert!(w.check_and_set(66));
}
