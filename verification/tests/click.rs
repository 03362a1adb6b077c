use herdr_copy_search::click::{next_count, ClickTracker};

#[test]
fn rapid_same_cell_presses_count_up_and_clamp_at_three() {
    let mut t = ClickTracker::default();
    assert_eq!(t.press(5, 2, 0), 1);
    assert_eq!(t.press(5, 2, 100), 2);
    assert_eq!(t.press(5, 2, 200), 3);
    assert_eq!(t.press(5, 2, 300), 3, "a 4th click stays 3");
}

#[test]
fn window_measures_from_the_previous_press() {
    let mut t = ClickTracker::default();
    assert_eq!(t.press(0, 0, 0), 1);
    assert_eq!(t.press(0, 0, 350), 2);
    assert_eq!(t.press(0, 0, 700), 3);
}

#[test]
fn slow_press_resets_the_run() {
    let mut t = ClickTracker::default();
    assert_eq!(t.press(5, 2, 0), 1);
    assert_eq!(t.press(5, 2, 400), 1, "window is strict <400ms");
}

#[test]
fn different_cell_resets_the_run() {
    let mut t = ClickTracker::default();
    assert_eq!(t.press(5, 2, 0), 1);
    assert_eq!(t.press(6, 2, 100), 1, "new cell starts over");
    assert_eq!(t.press(6, 2, 200), 2, "and owns its own run");
}

#[test]
fn next_count_table() {
    assert_eq!(next_count(0, true, true), 1);
    assert_eq!(next_count(1, true, true), 2);
    assert_eq!(next_count(2, true, true), 3);
    assert_eq!(next_count(3, true, true), 3);
    assert_eq!(next_count(2, false, true), 1);
    assert_eq!(next_count(2, true, false), 1);
}

#[test]
fn clock_going_back_counts_as_no_time() {
    let mut t = ClickTracker::default();
    assert_eq!(t.press(1, 1, 1_000), 1);
    assert_eq!(t.press(1, 1, 500), 2);
}
