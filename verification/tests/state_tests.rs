use gjtv::state::LaunchState;

#[test]
fn previous_tab_wraps_to_last() {
    let mut s = LaunchState { current_tab: 0, current_selection: 3 };
    let redraw = s.previous_tab(4);
    assert!(redraw);
    assert_eq!(s.current_tab, 3);
    assert_eq!(s.current_selection, 0);
}

#[test]
fn next_tab_wraps_to_first() {
    let mut s = LaunchState { current_tab: 3, current_selection: 1 };
    let redraw = s.next_tab(4);
    assert!(redraw);
    assert_eq!(s.current_tab, 0);
    assert_eq!(s.current_selection, 0);
}

#[test]
fn tab_round_trip_restores_tab_and_resets_selection() {
    for count in 1..5usize {
        for tab in 0..count {
            let mut s = LaunchState { current_tab: tab, current_selection: 2 };
            s.previous_tab(count);
            s.next_tab(count);
            assert_eq!(s.current_tab, tab);
            assert_eq!(s.current_selection, 0);

            let mut s = LaunchState { current_tab: tab, current_selection: 2 };
            s.next_tab(count);
            s.previous_tab(count);
            assert_eq!(s.current_tab, tab);
            assert_eq!(s.current_selection, 0);
        }
    }
}

#[test]
fn single_tab_wraps_to_itself() {
    let mut s = LaunchState { current_tab: 0, current_selection: 0 };
    assert!(s.next_tab(1));
    assert_eq!(s.current_tab, 0);
    assert!(s.previous_tab(1));
    assert_eq!(s.current_tab, 0);
}

#[test]
fn previous_item_at_zero_is_a_no_op() {
    let mut s = LaunchState { current_tab: 2, current_selection: 0 };
    let redraw = s.previous_item();
    assert!(!redraw);
    assert_eq!(s.current_tab, 2);
    assert_eq!(s.current_selection, 0);
}

#[test]
fn previous_item_moves_up() {
    let mut s = LaunchState { current_tab: 0, current_selection: 2 };
    let redraw = s.previous_item();
    assert!(redraw);
    assert_eq!(s.current_selection, 1);
}

#[test]
fn next_item_moves_down_and_clamps_at_last_row() {
    let mut s = LaunchState { current_tab: 0, current_selection: 0 };
    assert!(s.next_item(2));
    assert_eq!(s.current_selection, 1);
    // Already on the last of 2 rows: no move, no redraw.
    assert!(!s.next_item(2));
    assert_eq!(s.current_selection, 1);
}

#[test]
fn next_item_on_empty_tab_is_a_no_op() {
    let mut s = LaunchState { current_tab: 0, current_selection: 0 };
    assert!(!s.next_item(0));
    assert_eq!(s.current_selection, 0);
}
