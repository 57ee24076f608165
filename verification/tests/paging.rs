use lll::window::{LllPageState, LllPanel};

#[test]
fn window_holds_the_cursor_for_every_small_case() {
    for len in 1usize..12 {
        for rows in 1usize..8 {
            for offset in 0usize..5 {
                for start in 0usize..12 {
                    for index in 0..len {
                        let mut state = LllPageState { start, end: start };
                        state.update_page_state(index, rows, len, offset);
                        assert!(state.start <= index, "start {} index {}", state.start, index);
                        assert!(index < state.end);
                        assert!(state.end - state.start <= rows);
                        assert!(state.end <= len);
                    }
                }
            }
        }
    }
}

#[test]
fn window_stays_while_the_cursor_is_inside() {
    let mut state = LllPageState { start: 10, end: 20 };
    state.update_page_state(14, 10, 100, 2);
    assert_eq!((state.start, state.end), (10, 20));
}

#[test]
fn window_follows_the_cursor_down_and_up() {
    let mut state = LllPageState { start: 0, end: 10 };
    state.update_page_state(12, 10, 100, 2);
    assert_eq!((state.start, state.end), (5, 15));
    state.update_page_state(3, 10, 100, 2);
    assert_eq!((state.start, state.end), (1, 11));
    state.update_page_state(0, 10, 100, 2);
    assert_eq!((state.start, state.end), (0, 10));
}

#[test]
fn window_stops_at_the_end_of_the_listing() {
    let mut state = LllPageState::new();
    state.update_page_state(99, 10, 100, 6);
    assert_eq!((state.start, state.end), (90, 100));
    let mut short = LllPageState { start: 3, end: 3 };
    short.update_page_state(2, 10, 4, 6);
    assert_eq!((short.start, short.end), (0, 4));
}

#[test]
fn large_scroll_offset_is_cut_to_half_the_window() {
    let mut state = LllPageState::new();
    state.update_page_state(50, 5, 100, 40);
    assert_eq!((state.start, state.end), (48, 53));
}

#[test]
fn window_is_empty_without_rows_or_entries() {
    let mut state = LllPageState { start: 4, end: 9 };
    state.update_page_state(3, 0, 10, 2);
    assert_eq!((state.start, state.end), (0, 0));
    let mut other = LllPageState { start: 4, end: 9 };
    other.update_page_state(0, 5, 0, 2);
    assert_eq!((other.start, other.end), (0, 0));
}

#[test]
fn cursor_behind_the_listing_counts_as_the_last_entry() {
    let mut state = LllPageState::new();
    state.update_page_state(500, 10, 20, 0);
    assert_eq!((state.start, state.end), (10, 20));
}

#[test]
fn new_page_state_is_empty() {
    let state = LllPageState::new();
    assert_eq!((state.start, state.end), (0, 0));
    let other = LllPageState::default();
    assert_eq!((other.start, other.end), (0, 0));
}

#[test]
fn panel_rows() {
    assert_eq!(LllPanel::new(24, 80).row_count(), 24);
    assert_eq!(LllPanel::new(0, 80).row_count(), 0);
    assert_eq!(LllPanel::new(-3, 80).row_count(), 0);
}
