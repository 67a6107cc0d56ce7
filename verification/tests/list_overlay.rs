use siggy::{clamp_index, classify_list_key, scroll_layout, KeyCode, ListKeyAction};

#[test]
fn jk_navigate() {
    assert_eq!(classify_list_key(KeyCode::Char('j'), false), ListKeyAction::Down);
    assert_eq!(classify_list_key(KeyCode::Char('k'), false), ListKeyAction::Up);
    assert_eq!(classify_list_key(KeyCode::Char('j'), true), ListKeyAction::Down);
    assert_eq!(classify_list_key(KeyCode::Char('k'), true), ListKeyAction::Up);
}

#[test]
fn arrow_keys_navigate() {
    assert_eq!(classify_list_key(KeyCode::Down, false), ListKeyAction::Down);
    assert_eq!(classify_list_key(KeyCode::Up, false), ListKeyAction::Up);
}

#[test]
fn enter_selects() {
    assert_eq!(classify_list_key(KeyCode::Enter, false), ListKeyAction::Select);
}

#[test]
fn esc_closes() {
    assert_eq!(classify_list_key(KeyCode::Esc, false), ListKeyAction::Close);
}

#[test]
fn filterable_chars() {
    assert_eq!(classify_list_key(KeyCode::Char('a'), true), ListKeyAction::FilterPush('a'));
    assert_eq!(classify_list_key(KeyCode::Backspace, true), ListKeyAction::FilterPop);
}

#[test]
fn non_filterable_chars_are_none() {
    assert_eq!(classify_list_key(KeyCode::Char('a'), false), ListKeyAction::Nothing);
    assert_eq!(classify_list_key(KeyCode::Backspace, false), ListKeyAction::Nothing);
}

#[test]
fn other_keys_do_nothing() {
    assert_eq!(classify_list_key(KeyCode::Tab, true), ListKeyAction::Nothing);
    assert_eq!(classify_list_key(KeyCode::F(1), true), ListKeyAction::Nothing);
}

#[test]
fn scroll_layout_fits_viewport() {
    let (visible, offset) = scroll_layout(10, 2, 3);
    assert_eq!(visible, 8);
    assert_eq!(offset, 0);
}

#[test]
fn scroll_layout_needs_scroll() {
    let (visible, offset) = scroll_layout(10, 2, 10);
    assert_eq!(visible, 8);
    assert_eq!(offset, 3); // 10 - 8 + 1
}

#[test]
fn scroll_layout_footer_taller_than_area() {
    assert_eq!(scroll_layout(1, 2, 0), (0, 1));
    assert_eq!(scroll_layout(10, 2, 7), (8, 0));
}

#[test]
fn clamp_index_empty_list() {
    let mut idx = 5;
    clamp_index(&mut idx, 0);
    assert_eq!(idx, 0);
}

#[test]
fn clamp_index_within_bounds() {
    let mut idx = 3;
    clamp_index(&mut idx, 10);
    assert_eq!(idx, 3);
}

#[test]
fn clamp_index_over_bounds() {
    let mut idx = 15;
    clamp_index(&mut idx, 10);
    assert_eq!(idx, 9);
}

#[test]
fn scroll_layout_keeps_selection_visible() {
    for selected in 0..40usize {
        let (visible, offset) = scroll_layout(12, 2, selected);
        assert_eq!(visible, 10);
        assert!(offset <= selected && selected < offset + visible);
    }
}
