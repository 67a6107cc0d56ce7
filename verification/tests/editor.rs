use siggy::{handle_key, key_can_be_handled, EditorState, InputMode, KeyCode, KeyEffect, KeyPress, CONTROL, SHIFT};

fn state(mode: InputMode, buf: &str, cursor: usize) -> EditorState {
    EditorState {
        mode,
        input_buffer: buf.to_string(),
        input_cursor: cursor,
        scroll_offset: 0,
        should_quit: false,
    }
}

fn key(c: KeyCode) -> KeyPress {
    KeyPress { code: c, modifiers: 0 }
}

#[test]
fn global_keys() {
    let mut s = state(InputMode::Insert, "hi", 2);
    assert_eq!(handle_key(&mut s, KeyPress { code: KeyCode::Char('c'), modifiers: CONTROL }, None), KeyEffect::Nothing);
    assert!(s.should_quit);
    assert_eq!(handle_key(&mut s, key(KeyCode::Tab), None), KeyEffect::NextConversation);
    assert_eq!(
        handle_key(&mut s, KeyPress { code: KeyCode::BackTab, modifiers: SHIFT }, None),
        KeyEffect::PrevConversation
    );
    assert_eq!(
        handle_key(&mut s, KeyPress { code: KeyCode::Left, modifiers: CONTROL }, None),
        KeyEffect::ResizeSidebar(-2)
    );
    assert_eq!(
        handle_key(&mut s, KeyPress { code: KeyCode::Right, modifiers: CONTROL }, None),
        KeyEffect::ResizeSidebar(2)
    );
    handle_key(&mut s, key(KeyCode::PageUp), None);
    assert_eq!(s.scroll_offset, 5);
    handle_key(&mut s, key(KeyCode::PageDown), None);
    handle_key(&mut s, key(KeyCode::PageDown), None);
    assert_eq!(s.scroll_offset, 0);
    assert_eq!(s.input_buffer, "hi");
}

#[test]
fn normal_mode_scrolling() {
    let mut s = state(InputMode::Normal, "", 0);
    handle_key(&mut s, key(KeyCode::Char('k')), None);
    handle_key(&mut s, KeyPress { code: KeyCode::Char('u'), modifiers: CONTROL }, None);
    assert_eq!(s.scroll_offset, 11);
    handle_key(&mut s, KeyPress { code: KeyCode::Char('d'), modifiers: CONTROL }, None);
    handle_key(&mut s, key(KeyCode::Char('j')), None);
    assert_eq!(s.scroll_offset, 0);
    handle_key(&mut s, key(KeyCode::Char('g')), Some(42));
    assert_eq!(s.scroll_offset, 42);
    handle_key(&mut s, key(KeyCode::Char('g')), None);
    assert_eq!(s.scroll_offset, 42);
    handle_key(&mut s, key(KeyCode::Char('G')), None);
    assert_eq!(s.scroll_offset, 0);
    handle_key(&mut s, key(KeyCode::Char('d')), None);
    assert_eq!(s.scroll_offset, 0);
}

#[test]
fn word_motions() {
    let mut s = state(InputMode::Normal, "héllo  wörld end", 0);
    handle_key(&mut s, key(KeyCode::Char('w')), None);
    assert_eq!(s.input_cursor, 8);
    handle_key(&mut s, key(KeyCode::Char('w')), None);
    assert_eq!(s.input_cursor, 15);
    handle_key(&mut s, key(KeyCode::Char('b')), None);
    assert_eq!(s.input_cursor, 8);
    handle_key(&mut s, key(KeyCode::Char('b')), None);
    assert_eq!(s.input_cursor, 0);
    handle_key(&mut s, key(KeyCode::Char('$')), None);
    assert_eq!(s.input_cursor, 18);
    handle_key(&mut s, key(KeyCode::Char('w')), None);
    assert_eq!(s.input_cursor, 18);
}

#[test]
fn normal_mode_editing() {
    let mut s = state(InputMode::Normal, "abc", 2);
    handle_key(&mut s, key(KeyCode::Char('x')), None);
    assert_eq!((s.input_buffer.as_str(), s.input_cursor), ("ab", 1));
    handle_key(&mut s, key(KeyCode::Char('0')), None);
    handle_key(&mut s, key(KeyCode::Char('l')), None);
    handle_key(&mut s, key(KeyCode::Char('D')), None);
    assert_eq!((s.input_buffer.as_str(), s.input_cursor), ("a", 1));
    handle_key(&mut s, key(KeyCode::Char('h')), None);
    handle_key(&mut s, key(KeyCode::Char('h')), None);
    assert_eq!(s.input_cursor, 0);
    handle_key(&mut s, key(KeyCode::Esc), None);
    assert_eq!((s.input_buffer.as_str(), s.input_cursor), ("", 0));
    handle_key(&mut s, key(KeyCode::Char('/')), None);
    assert_eq!((s.input_buffer.as_str(), s.input_cursor, s.mode), ("/", 1, InputMode::Insert));
}

#[test]
fn entering_insert_mode() {
    let mut s = state(InputMode::Normal, "abc", 1);
    handle_key(&mut s, key(KeyCode::Char('a')), None);
    assert_eq!((s.input_cursor, s.mode), (2, InputMode::Insert));
    handle_key(&mut s, key(KeyCode::Esc), None);
    assert_eq!(s.mode, InputMode::Normal);
    handle_key(&mut s, key(KeyCode::Char('A')), None);
    assert_eq!(s.input_cursor, 3);
    handle_key(&mut s, key(KeyCode::Esc), None);
    handle_key(&mut s, key(KeyCode::Char('I')), None);
    assert_eq!(s.input_cursor, 0);
    handle_key(&mut s, key(KeyCode::Esc), None);
    handle_key(&mut s, key(KeyCode::Char('o')), None);
    assert_eq!((s.input_buffer.as_str(), s.input_cursor, s.mode), ("", 0, InputMode::Insert));
}

#[test]
fn insert_mode_typing() {
    let mut s = state(InputMode::Insert, "", 0);
    for c in "hey".chars() {
        handle_key(&mut s, key(KeyCode::Char(c)), None);
    }
    assert_eq!((s.input_buffer.as_str(), s.input_cursor), ("hey", 3));
    handle_key(&mut s, key(KeyCode::Left), None);
    handle_key(&mut s, key(KeyCode::Backspace), None);
    assert_eq!((s.input_buffer.as_str(), s.input_cursor), ("hy", 1));
    handle_key(&mut s, key(KeyCode::Delete), None);
    assert_eq!((s.input_buffer.as_str(), s.input_cursor), ("h", 1));
    handle_key(&mut s, key(KeyCode::Home), None);
    handle_key(&mut s, key(KeyCode::Char('é')), None);
    assert_eq!((s.input_buffer.as_str(), s.input_cursor), ("éh", 1));
    handle_key(&mut s, key(KeyCode::End), None);
    assert_eq!(s.input_cursor, 3);
    assert_eq!(handle_key(&mut s, key(KeyCode::Enter), None), KeyEffect::Submit);
    assert_eq!(s.input_buffer, "éh");
}

#[test]
fn ascii_buffer_stays_ascii() {
    let keys = [
        key(KeyCode::Char('a')),
        key(KeyCode::Char(' ')),
        key(KeyCode::Char('b')),
        key(KeyCode::Left),
        key(KeyCode::Backspace),
        key(KeyCode::Delete),
        key(KeyCode::Home),
        key(KeyCode::Char('z')),
        key(KeyCode::Esc),
        key(KeyCode::Char('w')),
        key(KeyCode::Char('x')),
        key(KeyCode::Char('b')),
        key(KeyCode::Char('D')),
        key(KeyCode::Char('A')),
        key(KeyCode::Char('!')),
        key(KeyCode::End),
        key(KeyCode::Esc),
        key(KeyCode::Char('/')),
        key(KeyCode::Char('q')),
    ];
    let mut s = state(InputMode::Insert, "one two", 3);
    for k in keys {
        handle_key(&mut s, k, Some(4));
        assert!(s.input_buffer.is_ascii());
        assert!(s.input_cursor <= s.input_buffer.len());
    }
}

#[test]
fn keys_that_would_cut_a_character_are_refused() {
    let inside = state(InputMode::Insert, "héllo", 2);
    assert!(!key_can_be_handled(&inside, key(KeyCode::Char('x'))));
    assert!(!key_can_be_handled(&inside, key(KeyCode::Delete)));
    assert!(key_can_be_handled(&inside, key(KeyCode::Left)));
    assert!(key_can_be_handled(&inside, key(KeyCode::PageUp)));
    let between = state(InputMode::Insert, "héllo", 3);
    assert!(key_can_be_handled(&between, key(KeyCode::Char('x'))));
    assert!(!key_can_be_handled(&between, key(KeyCode::Backspace)));
    let normal = state(InputMode::Normal, "héllo", 2);
    assert!(!key_can_be_handled(&normal, key(KeyCode::Char('x'))));
    assert!(key_can_be_handled(&normal, key(KeyCode::Char('D'))) == false);
    assert!(key_can_be_handled(&normal, key(KeyCode::Char('h'))));
    let past_end = state(InputMode::Normal, "ab", 5);
    assert!(key_can_be_handled(&past_end, key(KeyCode::Char('x'))));
    assert!(!key_can_be_handled(&past_end, key(KeyCode::Char('b'))));
}
