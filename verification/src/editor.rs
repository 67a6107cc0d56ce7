//! Vim-style editing of the input line and the global key bindings.
//!
//! The input buffer is text; its cursor is a byte offset into the UTF-8
//! encoding of that text, as `String` indices are.

use vstd::prelude::*;
use vstd::utf8::{encode_scalar, encode_utf8};

use crate::input::{is_whitespace, is_whitespace_char};
use crate::keys::KeyCode;
use crate::text::{chars_of, string_of};

verus! {

broadcast use vstd::string::group_string_axioms;

/// Bytes in the UTF-8 encoding of `c`.
pub open spec fn utf8_width(c: char) -> nat {
    encode_scalar(c as u32).len()
}

/// Bytes in the UTF-8 encoding of `s`.
pub open spec fn byte_len(s: Seq<char>) -> nat {
    encode_utf8(s).len()
}

/// Byte offset of the `k`-th character of `s`.
pub open spec fn byte_offset(s: Seq<char>, k: int) -> nat {
    encode_utf8(s.take(k)).len()
}

/// Byte offset `p` falls between two characters of `s` (or at either end).
pub open spec fn is_boundary(s: Seq<char>, p: int) -> bool {
    exists|k: int| 0 <= k <= s.len() && byte_offset(s, k) == p
}

/// The character index whose byte offset is `p` (meaningful when `is_boundary(s, p)`).
pub open spec fn char_index(s: Seq<char>, p: int) -> int {
    choose|k: int| 0 <= k <= s.len() && byte_offset(s, k) == p
}

/// Encoding distributes over concatenation.
pub proof fn lemma_encode_concat(a: Seq<char>, b: Seq<char>)
    ensures
        encode_utf8(a + b) == encode_utf8(a) + encode_utf8(b),
    decreases a.len(),
{
    if a.len() == 0 {
        assert(a + b =~= b);
    } else {
        lemma_encode_concat(a.drop_first(), b);
        assert((a + b).drop_first() =~= a.drop_first() + b);
        assert((a + b)[0] == a[0]);
    }
}

/// A character takes one to four bytes.
pub proof fn lemma_width_bounds(c: char)
    ensures
        1 <= utf8_width(c) <= 4,
{
    vstd::utf8::char_is_scalar(c);
}

/// Offsets grow by the width of each character.
pub proof fn lemma_offset_step(s: Seq<char>, k: int)
    requires
        0 <= k < s.len(),
    ensures
        byte_offset(s, k + 1) == byte_offset(s, k) + utf8_width(s[k]),
{
    assert(s.take(k + 1) =~= s.take(k) + seq![s[k]]);
    lemma_encode_concat(s.take(k), seq![s[k]]);
    let t = seq![s[k]];
    assert(t.drop_first() =~= Seq::<char>::empty());
    assert(encode_utf8(t.drop_first()) =~= Seq::<u8>::empty());
    assert(encode_utf8(t) == encode_scalar(t[0] as u32) + encode_utf8(t.drop_first()));
    assert(encode_utf8(t) =~= encode_scalar(s[k] as u32));
}

/// Offsets are strictly increasing.
pub proof fn lemma_offset_monotone(s: Seq<char>, i: int, j: int)
    requires
        0 <= i <= j <= s.len(),
    ensures
        byte_offset(s, i) + (j - i) <= byte_offset(s, j),
    decreases j - i,
{
    if i < j {
        lemma_offset_step(s, j - 1);
        lemma_width_bounds(s[j - 1]);
        lemma_offset_monotone(s, i, j - 1);
    }
}

/// Offsets end at the byte length.
pub proof fn lemma_offset_bound(s: Seq<char>, j: int)
    requires
        0 <= j <= s.len(),
    ensures
        byte_offset(s, j) <= byte_len(s),
        byte_offset(s, s.len() as int) == byte_len(s),
{
    assert(s.take(s.len() as int) =~= s);
    lemma_offset_monotone(s, j, s.len() as int);
}

/// The character index of a boundary is unique.
pub proof fn lemma_char_index_unique(s: Seq<char>, k: int, p: int)
    requires
        0 <= k <= s.len(),
        byte_offset(s, k) == p,
    ensures
        is_boundary(s, p),
        char_index(s, p) == k,
{
    let c = char_index(s, p);
    if c < k {
        lemma_offset_monotone(s, c, k);
    } else if k < c {
        lemma_offset_monotone(s, k, c);
    }
}

/// Bytes in the UTF-8 encoding of `c`.
pub fn char_width(c: char) -> (w: usize)
    ensures
        w == utf8_width(c),
{
    proof {
        vstd::utf8::char_is_scalar(c);
    }
    let u = c as u32;
    if u <= 0x7F {
        1
    } else if u <= 0x7FF {
        2
    } else if u <= 0xFFFF {
        3
    } else {
        4
    }
}

/// The character index at byte offset `p` of `v`, if `p` is a boundary.
fn index_at_offset(v: &Vec<char>, p: usize) -> (r: Option<usize>)
    ensures
        match r {
            Some(k) => k <= v@.len() && byte_offset(v@, k as int) == p && char_index(v@, p as int)
                == k,
            None => !is_boundary(v@, p as int),
        },
{
    let mut k: usize = 0;
    let mut off: usize = 0;
    assert(v@.take(0) =~= Seq::<char>::empty());
    while k < v.len() && off < p
        invariant
            k <= v@.len(),
            off == byte_offset(v@, k as int),
            off <= p,
        decreases v.len() - k,
    {
        proof {
            lemma_offset_step(v@, k as int);
        }
        let w = char_width(v[k]);
        if w > p - off {
            proof {
                assert forall|j: int| 0 <= j <= v@.len() implies byte_offset(v@, j) != p by {
                    if j <= k {
                        lemma_offset_monotone(v@, j, k as int);
                    } else {
                        lemma_offset_monotone(v@, k + 1, j);
                    }
                }
            }
            return None;
        }
        off = off + w;
        k += 1;
    }
    if off == p {
        proof {
            lemma_char_index_unique(v@, k as int, p as int);
        }
        Some(k)
    } else {
        proof {
            assert(k == v@.len());
            assert forall|j: int| 0 <= j <= v@.len() implies byte_offset(v@, j) != p by {
                lemma_offset_monotone(v@, j, k as int);
            }
        }
        None
    }
}


/// Input mode of the line editor.
#[derive(Debug, Clone, Copy, PartialEq, Eq)]
pub enum InputMode {
    Normal,
    Insert,
}

/// Modifier bits of a key press (the bit values that crossterm uses).
pub const SHIFT: u8 = 0b0000_0001;
pub const CONTROL: u8 = 0b0000_0010;
pub const ALT: u8 = 0b0000_0100;

/// A key press: the key and the exact set of modifiers held.
#[derive(Debug, Clone, Copy, PartialEq, Eq)]
pub struct KeyPress {
    pub code: KeyCode,
    pub modifiers: u8,
}

/// What the rest of the application is asked to do after a key.
#[derive(Debug, Clone, Copy, PartialEq, Eq)]
pub enum KeyEffect {
    /// Nothing beyond the change to the editor state.
    Nothing,
    /// Switch to the next conversation.
    NextConversation,
    /// Switch to the previous conversation.
    PrevConversation,
    /// Widen (positive) or narrow (negative) the sidebar by this many columns.
    ResizeSidebar(i16),
    /// Submit the input line.
    Submit,
}

/// The part of the application state that keys edit.
pub struct EditorState {
    pub mode: InputMode,
    pub input_buffer: String,
    /// Byte offset into `input_buffer`.
    pub input_cursor: usize,
    /// How many messages the view is scrolled up from the bottom.
    pub scroll_offset: usize,
    pub should_quit: bool,
}

/// An [`EditorState`] with its buffer taken as characters.
pub struct EditorView {
    pub mode: InputMode,
    pub buffer: Seq<char>,
    pub cursor: nat,
    pub scroll: nat,
    pub quit: bool,
}

impl View for EditorState {
    type V = EditorView;

    open spec fn view(&self) -> EditorView {
        EditorView {
            mode: self.mode,
            buffer: self.input_buffer@,
            cursor: self.input_cursor as nat,
            scroll: self.scroll_offset as nat,
            quit: self.should_quit,
        }
    }
}

pub open spec fn sat_add(a: nat, b: nat) -> nat {
    if a + b <= usize::MAX {
        a + b
    } else {
        usize::MAX as nat
    }
}

pub open spec fn sat_sub(a: nat, b: nat) -> nat {
    if a >= b {
        (a - b) as nat
    } else {
        0
    }
}

/// First index at or after `k` whose character is white space (or `s.len()`).
pub open spec fn skip_word(s: Seq<char>, k: int) -> int
    decreases s.len() - k,
{
    if 0 <= k < s.len() && !is_whitespace(s[k]) {
        skip_word(s, k + 1)
    } else {
        k
    }
}

/// First index at or after `k` whose character is not white space (or `s.len()`).
pub open spec fn skip_space(s: Seq<char>, k: int) -> int
    decreases s.len() - k,
{
    if 0 <= k < s.len() && is_whitespace(s[k]) {
        skip_space(s, k + 1)
    } else {
        k
    }
}

/// Moving left from `k`: the first index whose left neighbour is not white space (or 0).
pub open spec fn back_space(s: Seq<char>, k: int) -> int
    decreases k,
{
    if 0 < k <= s.len() && is_whitespace(s[k - 1]) {
        back_space(s, k - 1)
    } else {
        k
    }
}

/// Moving left from `k`: the first index whose left neighbour is white space (or 0).
pub open spec fn back_word(s: Seq<char>, k: int) -> int
    decreases k,
{
    if 0 < k <= s.len() && !is_whitespace(s[k - 1]) {
        back_word(s, k - 1)
    } else {
        k
    }
}

/// `w`: the byte offset of the start of the next word after the cursor.
pub open spec fn word_forward(s: Seq<char>, cursor: nat) -> nat {
    if cursor < byte_len(s) {
        byte_offset(s, skip_space(s, skip_word(s, char_index(s, cursor as int))))
    } else {
        cursor
    }
}

/// `b`: the byte offset of the start of the word before the cursor.
pub open spec fn word_back(s: Seq<char>, cursor: nat) -> nat {
    if cursor > 0 {
        byte_offset(s, back_word(s, back_space(s, char_index(s, cursor as int))))
    } else {
        cursor
    }
}

/// The state after a key in Normal mode (no global binding applied).
pub open spec fn normal_key(s: EditorView, key: KeyPress, active_len: Option<usize>) -> EditorView {
    let n = byte_len(s.buffer);
    let k = char_index(s.buffer, s.cursor as int);
    match key.code {
        KeyCode::Char('j') => EditorView { scroll: sat_sub(s.scroll, 1), ..s },
        KeyCode::Char('k') => EditorView { scroll: sat_add(s.scroll, 1), ..s },
        KeyCode::Char('d') if key.modifiers == CONTROL => EditorView {
            scroll: sat_sub(s.scroll, 10),
            ..s
        },
        KeyCode::Char('u') if key.modifiers == CONTROL => EditorView {
            scroll: sat_add(s.scroll, 10),
            ..s
        },
        KeyCode::Char('g') => match active_len {
            Some(len) => EditorView { scroll: len as nat, ..s },
            None => s,
        },
        KeyCode::Char('G') => EditorView { scroll: 0, ..s },
        KeyCode::Char('i') => EditorView { mode: InputMode::Insert, ..s },
        KeyCode::Char('a') => EditorView {
            mode: InputMode::Insert,
            cursor: if s.cursor < n { s.cursor + 1 } else { s.cursor },
            ..s
        },
        KeyCode::Char('I') => EditorView { mode: InputMode::Insert, cursor: 0, ..s },
        KeyCode::Char('A') => EditorView { mode: InputMode::Insert, cursor: n, ..s },
        KeyCode::Char('o') => EditorView {
            mode: InputMode::Insert,
            buffer: seq![],
            cursor: 0,
            ..s
        },
        KeyCode::Char('h') => EditorView { cursor: sat_sub(s.cursor, 1), ..s },
        KeyCode::Char('l') => EditorView {
            cursor: if s.cursor < n { s.cursor + 1 } else { s.cursor },
            ..s
        },
        KeyCode::Char('0') => EditorView { cursor: 0, ..s },
        KeyCode::Char('$') => EditorView { cursor: n, ..s },
        KeyCode::Char('w') => EditorView { cursor: word_forward(s.buffer, s.cursor), ..s },
        KeyCode::Char('b') => EditorView { cursor: word_back(s.buffer, s.cursor), ..s },
        KeyCode::Char('x') => if s.cursor < n {
            let b = s.buffer.remove(k);
            let m = byte_len(b);
            EditorView {
                buffer: b,
                cursor: if s.cursor > 0 && s.cursor >= m { sat_sub(m, 1) } else { s.cursor },
                ..s
            }
        } else {
            s
        },
        KeyCode::Char('D') => if s.cursor <= n {
            EditorView { buffer: s.buffer.take(k), ..s }
        } else {
            s
        },
        KeyCode::Char('/') => EditorView {
            mode: InputMode::Insert,
            buffer: seq!['/'],
            cursor: 1,
            ..s
        },
        KeyCode::Esc => if s.buffer.len() > 0 {
            EditorView { buffer: seq![], cursor: 0, ..s }
        } else {
            s
        },
        _ => s,
    }
}

/// The state and effect after a key in Insert mode (no global binding applied).
pub open spec fn insert_key(s: EditorView, key: KeyPress) -> (EditorView, KeyEffect) {
    let n = byte_len(s.buffer);
    match key.code {
        KeyCode::Esc => (EditorView { mode: InputMode::Normal, ..s }, KeyEffect::Nothing),
        KeyCode::Enter => (s, KeyEffect::Submit),
        KeyCode::Backspace => if s.cursor > 0 {
            let c = (s.cursor - 1) as nat;
            (
                EditorView {
                    buffer: s.buffer.remove(char_index(s.buffer, c as int)),
                    cursor: c,
                    ..s
                },
                KeyEffect::Nothing,
            )
        } else {
            (s, KeyEffect::Nothing)
        },
        KeyCode::Delete => if s.cursor < n {
            (
                EditorView { buffer: s.buffer.remove(char_index(s.buffer, s.cursor as int)), ..s },
                KeyEffect::Nothing,
            )
        } else {
            (s, KeyEffect::Nothing)
        },
        KeyCode::Left => (EditorView { cursor: sat_sub(s.cursor, 1), ..s }, KeyEffect::Nothing),
        KeyCode::Right => (
            EditorView { cursor: if s.cursor < n { s.cursor + 1 } else { s.cursor }, ..s },
            KeyEffect::Nothing,
        ),
        KeyCode::Home => (EditorView { cursor: 0, ..s }, KeyEffect::Nothing),
        KeyCode::End => (EditorView { cursor: n, ..s }, KeyEffect::Nothing),
        KeyCode::Char(ch) => (
            EditorView {
                buffer: s.buffer.insert(char_index(s.buffer, s.cursor as int), ch),
                cursor: s.cursor + 1,
                ..s
            },
            KeyEffect::Nothing,
        ),
        _ => (s, KeyEffect::Nothing),
    }
}

/// The state and effect after `key`: the global bindings (Ctrl+C quits,
/// Tab and Shift+BackTab switch conversation, Ctrl+Left/Right resize the
/// sidebar by 2, PageUp/PageDown scroll by 5) come first, then those of
/// the mode.  `active_len` is the number of messages of the active
/// conversation, if there is one (`g` scrolls to its top).
pub open spec fn spec_handle_key(s: EditorView, key: KeyPress, active_len: Option<usize>) -> (
    EditorView,
    KeyEffect,
) {
    let m = key.modifiers;
    if m == CONTROL && key.code == KeyCode::Char('c') {
        (EditorView { quit: true, ..s }, KeyEffect::Nothing)
    } else if m == 0 && key.code == KeyCode::Tab {
        (s, KeyEffect::NextConversation)
    } else if m == SHIFT && key.code == KeyCode::BackTab {
        (s, KeyEffect::PrevConversation)
    } else if m == CONTROL && key.code == KeyCode::Left {
        (s, KeyEffect::ResizeSidebar(-2i16))
    } else if m == CONTROL && key.code == KeyCode::Right {
        (s, KeyEffect::ResizeSidebar(2i16))
    } else if key.code == KeyCode::PageUp {
        (EditorView { scroll: sat_add(s.scroll, 5), ..s }, KeyEffect::Nothing)
    } else if key.code == KeyCode::PageDown {
        (EditorView { scroll: sat_sub(s.scroll, 5), ..s }, KeyEffect::Nothing)
    } else {
        match s.mode {
            InputMode::Normal => (normal_key(s, key, active_len), KeyEffect::Nothing),
            InputMode::Insert => insert_key(s, key),
        }
    }
}

/// The key is a global binding.
pub open spec fn is_global_key(key: KeyPress) -> bool {
    ||| key.modifiers == CONTROL && key.code == KeyCode::Char('c')
    ||| key.modifiers == 0 && key.code == KeyCode::Tab
    ||| key.modifiers == SHIFT && key.code == KeyCode::BackTab
    ||| key.modifiers == CONTROL && key.code == KeyCode::Left
    ||| key.modifiers == CONTROL && key.code == KeyCode::Right
    ||| key.code == KeyCode::PageUp
    ||| key.code == KeyCode::PageDown
}

/// The key can be handled: every byte offset at which the buffer is cut
/// or read lies between characters (a `String` panics otherwise), and an
/// inserted character fits.
pub open spec fn key_ok(s: EditorView, key: KeyPress) -> bool {
    let n = byte_len(s.buffer);
    is_global_key(key) || match s.mode {
        InputMode::Normal => match key.code {
            KeyCode::Char('w') => s.cursor < n ==> is_boundary(s.buffer, s.cursor as int),
            KeyCode::Char('b') => s.cursor > 0 ==> s.cursor <= n && is_boundary(
                s.buffer,
                s.cursor as int,
            ),
            KeyCode::Char('x') => s.cursor < n ==> is_boundary(s.buffer, s.cursor as int),
            KeyCode::Char('D') => s.cursor <= n ==> is_boundary(s.buffer, s.cursor as int),
            _ => true,
        },
        InputMode::Insert => match key.code {
            KeyCode::Backspace => s.cursor > 0 ==> s.cursor - 1 < n && is_boundary(
                s.buffer,
                s.cursor - 1,
            ),
            KeyCode::Delete => s.cursor < n ==> is_boundary(s.buffer, s.cursor as int),
            KeyCode::Char(_) => s.cursor <= n && is_boundary(s.buffer, s.cursor as int) && n + 4
                <= usize::MAX,
            _ => true,
        },
    }
}


/// Length in bytes of the buffer.
fn buffer_len(s: &String) -> (n: usize)
    ensures
        n == byte_len(s@),
{
    s.as_str().as_bytes().len()
}

/// Byte offset of character `k` of `v`, whose encoding is `blen` bytes long.
fn offset_of(v: &Vec<char>, k: usize, blen: usize) -> (r: usize)
    requires
        k <= v@.len(),
        blen == byte_len(v@),
    ensures
        r == byte_offset(v@, k as int),
{
    let mut j: usize = 0;
    let mut off: usize = 0;
    assert(v@.take(0) =~= Seq::<char>::empty());
    while j < k
        invariant
            j <= k <= v@.len(),
            blen == byte_len(v@),
            off == byte_offset(v@, j as int),
        decreases k - j,
    {
        proof {
            lemma_offset_step(v@, j as int);
            lemma_offset_bound(v@, j + 1);
        }
        off = off + char_width(v[j]);
        j += 1;
    }
    off
}

/// A boundary before the end of the text is the offset of a character.
proof fn lemma_index_before_end(s: Seq<char>, p: int)
    requires
        is_boundary(s, p),
        p < byte_len(s),
    ensures
        0 <= char_index(s, p) < s.len(),
        byte_offset(s, char_index(s, p)) == p,
{
    lemma_offset_bound(s, 0);
}

/// The text of `v` as a `String`.
fn text_of(v: &Vec<char>) -> (s: String)
    ensures
        s@ == v@,
{
    let s = string_of(v, 0, v.len());
    assert(v@.subrange(0, v@.len() as int) =~= v@);
    s
}

/// The character index of boundary `p` of `v`.
fn boundary_index(v: &Vec<char>, p: usize) -> (k: usize)
    requires
        is_boundary(v@, p as int),
    ensures
        k <= v@.len(),
        k == char_index(v@, p as int),
        byte_offset(v@, k as int) == p,
{
    match index_at_offset(v, p) {
        Some(k) => k,
        None => {
            assert(false);
            0
        },
    }
}

/// Handles a key in Normal mode.
fn normal_key_exec(state: &mut EditorState, key: KeyPress, active_len: Option<usize>)
    requires
        old(state)@.mode == InputMode::Normal,
        !is_global_key(key),
        key_ok(old(state)@, key),
    ensures
        final(state)@ == normal_key(old(state)@, key, active_len),
{
    let n = buffer_len(&state.input_buffer);
    match key.code {
        KeyCode::Char('j') => {
            state.scroll_offset = state.scroll_offset.saturating_sub(1);
        },
        KeyCode::Char('k') => {
            state.scroll_offset = state.scroll_offset.saturating_add(1);
        },
        KeyCode::Char('d') if key.modifiers == CONTROL => {
            state.scroll_offset = state.scroll_offset.saturating_sub(10);
        },
        KeyCode::Char('u') if key.modifiers == CONTROL => {
            state.scroll_offset = state.scroll_offset.saturating_add(10);
        },
        KeyCode::Char('g') => {
            if let Some(len) = active_len {
                state.scroll_offset = len;
            }
        },
        KeyCode::Char('G') => {
            state.scroll_offset = 0;
        },
        KeyCode::Char('i') => {
            state.mode = InputMode::Insert;
        },
        KeyCode::Char('a') => {
            if state.input_cursor < n {
                state.input_cursor = state.input_cursor + 1;
            }
            state.mode = InputMode::Insert;
        },
        KeyCode::Char('I') => {
            state.input_cursor = 0;
            state.mode = InputMode::Insert;
        },
        KeyCode::Char('A') => {
            state.input_cursor = n;
            state.mode = InputMode::Insert;
        },
        KeyCode::Char('o') => {
            state.input_buffer = String::new();
            state.input_cursor = 0;
            state.mode = InputMode::Insert;
        },
        KeyCode::Char('h') => {
            state.input_cursor = state.input_cursor.saturating_sub(1);
        },
        KeyCode::Char('l') => {
            if state.input_cursor < n {
                state.input_cursor = state.input_cursor + 1;
            }
        },
        KeyCode::Char('0') => {
            state.input_cursor = 0;
        },
        KeyCode::Char('$') => {
            state.input_cursor = n;
        },
        KeyCode::Char('w') => {
            if state.input_cursor < n {
                let v = chars_of(state.input_buffer.as_str());
                let mut k = boundary_index(&v, state.input_cursor);
                let ghost k0 = k as int;
                while k < v.len() && !is_whitespace_char(v[k])
                    invariant
                        k <= v@.len(),
                        skip_word(v@, k0) == skip_word(v@, k as int),
                    decreases v.len() - k,
                {
                    k += 1;
                }
                let ghost k1 = k as int;
                while k < v.len() && is_whitespace_char(v[k])
                    invariant
                        k <= v@.len(),
                        skip_space(v@, k1) == skip_space(v@, k as int),
                    decreases v.len() - k,
                {
                    k += 1;
                }
                state.input_cursor = offset_of(&v, k, n);
            }
        },
        KeyCode::Char('b') => {
            if state.input_cursor > 0 {
                let v = chars_of(state.input_buffer.as_str());
                let mut k = boundary_index(&v, state.input_cursor);
                let ghost k0 = k as int;
                while k > 0 && is_whitespace_char(v[k - 1])
                    invariant
                        k <= v@.len(),
                        back_space(v@, k0) == back_space(v@, k as int),
                    decreases k,
                {
                    k -= 1;
                }
                let ghost k1 = k as int;
                while k > 0 && !is_whitespace_char(v[k - 1])
                    invariant
                        k <= v@.len(),
                        back_word(v@, k1) == back_word(v@, k as int),
                    decreases k,
                {
                    k -= 1;
                }
                state.input_cursor = offset_of(&v, k, n);
            }
        },
        KeyCode::Char('x') => {
            if state.input_cursor < n {
                let mut v = chars_of(state.input_buffer.as_str());
                proof {
                    lemma_index_before_end(v@, state.input_cursor as int);
                }
                let k = boundary_index(&v, state.input_cursor);
                v.remove(k);
                let text = text_of(&v);
                let m = buffer_len(&text);
                state.input_buffer = text;
                if state.input_cursor > 0 && state.input_cursor >= m {
                    state.input_cursor = m.saturating_sub(1);
                }
            }
        },
        KeyCode::Char('D') => {
            if state.input_cursor <= n {
                let mut v = chars_of(state.input_buffer.as_str());
                let k = boundary_index(&v, state.input_cursor);
                v.truncate(k);
                assert(v@ =~= old(state)@.buffer.take(k as int));
                state.input_buffer = text_of(&v);
            }
        },
        KeyCode::Char('/') => {
            let mut text = String::new();
            crate::text::push_char(&mut text, '/');
            state.input_buffer = text;
            state.input_cursor = 1;
            state.mode = InputMode::Insert;
        },
        KeyCode::Esc => {
            if !state.input_buffer.as_str().is_empty() {
                state.input_buffer = String::new();
                state.input_cursor = 0;
            }
        },
        _ => {},
    }
}


/// Handles a key in Insert mode.
fn insert_key_exec(state: &mut EditorState, key: KeyPress) -> (effect: KeyEffect)
    requires
        old(state)@.mode == InputMode::Insert,
        !is_global_key(key),
        key_ok(old(state)@, key),
    ensures
        (final(state)@, effect) == insert_key(old(state)@, key),
{
    let n = buffer_len(&state.input_buffer);
    match key.code {
        KeyCode::Esc => {
            state.mode = InputMode::Normal;
        },
        KeyCode::Enter => {
            return KeyEffect::Submit;
        },
        KeyCode::Backspace => {
            if state.input_cursor > 0 {
                let c = state.input_cursor - 1;
                let mut v = chars_of(state.input_buffer.as_str());
                proof {
                    lemma_index_before_end(v@, c as int);
                }
                let k = boundary_index(&v, c);
                v.remove(k);
                state.input_buffer = text_of(&v);
                state.input_cursor = c;
            }
        },
        KeyCode::Delete => {
            if state.input_cursor < n {
                let mut v = chars_of(state.input_buffer.as_str());
                proof {
                    lemma_index_before_end(v@, state.input_cursor as int);
                }
                let k = boundary_index(&v, state.input_cursor);
                v.remove(k);
                state.input_buffer = text_of(&v);
            }
        },
        KeyCode::Left => {
            state.input_cursor = state.input_cursor.saturating_sub(1);
        },
        KeyCode::Right => {
            if state.input_cursor < n {
                state.input_cursor = state.input_cursor + 1;
            }
        },
        KeyCode::Home => {
            state.input_cursor = 0;
        },
        KeyCode::End => {
            state.input_cursor = n;
        },
        KeyCode::Char(ch) => {
            let mut v = chars_of(state.input_buffer.as_str());
            let k = boundary_index(&v, state.input_cursor);
            v.insert(k, ch);
            state.input_buffer = text_of(&v);
            state.input_cursor = state.input_cursor + 1;
        },
        _ => {},
    }
    KeyEffect::Nothing
}

/// Whether `key` can be handled in `state` (see [`key_ok`]): false exactly
/// where [`handle_key`] would cut the buffer inside a character, or where
/// an inserted character would not fit.
pub fn key_can_be_handled(state: &EditorState, key: KeyPress) -> (r: bool)
    ensures
        r == key_ok(state@, key),
{
    let m = key.modifiers;
    if (m == CONTROL && key.code == KeyCode::Char('c')) || (m == 0 && key.code == KeyCode::Tab) || (
    m == SHIFT && key.code == KeyCode::BackTab) || (m == CONTROL && key.code == KeyCode::Left) || (m
        == CONTROL && key.code == KeyCode::Right) || key.code == KeyCode::PageUp || key.code
        == KeyCode::PageDown {
        return true;
    }
    let n = buffer_len(&state.input_buffer);
    let c = state.input_cursor;
    let v = chars_of(state.input_buffer.as_str());
    match state.mode {
        InputMode::Normal => match key.code {
            KeyCode::Char('w') | KeyCode::Char('x') => c >= n || index_at_offset(&v, c).is_some(),
            KeyCode::Char('b') => c == 0 || (c <= n && index_at_offset(&v, c).is_some()),
            KeyCode::Char('D') => c > n || index_at_offset(&v, c).is_some(),
            _ => true,
        },
        InputMode::Insert => match key.code {
            KeyCode::Backspace => c == 0 || (c - 1 < n && index_at_offset(&v, c - 1).is_some()),
            KeyCode::Delete => c >= n || index_at_offset(&v, c).is_some(),
            KeyCode::Char(_) => c <= n && index_at_offset(&v, c).is_some() && n <= usize::MAX - 4,
            _ => true,
        },
    }
}

/// Handle one key press: the global bindings first, then those of the
/// current mode.  `active_len` is the number of messages of the active
/// conversation, if there is one.
pub fn handle_key(state: &mut EditorState, key: KeyPress, active_len: Option<usize>) -> (effect:
    KeyEffect)
    requires
        key_ok(old(state)@, key),
    ensures
        (final(state)@, effect) == spec_handle_key(old(state)@, key, active_len),
{
    let m = key.modifiers;
    if m == CONTROL && key.code == KeyCode::Char('c') {
        state.should_quit = true;
        return KeyEffect::Nothing;
    }
    if m == 0 && key.code == KeyCode::Tab {
        return KeyEffect::NextConversation;
    }
    if m == SHIFT && key.code == KeyCode::BackTab {
        return KeyEffect::PrevConversation;
    }
    if m == CONTROL && key.code == KeyCode::Left {
        return KeyEffect::ResizeSidebar(-2);
    }
    if m == CONTROL && key.code == KeyCode::Right {
        return KeyEffect::ResizeSidebar(2);
    }
    if key.code == KeyCode::PageUp {
        state.scroll_offset = state.scroll_offset.saturating_add(5);
        return KeyEffect::Nothing;
    }
    if key.code == KeyCode::PageDown {
        state.scroll_offset = state.scroll_offset.saturating_sub(5);
        return KeyEffect::Nothing;
    }
    match state.mode {
        InputMode::Normal => {
            normal_key_exec(state, key, active_len);
            KeyEffect::Nothing
        },
        InputMode::Insert => insert_key_exec(state, key),
    }
}


/// Removing or inserting a character changes the byte length by its width.
proof fn lemma_edit_len(s: Seq<char>, k: int, c: char)
    requires
        0 <= k <= s.len(),
    ensures
        byte_len(s.insert(k, c)) == byte_len(s) + utf8_width(c),
        k < s.len() ==> byte_len(s.remove(k)) + utf8_width(s[k]) == byte_len(s),
        byte_len(s.take(k)) == byte_offset(s, k),
{
    assert(s =~= s.take(k) + s.skip(k));
    lemma_encode_concat(s.take(k), s.skip(k));
    assert(s.insert(k, c) =~= s.take(k) + (seq![c] + s.skip(k)));
    lemma_encode_concat(s.take(k), seq![c] + s.skip(k));
    lemma_encode_concat(seq![c], s.skip(k));
    let t = seq![c];
    assert(t.drop_first() =~= Seq::<char>::empty());
    assert(encode_utf8(t.drop_first()) =~= Seq::<u8>::empty());
    assert(encode_utf8(t) =~= encode_scalar(c as u32));
    if k < s.len() {
        assert(s.remove(k) =~= s.take(k) + s.skip(k + 1));
        lemma_encode_concat(s.take(k), s.skip(k + 1));
        assert(s.skip(k) =~= seq![s[k]] + s.skip(k + 1));
        lemma_encode_concat(seq![s[k]], s.skip(k + 1));
        let u = seq![s[k]];
        assert(u.drop_first() =~= Seq::<char>::empty());
        assert(encode_utf8(u.drop_first()) =~= Seq::<u8>::empty());
        assert(encode_utf8(u) =~= encode_scalar(s[k] as u32));
    }
}

/// The cursor never leaves the buffer: from a state whose cursor is at
/// most the byte length of the buffer, every key that can be handled
/// leads to such a state.
pub proof fn lemma_cursor_stays_inside(s: EditorView, key: KeyPress, active_len: Option<usize>)
    requires
        s.cursor <= byte_len(s.buffer),
        key_ok(s, key),
    ensures
        spec_handle_key(s, key, active_len).0.cursor <= byte_len(
            spec_handle_key(s, key, active_len).0.buffer,
        ),
{
    let b = s.buffer;
    let n = byte_len(b);
    lemma_offset_bound(b, 0);
    if !is_global_key(key) {
        match s.mode {
            InputMode::Normal => {
                let k = char_index(b, s.cursor as int);
                match key.code {
                    KeyCode::Char('w') => {
                        if s.cursor < n {
                            let k0 = char_index(b, s.cursor as int);
                            lemma_skip_in_range(b, k0);
                            lemma_offset_bound(b, skip_space(b, skip_word(b, k0)));
                        }
                    },
                    KeyCode::Char('b') => {
                        if s.cursor > 0 {
                            let k0 = char_index(b, s.cursor as int);
                            lemma_back_in_range(b, k0);
                            lemma_offset_bound(b, back_word(b, back_space(b, k0)));
                        }
                    },
                    KeyCode::Char('x') => {},
                    KeyCode::Char('D') => {
                        if s.cursor <= n {
                            lemma_edit_len(b, k, ' ');
                        }
                    },
                    KeyCode::Char('/') => {
                        lemma_edit_len(Seq::<char>::empty(), 0, '/');
                        assert(Seq::<char>::empty().insert(0, '/') =~= seq!['/']);
                        assert(encode_utf8(Seq::<char>::empty()) =~= Seq::<u8>::empty());
                    },
                    KeyCode::Char('o') => {
                        assert(encode_utf8(Seq::<char>::empty()) =~= Seq::<u8>::empty());
                    },
                    KeyCode::Esc => {
                        assert(encode_utf8(Seq::<char>::empty()) =~= Seq::<u8>::empty());
                    },
                    _ => {},
                }
            },
            InputMode::Insert => {
                match key.code {
                    KeyCode::Backspace => {
                        if s.cursor > 0 {
                            let c = s.cursor - 1;
                            lemma_index_before_end(b, c);
                            let k = char_index(b, c);
                            lemma_edit_len(b, k, ' ');
                            lemma_offset_step(b, k);
                            lemma_offset_bound(b, k + 1);
                        }
                    },
                    KeyCode::Delete => {
                        if s.cursor < n {
                            lemma_index_before_end(b, s.cursor as int);
                            let k = char_index(b, s.cursor as int);
                            lemma_edit_len(b, k, ' ');
                            lemma_offset_step(b, k);
                            lemma_offset_bound(b, k + 1);
                        }
                    },
                    KeyCode::Char(ch) => {
                        let k = char_index(b, s.cursor as int);
                        lemma_edit_len(b, k, ch);
                        lemma_width_bounds(ch);
                    },
                    _ => {},
                }
            },
        }
    }
}

proof fn lemma_skip_in_range(s: Seq<char>, k: int)
    requires
        0 <= k <= s.len(),
    ensures
        0 <= skip_word(s, k) <= s.len(),
        0 <= skip_space(s, skip_word(s, k)) <= s.len(),
{
    lemma_skip_word_range(s, k);
    lemma_skip_space_range(s, skip_word(s, k));
}

proof fn lemma_skip_word_range(s: Seq<char>, k: int)
    requires
        0 <= k <= s.len(),
    ensures
        k <= skip_word(s, k) <= s.len(),
    decreases s.len() - k,
{
    if k < s.len() {
        lemma_skip_word_range(s, k + 1);
    }
}

proof fn lemma_skip_space_range(s: Seq<char>, k: int)
    requires
        0 <= k <= s.len(),
    ensures
        k <= skip_space(s, k) <= s.len(),
    decreases s.len() - k,
{
    if k < s.len() {
        lemma_skip_space_range(s, k + 1);
    }
}

proof fn lemma_back_in_range(s: Seq<char>, k: int)
    requires
        0 <= k <= s.len(),
    ensures
        0 <= back_space(s, k) <= k,
        0 <= back_word(s, back_space(s, k)) <= k,
{
    lemma_back_space_range(s, k);
    lemma_back_word_range(s, back_space(s, k));
}

proof fn lemma_back_space_range(s: Seq<char>, k: int)
    requires
        0 <= k <= s.len(),
    ensures
        0 <= back_space(s, k) <= k,
    decreases k,
{
    if k > 0 {
        lemma_back_space_range(s, k - 1);
    }
}

proof fn lemma_back_word_range(s: Seq<char>, k: int)
    requires
        0 <= k <= s.len(),
    ensures
        0 <= back_word(s, k) <= k,
    decreases k,
{
    if k > 0 {
        lemma_back_word_range(s, k - 1);
    }
}

/// Esc in Insert mode followed by `i` gives back the same editor state.
pub proof fn lemma_esc_then_insert(s: EditorView, active_len: Option<usize>)
    requires
        s.mode == InputMode::Insert,
    ensures
        ({
            let esc = KeyPress { code: KeyCode::Esc, modifiers: 0 };
            let i = KeyPress { code: KeyCode::Char('i'), modifiers: 0 };
            let (after_esc, e1) = spec_handle_key(s, esc, active_len);
            let (after_i, e2) = spec_handle_key(after_esc, i, active_len);
            after_i == s && e1 == KeyEffect::Nothing && e2 == KeyEffect::Nothing
        }),
{
}

/// PageUp then PageDown scrolls back to where the view was, unless the
/// offset saturated at the top of the integer range.
pub proof fn lemma_page_up_down(s: EditorView, m1: u8, m2: u8, active_len: Option<usize>)
    requires
        s.scroll + 5 <= usize::MAX,
    ensures
        ({
            let up = KeyPress { code: KeyCode::PageUp, modifiers: m1 };
            let down = KeyPress { code: KeyCode::PageDown, modifiers: m2 };
            spec_handle_key(spec_handle_key(s, up, active_len).0, down, active_len).0 == s
        }),
{
}

/// Every character of `s` is ASCII.
pub open spec fn is_ascii_text(s: Seq<char>) -> bool {
    forall|i: int| 0 <= i < s.len() ==> (#[trigger] s[i] as u32) < 128
}

/// Removing a character, inserting an ASCII one or keeping a prefix keeps
/// a text ASCII.
proof fn lemma_ascii_edits(s: Seq<char>, k: int, c: char)
    requires
        is_ascii_text(s),
        0 <= k <= s.len(),
    ensures
        k < s.len() ==> is_ascii_text(s.remove(k)),
        (c as u32) < 128 ==> is_ascii_text(s.insert(k, c)),
        is_ascii_text(s.take(k)),
{
    if k < s.len() {
        assert forall|i: int| 0 <= i < s.remove(k).len() implies (#[trigger] s.remove(k)[i] as u32)
            < 128 by {
            if i < k {
                assert(s.remove(k)[i] == s[i]);
            } else {
                assert(s.remove(k)[i] == s[i + 1]);
            }
        }
    }
    if (c as u32) < 128 {
        assert forall|i: int| 0 <= i < s.insert(k, c).len() implies (#[trigger] s.insert(k, c)[i] as u32)
            < 128 by {
            if i < k {
                assert(s.insert(k, c)[i] == s[i]);
            } else if i == k {
                assert(s.insert(k, c)[i] == c);
            } else {
                assert(s.insert(k, c)[i] == s[i - 1]);
            }
        }
    }
    assert forall|i: int| 0 <= i < s.take(k).len() implies (#[trigger] s.take(k)[i] as u32) < 128 by {
        assert(s.take(k)[i] == s[i]);
    }
}

/// In an ASCII text every character is one byte: character `k` starts at
/// byte `k`.
proof fn lemma_ascii_offsets(s: Seq<char>, k: int)
    requires
        is_ascii_text(s),
        0 <= k <= s.len(),
    ensures
        byte_offset(s, k) == k,
    decreases k,
{
    if k == 0 {
        assert(s.take(0) =~= Seq::<char>::empty());
        assert(encode_utf8(Seq::<char>::empty()) =~= Seq::<u8>::empty());
    } else {
        lemma_ascii_offsets(s, k - 1);
        lemma_offset_step(s, k - 1);
        assert(vstd::utf8::has_width_1_encoding(s[k - 1] as u32));
    }
}

/// In an ASCII text every byte offset up to its length lies between characters.
proof fn lemma_ascii_boundaries(s: Seq<char>)
    requires
        is_ascii_text(s),
    ensures
        byte_len(s) == s.len(),
        forall|p: int| 0 <= p <= s.len() ==> #[trigger] is_boundary(s, p),
{
    lemma_ascii_offsets(s, s.len() as int);
    lemma_offset_bound(s, 0);
    assert forall|p: int| 0 <= p <= s.len() implies #[trigger] is_boundary(s, p) by {
        lemma_ascii_offsets(s, p);
    }
}

/// An ASCII input line stays ASCII: from a state whose cursor lies inside
/// an ASCII buffer, every key that carries only an ASCII character leaves
/// an ASCII buffer with the cursor inside it.  (A `String` is never longer
/// than `isize::MAX` bytes.)
pub proof fn lemma_ascii_stays_ascii(s: EditorView, key: KeyPress, active_len: Option<usize>)
    requires
        s.cursor <= byte_len(s.buffer),
        byte_len(s.buffer) <= isize::MAX,
        is_ascii_text(s.buffer),
        key.code matches KeyCode::Char(c) ==> (c as u32) < 128,
    ensures
        key_ok(s, key),
        is_ascii_text(spec_handle_key(s, key, active_len).0.buffer),
        spec_handle_key(s, key, active_len).0.cursor <= byte_len(
            spec_handle_key(s, key, active_len).0.buffer,
        ),
{
    lemma_ascii_boundaries(s.buffer);
    assert(is_boundary(s.buffer, s.cursor as int));
    if s.cursor > 0 {
        assert(is_boundary(s.buffer, s.cursor - 1));
    }
    lemma_cursor_stays_inside(s, key, active_len);
    let b = s.buffer;
    let n = byte_len(b);
    if !is_global_key(key) {
        match s.mode {
            InputMode::Normal => {
                match key.code {
                    KeyCode::Char('x') => {
                        if s.cursor < n {
                            lemma_index_before_end(b, s.cursor as int);
                            lemma_ascii_edits(b, char_index(b, s.cursor as int), ' ');
                        }
                    },
                    KeyCode::Char('D') => {
                        if s.cursor <= n {
                            lemma_ascii_edits(b, char_index(b, s.cursor as int), ' ');
                        }
                    },
                    KeyCode::Char('/') => {
                        assert(is_ascii_text(seq!['/']));
                    },
                    _ => {},
                }
            },
            InputMode::Insert => {
                match key.code {
                    KeyCode::Backspace => {
                        if s.cursor > 0 {
                            lemma_index_before_end(b, s.cursor - 1);
                            lemma_ascii_edits(b, char_index(b, s.cursor - 1), ' ');
                        }
                    },
                    KeyCode::Delete => {
                        if s.cursor < n {
                            lemma_index_before_end(b, s.cursor as int);
                            lemma_ascii_edits(b, char_index(b, s.cursor as int), ' ');
                        }
                    },
                    KeyCode::Char(ch) => {
                        lemma_ascii_edits(b, char_index(b, s.cursor as int), ch);
                    },
                    _ => {},
                }
            },
        }
    }
}

/// The arrow keys move the cursor of the Insert-mode line by one byte
/// without touching the text: Right moves it one step towards the end (and
/// stays at the end), Left one step towards the start (and stays at 0),
/// Home goes to 0 and End to the byte length; Left then Right from inside
/// the line comes back to the same cursor.  Normal mode's `l` and `h` move
/// the same way.
pub proof fn lemma_cursor_motions(s: EditorView, active_len: Option<usize>)
    requires
        s.cursor <= byte_len(s.buffer),
    ensures
        ({
            let right = KeyPress { code: KeyCode::Right, modifiers: 0 };
            let left = KeyPress { code: KeyCode::Left, modifiers: 0 };
            let home = KeyPress { code: KeyCode::Home, modifiers: 0 };
            let end = KeyPress { code: KeyCode::End, modifiers: 0 };
            let n = byte_len(s.buffer);
            s.mode == InputMode::Insert ==> {
                let (r, er) = spec_handle_key(s, right, active_len);
                let (l, el) = spec_handle_key(s, left, active_len);
                &&& er == KeyEffect::Nothing && el == KeyEffect::Nothing
                &&& r.buffer == s.buffer && l.buffer == s.buffer
                &&& r.mode == InputMode::Insert && l.mode == InputMode::Insert
                &&& (s.cursor < n ==> r.cursor == s.cursor + 1)
                &&& (s.cursor == n ==> r.cursor == n)
                &&& (s.cursor > 0 ==> l.cursor + 1 == s.cursor)
                &&& (s.cursor == 0 ==> l.cursor == 0)
                &&& (s.cursor > 0 ==> spec_handle_key(l, right, active_len).0.cursor == s.cursor)
                &&& spec_handle_key(s, home, active_len).0.cursor == 0
                &&& spec_handle_key(s, end, active_len).0.cursor == n
                &&& spec_handle_key(s, home, active_len).0.buffer == s.buffer
                &&& spec_handle_key(s, end, active_len).0.buffer == s.buffer
            }
        }),
        ({
            let l_key = KeyPress { code: KeyCode::Char('l'), modifiers: 0 };
            let h_key = KeyPress { code: KeyCode::Char('h'), modifiers: 0 };
            let n = byte_len(s.buffer);
            s.mode == InputMode::Normal ==> {
                let r = spec_handle_key(s, l_key, active_len).0;
                let l = spec_handle_key(s, h_key, active_len).0;
                &&& r.buffer == s.buffer && l.buffer == s.buffer
                &&& (s.cursor < n ==> r.cursor == s.cursor + 1)
                &&& (s.cursor == n ==> r.cursor == n)
                &&& (s.cursor > 0 ==> l.cursor + 1 == s.cursor)
                &&& (s.cursor == 0 ==> l.cursor == 0)
            }
        }),
{
}

/// The global bindings act the same in both modes and leave the text
/// alone: Ctrl+C asks to quit, Tab and Shift+BackTab switch conversation,
/// Ctrl+Left/Right resize the sidebar by two columns, PageUp/PageDown
/// scroll five messages (saturating).
pub proof fn lemma_global_bindings(s: EditorView, m: u8, active_len: Option<usize>)
    ensures
        ({
            let (q, eq) = spec_handle_key(s, KeyPress { code: KeyCode::Char('c'), modifiers: CONTROL }, active_len);
            q == EditorView { quit: true, ..s } && eq == KeyEffect::Nothing
        }),
        spec_handle_key(s, KeyPress { code: KeyCode::Tab, modifiers: 0 }, active_len) == (s, KeyEffect::NextConversation),
        spec_handle_key(s, KeyPress { code: KeyCode::BackTab, modifiers: SHIFT }, active_len) == (s, KeyEffect::PrevConversation),
        spec_handle_key(s, KeyPress { code: KeyCode::Left, modifiers: CONTROL }, active_len) == (s, KeyEffect::ResizeSidebar(-2i16)),
        spec_handle_key(s, KeyPress { code: KeyCode::Right, modifiers: CONTROL }, active_len) == (s, KeyEffect::ResizeSidebar(2i16)),
        ({
            let (u, eu) = spec_handle_key(s, KeyPress { code: KeyCode::PageUp, modifiers: m }, active_len);
            let (d, ed) = spec_handle_key(s, KeyPress { code: KeyCode::PageDown, modifiers: m }, active_len);
            &&& eu == KeyEffect::Nothing && ed == KeyEffect::Nothing
            &&& u.buffer == s.buffer && u.cursor == s.cursor && u.mode == s.mode && u.quit == s.quit
            &&& d.buffer == s.buffer && d.cursor == s.cursor && d.mode == s.mode && d.quit == s.quit
            &&& (s.scroll + 5 <= usize::MAX ==> u.scroll == s.scroll + 5)
            &&& (s.scroll + 5 > usize::MAX ==> u.scroll == usize::MAX)
            &&& (s.scroll >= 5 ==> d.scroll + 5 == s.scroll)
            &&& (s.scroll < 5 ==> d.scroll == 0)
        }),
{
}

/// Normal-mode keys that only scroll or switch mode: `j`/`k` scroll by
/// one, Ctrl+D/Ctrl+U by ten (saturating), `G` to the bottom, `g` to the
/// top of the active conversation; `i` enters Insert mode where the cursor
/// is, `I` at the start, `A` at the end, `a` one step right; `0` and `$`
/// move to the start and the end.  None of them changes the text.
pub proof fn lemma_normal_scroll_and_mode_keys(s: EditorView, active_len: Option<usize>)
    requires
        s.mode == InputMode::Normal,
    ensures
        ({
            let n = byte_len(s.buffer);
            let k = |c: char| spec_handle_key(s, KeyPress { code: KeyCode::Char(c), modifiers: 0 }, active_len).0;
            let ctrl = |c: char| spec_handle_key(s, KeyPress { code: KeyCode::Char(c), modifiers: CONTROL }, active_len).0;
            &&& k('j') == EditorView { scroll: if s.scroll >= 1 { (s.scroll - 1) as nat } else { 0 }, ..s }
            &&& (s.scroll < usize::MAX ==> k('k') == EditorView { scroll: s.scroll + 1, ..s })
            &&& (s.scroll >= 10 ==> ctrl('d') == EditorView { scroll: (s.scroll - 10) as nat, ..s })
            &&& (s.scroll < 10 ==> ctrl('d') == EditorView { scroll: 0, ..s })
            &&& (s.scroll + 10 <= usize::MAX ==> ctrl('u') == EditorView { scroll: s.scroll + 10, ..s })
            &&& k('G') == EditorView { scroll: 0, ..s }
            &&& (active_len matches Some(len) ==> k('g') == EditorView { scroll: len as nat, ..s })
            &&& (active_len is None ==> k('g') == s)
            &&& k('i') == EditorView { mode: InputMode::Insert, ..s }
            &&& k('I') == EditorView { mode: InputMode::Insert, cursor: 0, ..s }
            &&& k('A') == EditorView { mode: InputMode::Insert, cursor: n, ..s }
            &&& (s.cursor < n ==> k('a') == EditorView { mode: InputMode::Insert, cursor: s.cursor + 1, ..s })
            &&& (s.cursor >= n ==> k('a') == EditorView { mode: InputMode::Insert, ..s })
            &&& k('0') == EditorView { cursor: 0, ..s }
            &&& k('$') == EditorView { cursor: n, ..s }
        }),
{
}

/// Keys that replace or clear the text: in Normal mode `o` opens an empty
/// line in Insert mode, `/` starts a command line holding just `/` with
/// the cursor after it, and Esc clears a non-empty line; in Insert mode
/// Esc returns to Normal mode and Enter submits, both leaving the text and
/// cursor as they are.
pub proof fn lemma_line_replacing_keys(s: EditorView, active_len: Option<usize>)
    ensures
        s.mode == InputMode::Normal ==> {
            let k = |c: KeyCode| spec_handle_key(s, KeyPress { code: c, modifiers: 0 }, active_len);
            &&& k(KeyCode::Char('o')) == (EditorView { mode: InputMode::Insert, buffer: seq![], cursor: 0, ..s }, KeyEffect::Nothing)
            &&& k(KeyCode::Char('/')) == (EditorView { mode: InputMode::Insert, buffer: seq!['/'], cursor: 1, ..s }, KeyEffect::Nothing)
            &&& (s.buffer.len() > 0 ==> k(KeyCode::Esc) == (EditorView { buffer: seq![], cursor: 0, ..s }, KeyEffect::Nothing))
            &&& (s.buffer.len() == 0 ==> k(KeyCode::Esc) == (s, KeyEffect::Nothing))
        },
        s.mode == InputMode::Insert ==> {
            let k = |c: KeyCode| spec_handle_key(s, KeyPress { code: c, modifiers: 0 }, active_len);
            &&& k(KeyCode::Esc) == (EditorView { mode: InputMode::Normal, ..s }, KeyEffect::Nothing)
            &&& k(KeyCode::Enter) == (s, KeyEffect::Submit)
        },
{
}

/// Typing and deleting in the text, at a cursor between characters: in
/// Insert mode a character is put at the cursor and the cursor moves one
/// byte on, Backspace removes the character that ends at the cursor and
/// moves the cursor back over it by one byte, Delete removes the character
/// that starts at the cursor; in Normal mode `x` removes the character at
/// the cursor and `D` drops everything from the cursor on.  The text
/// before the cursor is kept in each case.
pub proof fn lemma_editing_keys(s: EditorView, ch: char, active_len: Option<usize>)
    requires
        s.cursor <= byte_len(s.buffer),
        is_boundary(s.buffer, s.cursor as int),
    ensures
        ({
            let b = s.buffer;
            let n = byte_len(b);
            let k = char_index(b, s.cursor as int);
            let key = |c: KeyCode| spec_handle_key(s, KeyPress { code: c, modifiers: 0 }, active_len).0;
            &&& 0 <= k <= b.len() && byte_offset(b, k) == s.cursor
            &&& (s.mode == InputMode::Insert ==> {
                let t = key(KeyCode::Char(ch));
                &&& t.buffer == b.take(k) + seq![ch] + b.skip(k)
                &&& t.cursor == s.cursor + 1
                &&& t.mode == InputMode::Insert
            })
            &&& (s.mode == InputMode::Insert && s.cursor < n ==> {
                let t = key(KeyCode::Delete);
                &&& k < b.len()
                &&& t.buffer == b.take(k) + b.skip(k + 1)
                &&& t.cursor == s.cursor
            })
            &&& (s.mode == InputMode::Insert && 0 < s.cursor && is_boundary(b, s.cursor - 1) ==> {
                let t = key(KeyCode::Backspace);
                let j = char_index(b, s.cursor - 1);
                &&& 0 <= j < b.len()
                &&& t.buffer == b.take(j) + b.skip(j + 1)
                &&& t.cursor + 1 == s.cursor
            })
            &&& (s.mode == InputMode::Normal ==> key(KeyCode::Char('D')) == EditorView { buffer: b.take(k), ..s })
            &&& (s.mode == InputMode::Normal && s.cursor < n ==> {
                let t = key(KeyCode::Char('x'));
                &&& k < b.len()
                &&& t.buffer == b.take(k) + b.skip(k + 1)
            })
        }),
{
    let b = s.buffer;
    let n = byte_len(b);
    lemma_offset_bound(b, 0);
    let k = char_index(b, s.cursor as int);
    assert(0 <= k <= b.len() && byte_offset(b, k) == s.cursor);
    assert(b.insert(k, ch) =~= b.take(k) + seq![ch] + b.skip(k));
    if s.cursor < n {
        lemma_index_before_end(b, s.cursor as int);
        assert(b.remove(k) =~= b.take(k) + b.skip(k + 1));
    }
    if 0 < s.cursor && is_boundary(b, s.cursor - 1) {
        lemma_index_before_end(b, s.cursor - 1);
        let j = char_index(b, s.cursor - 1);
        assert(b.remove(j) =~= b.take(j) + b.skip(j + 1));
    }
}

} // verus!
