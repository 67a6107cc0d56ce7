//! Navigation arithmetic and key classification for list overlays.

use vstd::prelude::*;

use crate::keys::KeyCode;

verus! {

/// Semantic action from a key press in a list overlay.
#[derive(Debug, Clone, Copy, PartialEq, Eq)]
pub enum ListKeyAction {
    Up,
    Down,
    Select,
    Close,
    FilterPush(char),
    FilterPop,
    /// The key does nothing in the list.
    Nothing,
}

/// The action of a key in a list overlay: `j`/Down and `k`/Up move, Enter
/// selects, Esc closes; when the list is `filterable`, Backspace pops the
/// filter and any other character is pushed onto it; everything else does
/// nothing.
pub open spec fn spec_classify_list_key(code: KeyCode, filterable: bool) -> ListKeyAction {
    match code {
        KeyCode::Char('j') | KeyCode::Down => ListKeyAction::Down,
        KeyCode::Char('k') | KeyCode::Up => ListKeyAction::Up,
        KeyCode::Enter => ListKeyAction::Select,
        KeyCode::Esc => ListKeyAction::Close,
        KeyCode::Backspace => if filterable {
            ListKeyAction::FilterPop
        } else {
            ListKeyAction::Nothing
        },
        KeyCode::Char(c) => if filterable {
            ListKeyAction::FilterPush(c)
        } else {
            ListKeyAction::Nothing
        },
        _ => ListKeyAction::Nothing,
    }
}

/// Classify a key press into a list navigation action.
/// When `filterable` is true, printable chars (other than j/k) become FilterPush
/// and Backspace becomes FilterPop. When false, they do nothing
/// ([`ListKeyAction::Nothing`]).
pub fn classify_list_key(code: KeyCode, filterable: bool) -> (res: ListKeyAction)
    ensures
        res == spec_classify_list_key(code, filterable),
{
    match code {
        KeyCode::Char('j') | KeyCode::Down => ListKeyAction::Down,
        KeyCode::Char('k') | KeyCode::Up => ListKeyAction::Up,
        KeyCode::Enter => ListKeyAction::Select,
        KeyCode::Esc => ListKeyAction::Close,
        KeyCode::Backspace if filterable => ListKeyAction::FilterPop,
        KeyCode::Char(c) if filterable => ListKeyAction::FilterPush(c),
        _ => ListKeyAction::Nothing,
    }
}

/// Visible rows of an overlay whose inner area is `inner_height` tall and
/// reserves `footer_lines` for its footer.
pub open spec fn spec_visible_rows(inner_height: nat, footer_lines: nat) -> nat {
    if inner_height >= footer_lines { (inner_height - footer_lines) as nat } else { 0 }
}

/// Smallest scroll offset that keeps `selected` inside a window of `visible` rows.
pub open spec fn spec_scroll_offset(visible: nat, selected: nat) -> nat {
    if selected >= visible { (selected - visible + 1) as nat } else { 0 }
}

/// Calculate visible rows and scroll offset for a list overlay.
/// `inner_height` is the popup inner area height (after border subtraction).
/// `footer_lines` is lines reserved for footer (typically 2: blank + help text).
/// Returns (visible_rows, scroll_offset).
pub fn scroll_layout(inner_height: usize, footer_lines: usize, selected_index: usize) -> (res: (
    usize,
    usize,
))
    requires
        selected_index < usize::MAX || spec_visible_rows(inner_height as nat, footer_lines as nat) > 0,
    ensures
        res.0 == spec_visible_rows(inner_height as nat, footer_lines as nat),
        res.1 == spec_scroll_offset(res.0 as nat, selected_index as nat),
{
    let visible_rows = inner_height.saturating_sub(footer_lines);
    let scroll_offset = if selected_index >= visible_rows {
        selected_index - visible_rows + 1
    } else {
        0
    };
    (visible_rows, scroll_offset)
}

/// The selected row is on screen: whenever the overlay has room for a
/// row, the scroll offset that `scroll_layout` computes puts the selection
/// inside the window of visible rows.
pub proof fn lemma_selection_visible(inner_height: nat, footer_lines: nat, selected: nat)
    requires
        spec_visible_rows(inner_height, footer_lines) > 0,
    ensures
        ({
            let visible = spec_visible_rows(inner_height, footer_lines);
            let offset = spec_scroll_offset(visible, selected);
            offset <= selected < offset + visible
        }),
{
}

/// Clamp a selection index to stay within list bounds.
pub fn clamp_index(index: &mut usize, list_len: usize)
    ensures
        list_len == 0 ==> *final(index) == 0,
        list_len > 0 && *old(index) >= list_len ==> *final(index) == list_len - 1,
        list_len > 0 && *old(index) < list_len ==> *final(index) == *old(index),
{
    if list_len == 0 {
        *index = 0;
    } else if *index >= list_len {
        *index = list_len - 1;
    }
}

/// Navigation keys mean the same whether or not the list filters: `j` and
/// Down move down, `k` and Up move up, Enter selects, Esc closes.  Only a
/// filterable list edits its filter: there Backspace pops and any other
/// character is pushed; a list that does not filter never edits it.
pub proof fn lemma_list_keys(code: KeyCode, filterable: bool, c: char)
    ensures
        spec_classify_list_key(KeyCode::Char('j'), filterable) == ListKeyAction::Down,
        spec_classify_list_key(KeyCode::Down, filterable) == ListKeyAction::Down,
        spec_classify_list_key(KeyCode::Char('k'), filterable) == ListKeyAction::Up,
        spec_classify_list_key(KeyCode::Up, filterable) == ListKeyAction::Up,
        spec_classify_list_key(KeyCode::Enter, filterable) == ListKeyAction::Select,
        spec_classify_list_key(KeyCode::Esc, filterable) == ListKeyAction::Close,
        !filterable ==> !(spec_classify_list_key(code, false) is FilterPush)
            && !(spec_classify_list_key(code, false) is FilterPop),
        c != 'j' && c != 'k' ==> spec_classify_list_key(KeyCode::Char(c), true)
            == ListKeyAction::FilterPush(c),
        spec_classify_list_key(KeyCode::Backspace, true) == ListKeyAction::FilterPop,
{
}

} // verus!
