//! Parsing of the text typed into the input line: slash commands or a message.

use vstd::prelude::*;

use crate::text::{
    chars_of, copy_range, find_char, find_char_from, push_chars, push_str, range_equals, string_of,
};

verus! {

broadcast use vstd::string::group_string_axioms;

/// Parsed user input — either a command or plain text to send
#[derive(Debug)]
pub enum InputAction {
    /// Send text to the current conversation
    SendText(String),
    /// Switch to a conversation by name/number
    Join(String),
    /// Leave current conversation (go back to no selection)
    Part,
    /// Quit the application
    Quit,
    /// Toggle sidebar visibility
    ToggleSidebar,
    /// Show help text
    Help,
    /// Search messages across all conversations for the query
    Search(String),
    /// Open the file browser to attach a file
    Attach,
    /// Toggle notifications: for one kind (`direct` or `group`) when given,
    /// else for both
    ToggleBell(Option<String>),
    /// Mute or unmute the current conversation
    Mute,
    /// Browse synced contacts
    Contacts,
    /// Open the settings overlay
    Settings,
    /// Unknown command
    Unknown(String),
}

/// The meaning of an [`InputAction`], its texts taken as characters.
pub enum ActionSpec {
    SendText(Seq<char>),
    Join(Seq<char>),
    Part,
    Quit,
    ToggleSidebar,
    Help,
    Search(Seq<char>),
    Attach,
    ToggleBell(Option<Seq<char>>),
    Mute,
    Contacts,
    Settings,
    Unknown(Seq<char>),
}

impl View for InputAction {
    type V = ActionSpec;

    open spec fn view(&self) -> ActionSpec {
        match self {
            InputAction::SendText(s) => ActionSpec::SendText(s@),
            InputAction::Join(s) => ActionSpec::Join(s@),
            InputAction::Part => ActionSpec::Part,
            InputAction::Quit => ActionSpec::Quit,
            InputAction::ToggleSidebar => ActionSpec::ToggleSidebar,
            InputAction::Help => ActionSpec::Help,
            InputAction::Search(s) => ActionSpec::Search(s@),
            InputAction::Attach => ActionSpec::Attach,
            InputAction::ToggleBell(k) => ActionSpec::ToggleBell(
                match k {
                    Some(t) => Some(t@),
                    None => None,
                },
            ),
            InputAction::Mute => ActionSpec::Mute,
            InputAction::Contacts => ActionSpec::Contacts,
            InputAction::Settings => ActionSpec::Settings,
            InputAction::Unknown(s) => ActionSpec::Unknown(s@),
        }
    }
}

/// Unicode `White_Space`, the set that `char::is_whitespace` and
/// `str::trim` use.
pub open spec fn is_whitespace(c: char) -> bool {
    let u = c as u32;
    ||| 9 <= u <= 13
    ||| u == 0x20
    ||| u == 0x85
    ||| u == 0xA0
    ||| u == 0x1680
    ||| 0x2000 <= u <= 0x200A
    ||| u == 0x2028
    ||| u == 0x2029
    ||| u == 0x202F
    ||| u == 0x205F
    ||| u == 0x3000
}

/// Whether `c` is Unicode white space (`char::is_whitespace`).
pub fn is_whitespace_char(c: char) -> (r: bool)
    ensures
        r == is_whitespace(c),
{
    let u = c as u32;
    (9 <= u && u <= 13) || u == 0x20 || u == 0x85 || u == 0xA0 || u == 0x1680 || (0x2000 <= u && u
        <= 0x200A) || u == 0x2028 || u == 0x2029 || u == 0x202F || u == 0x205F || u == 0x3000
}

/// First position at or after `k` whose character is not white space (or `s.len()`).
pub open spec fn skip_ws_forward(s: Seq<char>, k: int) -> int
    decreases s.len() - k,
{
    if 0 <= k < s.len() && is_whitespace(s[k]) {
        skip_ws_forward(s, k + 1)
    } else {
        k
    }
}

/// Largest `e <= k` such that `s[e - 1]` is not white space (or 0).
pub open spec fn skip_ws_backward(s: Seq<char>, k: int) -> int
    decreases k,
{
    if 0 < k <= s.len() && is_whitespace(s[k - 1]) {
        skip_ws_backward(s, k - 1)
    } else {
        k
    }
}

/// `s` without leading and trailing white space (`str::trim`).
pub open spec fn trim(s: Seq<char>) -> Seq<char> {
    let a = skip_ws_forward(s, 0);
    if a >= s.len() {
        seq![]
    } else {
        s.subrange(a, skip_ws_backward(s, s.len() as int))
    }
}

proof fn lemma_skip_forward(s: Seq<char>, k: int)
    requires
        0 <= k <= s.len(),
    ensures
        k <= skip_ws_forward(s, k) <= s.len(),
        skip_ws_forward(s, k) < s.len() ==> !is_whitespace(s[skip_ws_forward(s, k)]),
    decreases s.len() - k,
{
    if k < s.len() {
        lemma_skip_forward(s, k + 1);
    }
}

proof fn lemma_skip_backward(s: Seq<char>, k: int, a: int)
    requires
        0 <= a < k <= s.len(),
        !is_whitespace(s[a]),
    ensures
        a < skip_ws_backward(s, k) <= k,
    decreases k,
{
    if is_whitespace(s[k - 1]) {
        lemma_skip_backward(s, k - 1, a);
    }
}

/// Bounds of `trim(v@)` inside `v`.
fn trim_bounds(v: &Vec<char>) -> (r: (usize, usize))
    ensures
        r.0 <= r.1 <= v@.len(),
        v@.subrange(r.0 as int, r.1 as int) == trim(v@),
{
    let n = v.len();
    let mut a: usize = 0;
    while a < n && is_whitespace_char(v[a])
        invariant
            a <= n == v@.len(),
            skip_ws_forward(v@, 0) == skip_ws_forward(v@, a as int),
        decreases n - a,
    {
        a += 1;
    }
    if a >= n {
        return (n, n);
    }
    let mut e: usize = n;
    while e > 0 && is_whitespace_char(v[e - 1])
        invariant
            e <= n == v@.len(),
            a < n,
            skip_ws_backward(v@, n as int) == skip_ws_backward(v@, e as int),
        decreases e,
    {
        e -= 1;
    }
    proof {
        lemma_skip_backward(v@, n as int, a as int);
    }
    (a, e)
}

pub open spec fn join_cmd() -> Seq<char> {
    seq!['/', 'j', 'o', 'i', 'n']
}

pub open spec fn j_cmd() -> Seq<char> {
    seq!['/', 'j']
}

pub open spec fn part_cmd() -> Seq<char> {
    seq!['/', 'p', 'a', 'r', 't']
}

pub open spec fn p_cmd() -> Seq<char> {
    seq!['/', 'p']
}

pub open spec fn quit_cmd() -> Seq<char> {
    seq!['/', 'q', 'u', 'i', 't']
}

pub open spec fn q_cmd() -> Seq<char> {
    seq!['/', 'q']
}

pub open spec fn sidebar_cmd() -> Seq<char> {
    seq!['/', 's', 'i', 'd', 'e', 'b', 'a', 'r']
}

pub open spec fn sb_cmd() -> Seq<char> {
    seq!['/', 's', 'b']
}

pub open spec fn help_cmd() -> Seq<char> {
    seq!['/', 'h', 'e', 'l', 'p']
}

pub open spec fn h_cmd() -> Seq<char> {
    seq!['/', 'h']
}

/// The message of `/search` without a query.
pub open spec fn search_needs_arg() -> Seq<char> {
    "/search requires a query"@
}

/// The message of `/join` without an argument.
pub open spec fn join_needs_arg() -> Seq<char> {
    "/join requires a contact or group name"@
}

/// The prefix of the message for an unknown command.
pub open spec fn unknown_prefix() -> Seq<char> {
    "Unknown command: "@
}

/// Command word and argument of a command line: split at the first
/// space (the argument is empty when there is none).
pub open spec fn split_command(t: Seq<char>) -> (Seq<char>, Seq<char>) {
    let i = find_char_from(t, ' ', 0);
    if i < t.len() {
        (t.subrange(0, i), t.subrange(i + 1, t.len() as int))
    } else {
        (t, seq![])
    }
}

/// What a line of input means.  Surrounding white space is ignored.
/// Text that does not start with `/` is a message (an empty line is an
/// empty message).  Otherwise the first word is a command (`/join` or `/j`,
/// `/part` or `/p`, `/quit` or `/q`, `/sidebar` or `/sb`, `/help` or `/h`,
/// `/search` or `/s`, `/attach`, `/bell` or `/notify`, `/mute`, `/contacts`
/// or `/c`, `/settings`) and the rest of the line, trimmed, its argument;
/// `/join` and `/search` need one, `/bell` takes an optional one.
pub open spec fn spec_parse_input(input: Seq<char>) -> ActionSpec {
    let t = trim(input);
    if t.len() == 0 {
        ActionSpec::SendText(seq![])
    } else if t[0] != '/' {
        ActionSpec::SendText(t)
    } else {
        let cmd = split_command(t).0;
        let arg = trim(split_command(t).1);
        if cmd == join_cmd() || cmd == j_cmd() {
            if arg.len() == 0 {
                ActionSpec::Unknown(join_needs_arg())
            } else {
                ActionSpec::Join(arg)
            }
        } else if cmd == part_cmd() || cmd == p_cmd() {
            ActionSpec::Part
        } else if cmd == quit_cmd() || cmd == q_cmd() {
            ActionSpec::Quit
        } else if cmd == sidebar_cmd() || cmd == sb_cmd() {
            ActionSpec::ToggleSidebar
        } else if cmd == help_cmd() || cmd == h_cmd() {
            ActionSpec::Help
        } else if cmd == "/search"@ || cmd == "/s"@ {
            if arg.len() == 0 {
                ActionSpec::Unknown(search_needs_arg())
            } else {
                ActionSpec::Search(arg)
            }
        } else if cmd == "/attach"@ {
            ActionSpec::Attach
        } else if cmd == "/bell"@ || cmd == "/notify"@ {
            ActionSpec::ToggleBell(
                if arg.len() == 0 {
                    None
                } else {
                    Some(arg)
                },
            )
        } else if cmd == "/mute"@ {
            ActionSpec::Mute
        } else if cmd == "/contacts"@ || cmd == "/c"@ {
            ActionSpec::Contacts
        } else if cmd == "/settings"@ {
            ActionSpec::Settings
        } else {
            ActionSpec::Unknown(unknown_prefix() + cmd)
        }
    }
}

/// Parse a line of input into an action
pub fn parse_input(input: &str) -> (res: InputAction)
    ensures
        res@ == spec_parse_input(input@),
{
    proof {
        reveal_strlit("/join");
        reveal_strlit("/j");
        reveal_strlit("/part");
        reveal_strlit("/p");
        reveal_strlit("/quit");
        reveal_strlit("/q");
        reveal_strlit("/sidebar");
        reveal_strlit("/sb");
        reveal_strlit("/help");
        reveal_strlit("/h");
    }
    assert("/join"@ =~= join_cmd());
    assert("/j"@ =~= j_cmd());
    assert("/part"@ =~= part_cmd());
    assert("/p"@ =~= p_cmd());
    assert("/quit"@ =~= quit_cmd());
    assert("/q"@ =~= q_cmd());
    assert("/sidebar"@ =~= sidebar_cmd());
    assert("/sb"@ =~= sb_cmd());
    assert("/help"@ =~= help_cmd());
    assert("/h"@ =~= h_cmd());
    let v = chars_of(input);
    let (a, e) = trim_bounds(&v);
    if a >= e {
        return InputAction::SendText(String::new());
    }
    let t = copy_range(&v, a, e);
    if t[0] != '/' {
        assert(t@.subrange(0, t@.len() as int) =~= t@);
        return InputAction::SendText(string_of(&t, 0, t.len()));
    }
    let sp = find_char(&t, ' ', 0);
    let rest = if sp < t.len() {
        copy_range(&t, sp + 1, t.len())
    } else {
        Vec::new()
    };
    assert(rest@ =~= split_command(t@).1);
    assert(t@.subrange(0, sp as int) =~= split_command(t@).0);
    let (ra, re) = trim_bounds(&rest);
    if range_equals(&t, 0, sp, "/join") || range_equals(&t, 0, sp, "/j") {
        if ra >= re {
            let mut msg = String::new();
            push_str(&mut msg, "/join requires a contact or group name");
            InputAction::Unknown(msg)
        } else {
            InputAction::Join(string_of(&rest, ra, re))
        }
    } else if range_equals(&t, 0, sp, "/part") || range_equals(&t, 0, sp, "/p") {
        InputAction::Part
    } else if range_equals(&t, 0, sp, "/quit") || range_equals(&t, 0, sp, "/q") {
        InputAction::Quit
    } else if range_equals(&t, 0, sp, "/sidebar") || range_equals(&t, 0, sp, "/sb") {
        InputAction::ToggleSidebar
    } else if range_equals(&t, 0, sp, "/help") || range_equals(&t, 0, sp, "/h") {
        InputAction::Help
    } else if range_equals(&t, 0, sp, "/search") || range_equals(&t, 0, sp, "/s") {
        if ra >= re {
            let mut msg = String::new();
            push_str(&mut msg, "/search requires a query");
            InputAction::Unknown(msg)
        } else {
            InputAction::Search(string_of(&rest, ra, re))
        }
    } else if range_equals(&t, 0, sp, "/attach") {
        InputAction::Attach
    } else if range_equals(&t, 0, sp, "/bell") || range_equals(&t, 0, sp, "/notify") {
        if ra >= re {
            InputAction::ToggleBell(None)
        } else {
            InputAction::ToggleBell(Some(string_of(&rest, ra, re)))
        }
    } else if range_equals(&t, 0, sp, "/mute") {
        InputAction::Mute
    } else if range_equals(&t, 0, sp, "/contacts") || range_equals(&t, 0, sp, "/c") {
        InputAction::Contacts
    } else if range_equals(&t, 0, sp, "/settings") {
        InputAction::Settings
    } else {
        let mut msg = String::new();
        push_str(&mut msg, "Unknown command: ");
        push_chars(&mut msg, &t, 0, sp);
        InputAction::Unknown(msg)
    }
}

/// The help overlay text.
pub const HELP_TEXT: &'static str = "\
Commands:
  /join <name>  - Switch to a conversation (contact number or group name)
  /part         - Leave current conversation view
  /sidebar      - Toggle sidebar visibility
  /quit         - Exit signal-tui
  /help         - Show this help

Shortcuts:
  Tab           - Next conversation
  Shift+Tab     - Previous conversation
  PgUp/PgDn     - Scroll messages
  Ctrl+Left/Right - Resize sidebar
  Ctrl+C        - Quit

Vim Keybindings:
  Esc           - Switch to Normal mode
  i/a/I/A/o     - Switch to Insert mode
  j/k           - Scroll up/down (Normal)
  g/G           - Top/bottom of messages (Normal)
  Ctrl+D/U      - Half-page scroll (Normal)
  h/l           - Move cursor left/right (Normal)
  w/b           - Word forward/back (Normal)
  0/$           - Cursor to start/end of line (Normal)
  x             - Delete character (Normal)
  D             - Delete to end of line (Normal)
  /             - Start command input (Normal)";

/// Every character of `w` is white space.
pub open spec fn all_whitespace(w: Seq<char>) -> bool {
    forall|i: int| 0 <= i < w.len() ==> is_whitespace(#[trigger] w[i])
}

/// Skipping forward over a run of white space lands where skipping from
/// its end lands.
proof fn lemma_forward_over_ws(s: Seq<char>, k: int, m: int)
    requires
        0 <= k <= m <= s.len(),
        forall|i: int| k <= i < m ==> is_whitespace(#[trigger] s[i]),
    ensures
        skip_ws_forward(s, k) == skip_ws_forward(s, m),
    decreases m - k,
{
    if k < m {
        lemma_forward_over_ws(s, k + 1, m);
    }
}

/// Skipping backward over a run of white space lands where skipping from
/// its start lands.
proof fn lemma_backward_over_ws(s: Seq<char>, k: int, m: int)
    requires
        0 <= m <= k <= s.len(),
        forall|i: int| m <= i < k ==> is_whitespace(#[trigger] s[i]),
    ensures
        skip_ws_backward(s, k) == skip_ws_backward(s, m),
    decreases k - m,
{
    if m < k {
        lemma_backward_over_ws(s, k - 1, m);
    }
}

/// What the forward skip passes over is white space.
proof fn lemma_forward_passes_ws(s: Seq<char>, k: int)
    requires
        0 <= k <= s.len(),
    ensures
        forall|i: int| k <= i < skip_ws_forward(s, k) ==> is_whitespace(#[trigger] s[i]),
    decreases s.len() - k,
{
    if k < s.len() && is_whitespace(s[k]) {
        lemma_forward_passes_ws(s, k + 1);
    }
}

/// What the backward skip passes over is white space, and it stops after a
/// character that is not.
proof fn lemma_backward_passes_ws(s: Seq<char>, k: int)
    requires
        0 <= k <= s.len(),
    ensures
        0 <= skip_ws_backward(s, k) <= k,
        forall|i: int| skip_ws_backward(s, k) <= i < k ==> is_whitespace(#[trigger] s[i]),
        skip_ws_backward(s, k) > 0 ==> !is_whitespace(s[skip_ws_backward(s, k) - 1]),
    decreases k,
{
    if 0 < k && is_whitespace(s[k - 1]) {
        lemma_backward_passes_ws(s, k - 1);
    }
}

/// `trim` takes off exactly white space around a text that neither starts
/// nor ends with white space.
proof fn lemma_trim_of_padded(w1: Seq<char>, t: Seq<char>, w2: Seq<char>)
    requires
        all_whitespace(w1),
        all_whitespace(w2),
        t.len() == 0 || (!is_whitespace(t[0]) && !is_whitespace(t.last())),
    ensures
        trim(w1 + t + w2) == t,
{
    let s = w1 + t + w2;
    let a = w1.len() as int;
    let e = a + t.len();
    assert forall|i: int| 0 <= i < a implies is_whitespace(#[trigger] s[i]) by {
        assert(s[i] == w1[i]);
    }
    assert forall|i: int| e <= i < s.len() implies is_whitespace(#[trigger] s[i]) by {
        assert(s[i] == w2[i - e]);
    }
    if t.len() == 0 {
        lemma_forward_over_ws(s, 0, s.len() as int);
        assert(trim(s) =~= t);
    } else {
        lemma_forward_over_ws(s, 0, a);
        assert(s[a] == t[0]);
        lemma_backward_over_ws(s, s.len() as int, e);
        assert(s[e - 1] == t.last());
        assert(s.subrange(a, e) =~= t);
    }
}

/// Every text is its trimmed self with white space around it.
proof fn lemma_trim_split(s: Seq<char>)
    ensures
        exists|w1: Seq<char>, w2: Seq<char>|
            all_whitespace(w1) && all_whitespace(w2) && s == w1 + trim(s) + w2,
        trim(s).len() == 0 || (!is_whitespace(trim(s)[0]) && !is_whitespace(trim(s).last())),
{
    let a = skip_ws_forward(s, 0);
    lemma_skip_forward(s, 0);
    lemma_forward_passes_ws(s, 0);
    if a >= s.len() {
        let w1 = s;
        let w2 = Seq::<char>::empty();
        assert(all_whitespace(w1));
        assert(s =~= w1 + trim(s) + w2);
    } else {
        let e = skip_ws_backward(s, s.len() as int);
        lemma_skip_backward(s, s.len() as int, a);
        lemma_backward_passes_ws(s, s.len() as int);
        let w1 = s.subrange(0, a);
        let w2 = s.subrange(e, s.len() as int);
        assert(all_whitespace(w1));
        assert(all_whitespace(w2));
        assert(s =~= w1 + trim(s) + w2);
    }
}

/// White space around a line never changes what it means: trimming is
/// idempotent, trimming ignores white space added around a line, and the
/// line, the line trimmed, and the line with any white space added before
/// and after it all parse to the same action.
pub proof fn lemma_parse_ignores_surrounding_whitespace(s: Seq<char>, w1: Seq<char>, w2: Seq<char>)
    requires
        all_whitespace(w1),
        all_whitespace(w2),
    ensures
        trim(trim(s)) == trim(s),
        trim(w1 + s + w2) == trim(s),
        spec_parse_input(w1 + s + w2) == spec_parse_input(s),
        spec_parse_input(trim(s)) == spec_parse_input(s),
{
    lemma_trim_split(s);
    let (v1, v2) = choose|v1: Seq<char>, v2: Seq<char>|
        all_whitespace(v1) && all_whitespace(v2) && s == v1 + trim(s) + v2;
    let t = trim(s);
    assert(w1 + s + w2 =~= (w1 + v1) + t + (v2 + w2));
    assert(all_whitespace(w1 + v1)) by {
        assert forall|i: int| 0 <= i < (w1 + v1).len() implies is_whitespace(#[trigger] (w1 + v1)[i]) by {
            if i < w1.len() {
                assert((w1 + v1)[i] == w1[i]);
            } else {
                assert((w1 + v1)[i] == v1[i - w1.len()]);
            }
        }
    }
    assert(all_whitespace(v2 + w2)) by {
        assert forall|i: int| 0 <= i < (v2 + w2).len() implies is_whitespace(#[trigger] (v2 + w2)[i]) by {
            if i < v2.len() {
                assert((v2 + w2)[i] == v2[i]);
            } else {
                assert((v2 + w2)[i] == w2[i - v2.len()]);
            }
        }
    }
    lemma_trim_of_padded(w1 + v1, t, v2 + w2);
    lemma_trim_of_padded(Seq::<char>::empty(), t, Seq::<char>::empty());
    assert(Seq::<char>::empty() + t + Seq::<char>::empty() =~= t);
}

/// `y` without its trailing white space.
pub open spec fn trim_end(y: Seq<char>) -> Seq<char> {
    y.subrange(0, skip_ws_backward(y, y.len() as int))
}

/// A command word: it starts with `/` and holds no white space.
pub open spec fn is_command_word(c: Seq<char>) -> bool {
    c.len() > 0 && c[0] == '/' && forall|i: int| 0 <= i < c.len() ==> !is_whitespace(#[trigger] c[i])
}

/// Skipping back over white space stops at the end of a command word.
proof fn lemma_backward_after_word(c: Seq<char>, y: Seq<char>, j: int)
    requires
        is_command_word(c),
        0 <= j <= y.len(),
    ensures
        skip_ws_backward(c + y, c.len() + j) == c.len() + skip_ws_backward(y, j),
    decreases j,
{
    let cy = c + y;
    if j == 0 {
        assert(cy[c.len() - 1] == c[c.len() - 1]);
    } else {
        assert(cy[c.len() + j - 1] == y[j - 1]);
        if is_whitespace(y[j - 1]) {
            lemma_backward_after_word(c, y, j - 1);
        }
    }
}

/// A line that starts with a command word trims to the word followed by
/// the rest without its trailing white space.
proof fn lemma_trim_after_word(c: Seq<char>, y: Seq<char>)
    requires
        is_command_word(c),
    ensures
        trim(c + y) == c + trim_end(y),
{
    let cy = c + y;
    assert(cy[0] == c[0]);
    lemma_backward_after_word(c, y, y.len() as int);
    lemma_backward_passes_ws(y, y.len() as int);
    assert(cy.len() == c.len() + y.len());
    assert(cy.subrange(0, c.len() + skip_ws_backward(y, y.len() as int)) =~= c + trim_end(y));
}

/// The first space of `c + z` is right after the command word when `z`
/// starts with one, and there is none when `z` is empty.
proof fn lemma_first_space_after_word(c: Seq<char>, z: Seq<char>, k: int)
    requires
        is_command_word(c),
        0 <= k <= c.len(),
        z.len() == 0 || z[0] == ' ',
    ensures
        find_char_from(c + z, ' ', k) == c.len() as int,
    decreases c.len() - k,
{
    let cz = c + z;
    if k < c.len() {
        assert(cz[k] == c[k]);
        assert(!is_whitespace(c[k]));
        assert(c[k] != ' ');
        lemma_first_space_after_word(c, z, k + 1);
    } else if z.len() > 0 {
        assert(cz[k] == z[0]);
    }
}

/// What a line `c + y` holds after its command word `c`, when `y` is
/// empty or starts with a space: the rest of the line, trailing white
/// space dropped, without its first space.
pub open spec fn argument_text(y: Seq<char>) -> Seq<char> {
    if trim_end(y).len() == 0 {
        seq![]
    } else {
        trim_end(y).drop_first()
    }
}

/// A line that starts with a command word splits into that word and an
/// argument text that depends only on what follows the word.
proof fn lemma_split_after_word(c: Seq<char>, y: Seq<char>)
    requires
        is_command_word(c),
        y.len() == 0 || y[0] == ' ',
    ensures
        trim(c + y).len() > 0,
        trim(c + y)[0] == '/',
        split_command(trim(c + y)) == (c, argument_text(y)),
{
    lemma_trim_after_word(c, y);
    lemma_backward_passes_ws(y, y.len() as int);
    let z = trim_end(y);
    let t = c + z;
    assert(t[0] == c[0]);
    if z.len() > 0 {
        assert(z[0] == y[0]);
    }
    lemma_first_space_after_word(c, z, 0);
    if z.len() > 0 {
        assert(t.subrange(0, c.len() as int) =~= c);
        assert(t.subrange(c.len() as int + 1, t.len() as int) =~= z.drop_first());
    } else {
        assert(t =~= c);
    }
}

/// A command word and the same word under another name mean the same
/// thing before any argument: each alias parses exactly like its command.
proof fn lemma_alias_parses_alike(c1: Seq<char>, c2: Seq<char>, y: Seq<char>)
    requires
        is_command_word(c1),
        is_command_word(c2),
        y.len() == 0 || y[0] == ' ',
    ensures
        split_command(trim(c1 + y)).1 == split_command(trim(c2 + y)).1,
        split_command(trim(c1 + y)).0 == c1,
        split_command(trim(c2 + y)).0 == c2,
        trim(c1 + y).len() > 0 && trim(c1 + y)[0] == '/',
        trim(c2 + y).len() > 0 && trim(c2 + y)[0] == '/',
{
    lemma_split_after_word(c1, y);
    lemma_split_after_word(c2, y);
}

/// Each short alias parses exactly like its command, whatever follows it
/// after a space: `/j` like `/join`, `/p` like `/part`, `/q` like `/quit`,
/// `/sb` like `/sidebar`, `/h` like `/help`, `/s` like `/search`,
/// `/notify` like `/bell` and `/c` like `/contacts`.
pub proof fn lemma_aliases_parse_like_commands(y: Seq<char>)
    requires
        y.len() == 0 || y[0] == ' ',
    ensures
        spec_parse_input("/j"@ + y) == spec_parse_input("/join"@ + y),
        spec_parse_input("/p"@ + y) == spec_parse_input("/part"@ + y),
        spec_parse_input("/q"@ + y) == spec_parse_input("/quit"@ + y),
        spec_parse_input("/sb"@ + y) == spec_parse_input("/sidebar"@ + y),
        spec_parse_input("/h"@ + y) == spec_parse_input("/help"@ + y),
        spec_parse_input("/s"@ + y) == spec_parse_input("/search"@ + y),
        spec_parse_input("/notify"@ + y) == spec_parse_input("/bell"@ + y),
        spec_parse_input("/c"@ + y) == spec_parse_input("/contacts"@ + y),
{
    reveal_strlit("/join");
    reveal_strlit("/j");
    reveal_strlit("/part");
    reveal_strlit("/p");
    reveal_strlit("/quit");
    reveal_strlit("/q");
    reveal_strlit("/sidebar");
    reveal_strlit("/sb");
    reveal_strlit("/help");
    reveal_strlit("/h");
    reveal_strlit("/search");
    reveal_strlit("/s");
    reveal_strlit("/attach");
    reveal_strlit("/bell");
    reveal_strlit("/notify");
    reveal_strlit("/mute");
    reveal_strlit("/contacts");
    reveal_strlit("/c");
    reveal_strlit("/settings");
    assert("/join"@ =~= join_cmd());
    assert("/j"@ =~= j_cmd());
    assert("/part"@ =~= part_cmd());
    assert("/p"@ =~= p_cmd());
    assert("/quit"@ =~= quit_cmd());
    assert("/q"@ =~= q_cmd());
    assert("/sidebar"@ =~= sidebar_cmd());
    assert("/sb"@ =~= sb_cmd());
    assert("/help"@ =~= help_cmd());
    assert("/h"@ =~= h_cmd());
    lemma_alias_parses_alike("/j"@, "/join"@, y);
    lemma_alias_parses_alike("/p"@, "/part"@, y);
    lemma_alias_parses_alike("/q"@, "/quit"@, y);
    lemma_alias_parses_alike("/sb"@, "/sidebar"@, y);
    lemma_alias_parses_alike("/h"@, "/help"@, y);
    lemma_alias_parses_alike("/s"@, "/search"@, y);
    lemma_alias_parses_alike("/notify"@, "/bell"@, y);
    lemma_alias_parses_alike("/c"@, "/contacts"@, y);
}

/// Arguments are never empty: `/join` and `/search` carry a non-empty
/// name or query, and `/bell` carries a kind only when one was typed.
pub proof fn lemma_arguments_not_empty(input: Seq<char>)
    ensures
        spec_parse_input(input) matches ActionSpec::Join(a) ==> a.len() > 0,
        spec_parse_input(input) matches ActionSpec::Search(a) ==> a.len() > 0,
        spec_parse_input(input) matches ActionSpec::ToggleBell(Some(k)) ==> k.len() > 0,
{
}

/// Each command word means its action whatever follows it after a space:
/// `/part`, `/quit`, `/sidebar`, `/help`, `/attach`, `/mute`, `/contacts`
/// and `/settings` ignore what follows; `/join` and `/search` take the
/// rest of the line, trimmed, and need it non-empty; `/bell` takes it as
/// the kind to toggle when there is one.
pub proof fn lemma_commands_mean_their_actions(y: Seq<char>)
    requires
        y.len() == 0 || y[0] == ' ',
    ensures
        spec_parse_input("/part"@ + y) == ActionSpec::Part,
        spec_parse_input("/quit"@ + y) == ActionSpec::Quit,
        spec_parse_input("/sidebar"@ + y) == ActionSpec::ToggleSidebar,
        spec_parse_input("/help"@ + y) == ActionSpec::Help,
        spec_parse_input("/attach"@ + y) == ActionSpec::Attach,
        spec_parse_input("/mute"@ + y) == ActionSpec::Mute,
        spec_parse_input("/contacts"@ + y) == ActionSpec::Contacts,
        spec_parse_input("/settings"@ + y) == ActionSpec::Settings,
        spec_parse_input("/join"@ + y) == if trim(argument_text(y)).len() == 0 {
            ActionSpec::Unknown("/join requires a contact or group name"@)
        } else {
            ActionSpec::Join(trim(argument_text(y)))
        },
        spec_parse_input("/search"@ + y) == if trim(argument_text(y)).len() == 0 {
            ActionSpec::Unknown("/search requires a query"@)
        } else {
            ActionSpec::Search(trim(argument_text(y)))
        },
        spec_parse_input("/bell"@ + y) == ActionSpec::ToggleBell(
            if trim(argument_text(y)).len() == 0 {
                None
            } else {
                Some(trim(argument_text(y)))
            },
        ),
{
    reveal_strlit("/join");
    reveal_strlit("/part");
    reveal_strlit("/quit");
    reveal_strlit("/sidebar");
    reveal_strlit("/help");
    reveal_strlit("/search");
    reveal_strlit("/s");
    reveal_strlit("/attach");
    reveal_strlit("/bell");
    reveal_strlit("/notify");
    reveal_strlit("/mute");
    reveal_strlit("/contacts");
    reveal_strlit("/c");
    reveal_strlit("/settings");
    assert("/join"@ =~= join_cmd());
    assert("/part"@ =~= part_cmd());
    assert("/quit"@ =~= quit_cmd());
    assert("/sidebar"@ =~= sidebar_cmd());
    assert("/help"@ =~= help_cmd());
    assert("/attach"@[1] != "/search"@[1]);
    assert("/settings"@[1] != "/contacts"@[1]);
    lemma_split_after_word("/part"@, y);
    lemma_split_after_word("/quit"@, y);
    lemma_split_after_word("/sidebar"@, y);
    lemma_split_after_word("/help"@, y);
    lemma_split_after_word("/attach"@, y);
    lemma_split_after_word("/mute"@, y);
    lemma_split_after_word("/contacts"@, y);
    lemma_split_after_word("/settings"@, y);
    lemma_split_after_word("/join"@, y);
    lemma_split_after_word("/search"@, y);
    lemma_split_after_word("/bell"@, y);
}

/// A line that is not a command is sent as typed, without its surrounding
/// white space; a blank line is an empty message.
pub proof fn lemma_text_is_sent_trimmed(input: Seq<char>)
    ensures
        trim(input).len() == 0 ==> spec_parse_input(input) == ActionSpec::SendText(seq![]),
        trim(input).len() > 0 && trim(input)[0] != '/' ==> spec_parse_input(input)
            == ActionSpec::SendText(trim(input)),
{
}

} // verus!
