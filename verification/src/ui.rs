//! Styling of list overlays with `ratatui`.  The styled values are opaque
//! here; what is proved is how many lines an overlay gets and that the
//! lines already there stay.

use ratatui::style::{Color, Modifier, Style};
use ratatui::text::{Line, Span};
use vstd::prelude::*;

use crate::image_render::kitty_id_rgb;

verus! {

/// A terminal colour of `ratatui`.
#[verifier::external_type_specification]
#[verifier::external_body]
pub struct ExColor(ratatui::style::Color);

/// A text style of `ratatui`.
#[verifier::external_type_specification]
#[verifier::external_body]
pub struct ExStyle(ratatui::style::Style);

/// A line of styled text of `ratatui`.
#[verifier::external_type_specification]
#[verifier::external_body]
pub struct ExLine<'a>(ratatui::text::Line<'a>);

/// The line `Line::from(text)` of `ratatui`: one unstyled span holding
/// `text` (no span for the empty text).
pub uninterp spec fn plain_line_of(text: Seq<char>) -> Line<'static>;

/// The line `Line::from(Span::styled(text, Style::default().fg(color)))`
/// of `ratatui`: one span holding `text` in the foreground colour `color`.
pub uninterp spec fn colored_line_of(text: Seq<char>, color: Color) -> Line<'static>;

/// The style `Style::default().bg(bg).fg(fg).add_modifier(Modifier::BOLD)`
/// of `ratatui`: background `bg`, foreground `fg`, bold.
pub uninterp spec fn selection_style_of(bg: Color, fg: Color) -> Style;

/// `Line::from(text)`: an unstyled line holding `text`.  Claimed: a
/// function of `text` alone.
#[verifier::external_body]
fn plain_line(text: &'static str) -> (l: Line<'static>)
    ensures
        l == plain_line_of(text@),
{
    Line::from(text)
}

/// `Line::from(Span::styled(text, Style::default().fg(color)))`: one
/// line holding `text` in the colour `color`.  Claimed: a function of
/// `text` and `color` alone.
#[verifier::external_body]
fn colored_line(text: &str, color: Color) -> (l: Line<'static>)
    ensures
        l == colored_line_of(text@, color),
{
    Line::from(Span::styled(text.to_string(), Style::default().fg(color)))
}

/// `Style::default().bg(bg).fg(fg).add_modifier(Modifier::BOLD)`.
/// Claimed: a function of the two colours alone.
#[verifier::external_body]
fn bold_style(bg: Color, fg: Color) -> (s: Style)
    ensures
        s == selection_style_of(bg, fg),
{
    Style::default().bg(bg).fg(fg).add_modifier(Modifier::BOLD)
}

/// The colour `Color::Rgb(r, g, b)` of `ratatui`: the 24-bit colour with
/// these red, green and blue bytes.
pub uninterp spec fn rgb_color_of(r: u8, g: u8, b: u8) -> Color;

/// `Color::Rgb(r, g, b)`.  Claimed: the result is the same colour for the
/// same three bytes (the variant is built from them and nothing else).
#[verifier::external_body]
fn rgb_color(r: u8, g: u8, b: u8) -> (c: Color)
    ensures
        c == rgb_color_of(r, g, b),
{
    Color::Rgb(r, g, b)
}

/// Pad lines to fill `visible_rows` with empty lines, then append an
/// empty line and the footer in the muted colour.
pub fn append_footer(
    lines: &mut Vec<Line<'static>>,
    visible_rows: usize,
    footer_text: &str,
    muted_color: Color,
)
    ensures
        final(lines)@.len() == (if old(lines)@.len() >= visible_rows {
            old(lines)@.len() as nat
        } else {
            visible_rows as nat
        }) + 2,
        forall|i: int| 0 <= i < old(lines)@.len() ==> #[trigger] final(lines)@[i] == old(lines)@[i],
        forall|i: int|
            old(lines)@.len() <= i < final(lines)@.len() - 1 ==> #[trigger] final(lines)@[i]
                == plain_line_of(seq![]),
        final(lines)@.last() == colored_line_of(footer_text@, muted_color),
{
    proof {
        reveal_strlit("");
    }
    assert(""@ =~= Seq::<char>::empty());
    while lines.len() < visible_rows
        invariant
            ""@ == Seq::<char>::empty(),
            old(lines)@.len() <= lines@.len(),
            old(lines)@.len() < visible_rows ==> lines@.len() <= visible_rows,
            old(lines)@.len() >= visible_rows ==> lines@.len() == old(lines)@.len(),
            forall|i: int| 0 <= i < old(lines)@.len() ==> #[trigger] lines@[i] == old(lines)@[i],
            forall|i: int| old(lines)@.len() <= i < lines@.len() ==> #[trigger] lines@[i]
                == plain_line_of(seq![]),
        decreases visible_rows - lines.len(),
    {
        lines.push(plain_line(""));
    }
    lines.push(plain_line(""));
    lines.push(colored_line(footer_text, muted_color));
}

/// Standard selection highlight style for list overlays: the given
/// background and foreground, in bold.
pub fn selection_style(bg_selected: Color, fg: Color) -> (s: Style)
    ensures
        s == selection_style_of(bg_selected, fg),
{
    bold_style(bg_selected, fg)
}

/// Return the foreground color encoding a Kitty image ID as RGB: red,
/// green and blue are bits 16-23, 8-15 and 0-7 of the ID (see [`kitty_id_rgb`]).
pub fn kitty_id_color(image_id: u32) -> (c: Color)
    ensures
        c == rgb_color_of(
            ((image_id / 0x10000) % 0x100) as u8,
            ((image_id / 0x100) % 0x100) as u8,
            (image_id % 0x100) as u8,
        ),
{
    let (r, g, b) = kitty_id_rgb(image_id);
    rgb_color(r, g, b)
}

} // verus!
