use ratatui::style::{Color, Modifier, Style};
use ratatui::text::Line;
use siggy::{append_footer, kitty_id_color, selection_style};

#[test]
fn footer_pads_then_appends() {
    let mut lines: Vec<Line<'static>> = vec![Line::from("one")];
    append_footer(&mut lines, 3, "press q", Color::Gray);
    assert_eq!(lines.len(), 5);
    assert_eq!(lines[0], Line::from("one"));
    assert_eq!(lines[3], Line::from(""));
    assert_eq!(lines[4].spans[0].content, "press q");
    assert_eq!(lines[4].spans[0].style.fg, Some(Color::Gray));
    let mut many: Vec<Line<'static>> = vec![Line::from("a"), Line::from("b")];
    append_footer(&mut many, 1, "f", Color::Gray);
    assert_eq!(many.len(), 4);
}

#[test]
fn selection_is_bold_and_coloured() {
    let s = selection_style(Color::Blue, Color::White);
    assert_eq!(s, Style::default().bg(Color::Blue).fg(Color::White).add_modifier(Modifier::BOLD));
}

#[test]
fn kitty_color() {
    assert_eq!(kitty_id_color(0x010203), Color::Rgb(1, 2, 3));
}
