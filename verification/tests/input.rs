use siggy::{parse_input, InputAction};

fn text(a: &InputAction) -> Option<&str> {
    match a {
        InputAction::SendText(s) => Some(s.as_str()),
        _ => None,
    }
}

#[test]
fn plain_text_is_trimmed_and_sent() {
    assert_eq!(text(&parse_input("  hello world \n")), Some("hello world"));
    assert_eq!(text(&parse_input("")), Some(""));
    assert_eq!(text(&parse_input(" \t\u{3000} ")), Some(""));
    assert_eq!(text(&parse_input("a/b")), Some("a/b"));
}

#[test]
fn commands_and_aliases() {
    assert!(matches!(parse_input("/part"), InputAction::Part));
    assert!(matches!(parse_input("/p"), InputAction::Part));
    assert!(matches!(parse_input("/quit"), InputAction::Quit));
    assert!(matches!(parse_input("  /q  "), InputAction::Quit));
    assert!(matches!(parse_input("/sidebar"), InputAction::ToggleSidebar));
    assert!(matches!(parse_input("/sb"), InputAction::ToggleSidebar));
    assert!(matches!(parse_input("/help"), InputAction::Help));
    assert!(matches!(parse_input("/h extra"), InputAction::Help));
}

#[test]
fn join_takes_trimmed_argument() {
    match parse_input("/join   Alice Smith  ") {
        InputAction::Join(name) => assert_eq!(name, "Alice Smith"),
        other => panic!("unexpected {other:?}"),
    }
    match parse_input("/j +15551234567") {
        InputAction::Join(name) => assert_eq!(name, "+15551234567"),
        other => panic!("unexpected {other:?}"),
    }
}

#[test]
fn join_without_argument_is_an_error() {
    match parse_input("/join") {
        InputAction::Unknown(msg) => assert_eq!(msg, "/join requires a contact or group name"),
        other => panic!("unexpected {other:?}"),
    }
    match parse_input("/j    ") {
        InputAction::Unknown(msg) => assert_eq!(msg, "/join requires a contact or group name"),
        other => panic!("unexpected {other:?}"),
    }
}

#[test]
fn unknown_command_names_it() {
    match parse_input("/frobnicate now") {
        InputAction::Unknown(msg) => assert_eq!(msg, "Unknown command: /frobnicate"),
        other => panic!("unexpected {other:?}"),
    }
    match parse_input("/JOIN x") {
        InputAction::Unknown(msg) => assert_eq!(msg, "Unknown command: /JOIN"),
        other => panic!("unexpected {other:?}"),
    }
}

#[test]
fn surrounding_whitespace_never_changes_the_action() {
    for line in ["hello", "/join  alice ", "/j", "/quit", "/sb", "/nope x", "", "a /b", "/help me"] {
        let plain = format!("{:?}", parse_input(line));
        assert_eq!(format!("{:?}", parse_input(line.trim())), plain);
        assert_eq!(format!("{:?}", parse_input(&format!(" \t{line}\n"))), plain);
        assert_eq!(format!("{:?}", parse_input(&format!("\u{3000}{line}\u{2028} "))), plain);
    }
}

#[test]
fn documented_commands() {
    assert!(matches!(parse_input("/search hello"), InputAction::Search(q) if q == "hello"));
    assert!(matches!(parse_input("/s  two words "), InputAction::Search(q) if q == "two words"));
    assert!(matches!(parse_input("/search"), InputAction::Unknown(m) if m == "/search requires a query"));
    assert!(matches!(parse_input("/attach"), InputAction::Attach));
    assert!(matches!(parse_input("/bell"), InputAction::ToggleBell(None)));
    assert!(matches!(parse_input("/bell direct"), InputAction::ToggleBell(Some(k)) if k == "direct"));
    assert!(matches!(parse_input("/notify group"), InputAction::ToggleBell(Some(k)) if k == "group"));
    assert!(matches!(parse_input("/mute"), InputAction::Mute));
    assert!(matches!(parse_input("/contacts"), InputAction::Contacts));
    assert!(matches!(parse_input("/c"), InputAction::Contacts));
    assert!(matches!(parse_input("/settings"), InputAction::Settings));
    assert!(matches!(parse_input("/sea"), InputAction::Unknown(m) if m == "Unknown command: /sea"));
}
