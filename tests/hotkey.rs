use buddy::hotkey::{console_trigger, parse_code, parse_hotkey, HotkeyError, KeyCode, ModifierSet};

fn mods(control: bool, alt: bool, shift: bool) -> ModifierSet {
    ModifierSet { control, alt, shift }
}

fn parse_error_text(spec: &str) -> String {
    match parse_hotkey(spec) {
        Err(HotkeyError::Parse(t)) => t,
        Err(e) => panic!("unexpected error: {}", e.message()),
        Ok(_) => panic!("expected a parse error for {:?}", spec),
    }
}

#[test]
fn parse_is_case_insensitive() {
    for spec in ["ctrl+alt+k", "CTRL+Alt+K"] {
        let (m, k) = parse_hotkey(spec).ok().unwrap();
        assert_eq!(m, mods(true, true, false));
        assert_eq!(k.as_char(), 'k');
    }
}

#[test]
fn parse_modifier_alone_is_missing_key() {
    assert_eq!(parse_error_text("ctrl"), "missing key");
    assert_eq!(parse_error_text("ctrl+alt"), "missing key");
}

#[test]
fn parse_unknown_token_is_named() {
    assert_eq!(parse_error_text("xyz"), "xyz");
    assert_eq!(parse_error_text("ctrl+fn"), "fn");
    assert_eq!(parse_error_text("Ctrl+FN+k"), "fn");
}

#[test]
fn parse_last_key_token_wins() {
    let (m, k) = parse_hotkey("ctrl+alt+k+5").ok().unwrap();
    assert_eq!(m, mods(true, true, false));
    assert_eq!(k.as_char(), '5');
}

#[test]
fn parse_trims_tokens_and_accepts_aliases() {
    let (m, k) = parse_hotkey(" Shift + 5 ").ok().unwrap();
    assert_eq!(m, mods(false, false, true));
    assert_eq!(k.as_char(), '5');
    let (m, k) = parse_hotkey("control+shift+ctrl+Z").ok().unwrap();
    assert_eq!(m, mods(true, false, true));
    assert_eq!(k.as_char(), 'z');
    let (m, k) = parse_hotkey("q").ok().unwrap();
    assert_eq!(m, mods(false, false, false));
    assert_eq!(k.as_char(), 'q');
}

#[test]
fn parse_lowercases_beyond_ascii() {
    // KELVIN SIGN lower-cases to the letter k.
    let (_, k) = parse_hotkey("alt+\u{212A}").ok().unwrap();
    assert_eq!(k.as_char(), 'k');
}

#[test]
fn parse_empty_tokens_are_refused() {
    assert_eq!(parse_error_text(""), "");
    assert_eq!(parse_error_text("ctrl++k"), "");
}

#[test]
fn parse_code_accepts_only_single_alphanumerics() {
    assert_eq!(parse_code("a").unwrap().as_char(), 'a');
    assert_eq!(parse_code("9").unwrap().as_char(), '9');
    assert!(parse_code("A").is_none());
    assert!(parse_code("ab").is_none());
    assert!(parse_code("").is_none());
    assert!(parse_code("-").is_none());
}

#[test]
fn key_code_names() {
    assert_eq!(KeyCode::from_char('k').unwrap().code_name(), "KeyK");
    assert_eq!(KeyCode::from_char('a').unwrap().code_name(), "KeyA");
    assert_eq!(KeyCode::from_char('z').unwrap().code_name(), "KeyZ");
    assert_eq!(KeyCode::from_char('0').unwrap().code_name(), "Digit0");
    assert_eq!(KeyCode::from_char('5').unwrap().code_name(), "Digit5");
    assert!(KeyCode::from_char('K').is_none());
}

#[test]
fn modifier_union_is_idempotent() {
    let a = mods(true, false, false);
    let b = mods(false, true, false);
    assert_eq!(a.union(b), mods(true, true, false));
    assert_eq!(a.union(a), a);
    assert_eq!(ModifierSet::empty().union(b), b);
}

#[test]
fn hotkey_error_messages() {
    assert_eq!(HotkeyError::Parse("xyz".to_string()).message(), "invalid hotkey 'xyz'");
    assert_eq!(HotkeyError::Channel.message(), "hotkey event channel closed");
    let e = std::io::Error::new(std::io::ErrorKind::Other, "boom");
    assert_eq!(HotkeyError::Interrupt(e).message(), "input interrupted: boom");
}

#[test]
fn console_completed_line_triggers() {
    assert!(console_trigger(Ok("\n".to_string())).is_ok());
    assert!(console_trigger(Ok("go\n".to_string())).is_ok());
}

#[test]
fn console_closed_or_failed_read_interrupts() {
    assert!(matches!(console_trigger(Ok(String::new())), Err(HotkeyError::Interrupt(_))));
    assert!(matches!(console_trigger(Ok("partial".to_string())), Err(HotkeyError::Interrupt(_))));
    let e = std::io::Error::new(std::io::ErrorKind::Other, "closed");
    assert!(matches!(console_trigger(Err(e)), Err(HotkeyError::Interrupt(_))));
}
