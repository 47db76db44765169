use bookshelf::terminal::{flag_set, in_kitty_env, kitty_supported, should_query_stdio, stdio_query_timeout_ms, term_is_xterm_kitty};

#[test]
fn kitty_supported_true_when_picker_protocol_is_kitty() {
    // Without `KITTY_WINDOW_ID`, a kitty protocol setting alone (no reported
    // capability) is not taken as support.
    assert!(!kitty_supported(None, false));
}

#[test]
fn kitty_supported_true_when_kitty_window_id_set() {
    assert!(kitty_supported(Some("1"), false));
    assert!(in_kitty_env(Some("1")));
}

#[test]
fn should_query_stdio_true_when_term_is_xterm_kitty() {
    assert!(should_query_stdio(None, Some("xterm-kitty"), false));
}

#[test]
fn should_query_stdio_false_without_hints() {
    assert!(!should_query_stdio(None, Some("xterm-256color"), false));
}

#[test]
fn should_query_stdio_true_in_tmux() {
    assert!(should_query_stdio(None, Some("xterm-256color"), true));
}

#[test]
fn blank_window_id_is_not_kitty() {
    assert!(!in_kitty_env(Some("  ")));
    assert!(!in_kitty_env(None));
    assert!(kitty_supported(None, true));
    assert!(term_is_xterm_kitty(Some("  xterm-kitty-direct")));
    assert!(!term_is_xterm_kitty(Some("xterm")));
}

#[test]
fn query_timeouts() {
    assert_eq!(stdio_query_timeout_ms(Some("3"), None, true), 1500);
    assert_eq!(stdio_query_timeout_ms(None, Some("xterm-kitty"), false), 1500);
    assert_eq!(stdio_query_timeout_ms(None, Some("xterm"), true), 300);
    assert_eq!(stdio_query_timeout_ms(None, None, false), 0);
}

#[test]
fn flags_are_on_unless_blank_or_zero() {
    assert!(flag_set(Some("1")));
    assert!(flag_set(Some(" yes ")));
    assert!(!flag_set(Some(" 0 ")));
    assert!(!flag_set(Some("")));
    assert!(!flag_set(None));
    assert!(flag_set(Some("00")));
}
