//! What the terminal's environment says about kitty graphics: the values of
//! `KITTY_WINDOW_ID`, `TERM` and `TMUX` (read by the caller) decide whether
//! kitty is in use, whether to ask the terminal for its capabilities, and how
//! long to wait for the answer. Also the reading of on/off variables.

use vstd::prelude::*;
use crate::strs::{chars_of, starts_with, starts_with_chars, trim, trim_chars};

verus! {

/// An on/off variable is on when it is set to something other than blank
/// or `0` (surrounding whitespace ignored).
pub open spec fn flag_on(value: Option<Seq<char>>) -> bool {
    match value {
        Some(v) => trim(v).len() != 0 && trim(v) != "0"@,
        None => false,
    }
}

pub fn flag_set(value: Option<&str>) -> (b: bool)
    ensures
        b == flag_on(match value {
            Some(v) => Some(v@),
            None => None,
        }),
{
    match value {
        Some(v) => {
            let t = trim_chars(chars_of(v).as_slice());
            proof {
                reveal_strlit("0");
                if t.len() == 1 && t@[0] == '0' {
                    assert(t@ =~= "0"@);
                }
            }
            t.len() != 0 && !(t.len() == 1 && t[0] == '0')
        },
        None => false,
    }
}

/// `TERM` names kitty's own terminfo entry.
pub open spec fn is_xterm_kitty(term: Option<Seq<char>>) -> bool {
    match term {
        Some(t) => starts_with(trim(t), "xterm-kitty"@),
        None => false,
    }
}

pub fn term_is_xterm_kitty(term: Option<&str>) -> (b: bool)
    ensures
        b == is_xterm_kitty(match term {
            Some(t) => Some(t@),
            None => None,
        }),
{
    match term {
        Some(t) => {
            let c = trim_chars(chars_of(t).as_slice());
            let p = chars_of("xterm-kitty");
            starts_with_chars(c.as_slice(), p.as_slice())
        },
        None => false,
    }
}

/// Running inside a kitty window: `KITTY_WINDOW_ID` is set and not blank.
pub open spec fn kitty_window(window_id: Option<Seq<char>>) -> bool {
    match window_id {
        Some(w) => trim(w).len() != 0,
        None => false,
    }
}

pub fn in_kitty_env(window_id: Option<&str>) -> (b: bool)
    ensures
        b == kitty_window(match window_id {
            Some(w) => Some(w@),
            None => None,
        }),
{
    match window_id {
        Some(w) => trim_chars(chars_of(w).as_slice()).len() != 0,
        None => false,
    }
}

pub open spec fn opt_str(v: Option<&str>) -> Option<Seq<char>> {
    match v {
        Some(s) => Some(s@),
        None => None,
    }
}

/// Whether to ask the terminal for its graphics capabilities: inside kitty,
/// when `TERM` names kitty (it survives SSH where the window id does not),
/// and inside tmux, to learn what the outer terminal speaks.
pub fn should_query_stdio(window_id: Option<&str>, term: Option<&str>, in_tmux: bool) -> (b: bool)
    ensures
        b == (kitty_window(opt_str(window_id)) || is_xterm_kitty(opt_str(term)) || in_tmux),
{
    if in_kitty_env(window_id) {
        return true;
    }
    if term_is_xterm_kitty(term) {
        return true;
    }
    in_tmux
}

/// How long to wait for the terminal's answer, in milliseconds: long when
/// kitty is hinted, short inside tmux, not at all otherwise.
pub fn stdio_query_timeout_ms(window_id: Option<&str>, term: Option<&str>, in_tmux: bool) -> (ms: u64)
    ensures
        ms == if kitty_window(opt_str(window_id)) || is_xterm_kitty(opt_str(term)) {
            1500u64
        } else if in_tmux {
            300u64
        } else {
            0u64
        },
{
    if in_kitty_env(window_id) || term_is_xterm_kitty(term) {
        return 1500;
    }
    if in_tmux {
        return 300;
    }
    0
}

/// Kitty graphics are usable inside a kitty window, or when the terminal
/// reported the capability when asked.
pub fn kitty_supported(window_id: Option<&str>, reports_kitty: bool) -> (b: bool)
    ensures
        b == (kitty_window(opt_str(window_id)) || reports_kitty),
{
    in_kitty_env(window_id) || reports_kitty
}

} // verus!
