//! Values read from the environment on every platform.
use vstd::prelude::*;

use crate::config::opt_view;

use super::nonempty_text;

verus! {

/// The terminal: `TERM_PROGRAM` (with `TERM_PROGRAM_VERSION` when set and
/// not empty), else `kitty` inside kitty, `Windows Terminal` inside it,
/// `LC_TERMINAL`, `TERM`, or `?`. Empty values count as unset, except `TERM`.
pub open spec fn terminal_text(program: Option<Seq<char>>, version: Option<Seq<char>>, kitty: bool, windows_terminal: bool, lc_terminal: Option<Seq<char>>, term: Option<Seq<char>>) -> Seq<char> {
    match nonempty_text(program) {
        Some(t) => match nonempty_text(version) {
            Some(v) => t + " "@ + v,
            None => t,
        },
        None => if kitty {
            "kitty"@
        } else if windows_terminal {
            "Windows Terminal"@
        } else {
            match nonempty_text(lc_terminal) {
                Some(t) => t,
                None => match term {
                    Some(t) => t,
                    None => "?"@,
                },
            }
        },
    }
}

/// The terminal from `TERM_PROGRAM`, `TERM_PROGRAM_VERSION`,
/// `KITTY_WINDOW_ID` (set), `WT_SESSION` (set), `LC_TERMINAL` and `TERM`.
pub fn terminal(program: Option<String>, version: Option<String>, kitty: bool, windows_terminal: bool, lc_terminal: Option<String>, term: Option<String>) -> (r: String)
    ensures
        r@ == terminal_text(
            opt_view(program),
            opt_view(version),
            kitty,
            windows_terminal,
            opt_view(lc_terminal),
            opt_view(term),
        ),
{
    match program {
        Some(t) => {
            if t.unicode_len() > 0 {
                let mut s = t;
                match version {
                    Some(v) => {
                        if v.unicode_len() > 0 {
                            s.append(" ");
                            s.append(v.as_str());
                        }
                    },
                    None => {},
                }
                return s;
            }
        },
        None => {},
    }
    if kitty {
        return String::from_str("kitty");
    }
    if windows_terminal {
        return String::from_str("Windows Terminal");
    }
    match lc_terminal {
        Some(t) => {
            if t.unicode_len() > 0 {
                return t;
            }
        },
        None => {},
    }
    match term {
        Some(t) => t,
        None => String::from_str("?"),
    }
}

/// The locale: the first of `LC_ALL`, `LC_MESSAGES`, `LANG` that is set and
/// not empty, else `C`.
pub open spec fn locale_text(lc_all: Option<Seq<char>>, lc_messages: Option<Seq<char>>, lang: Option<Seq<char>>) -> Seq<char> {
    match nonempty_text(lc_all) {
        Some(v) => v,
        None => match nonempty_text(lc_messages) {
            Some(v) => v,
            None => match nonempty_text(lang) {
                Some(v) => v,
                None => "C"@,
            },
        },
    }
}

/// The locale from `LC_ALL`, `LC_MESSAGES` and `LANG`.
pub fn locale(lc_all: Option<String>, lc_messages: Option<String>, lang: Option<String>) -> (r: String)
    ensures
        r@ == locale_text(opt_view(lc_all), opt_view(lc_messages), opt_view(lang)),
{
    match lc_all {
        Some(v) => {
            if v.unicode_len() > 0 {
                return v;
            }
        },
        None => {},
    }
    match lc_messages {
        Some(v) => {
            if v.unicode_len() > 0 {
                return v;
            }
        },
        None => {},
    }
    match lang {
        Some(v) => {
            if v.unicode_len() > 0 {
                return v;
            }
        },
        None => {},
    }
    String::from_str("C")
}

} // verus!
