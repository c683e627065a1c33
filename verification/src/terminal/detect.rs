//! Choosing the image protocol.
use vstd::prelude::*;

use crate::config::{Config, ProtocolPref};
use crate::text::{chars_of, same};

verus! {

/// The image protocol in use.
#[derive(Clone, Copy, Debug, PartialEq, Eq, Structural)]
pub enum Protocol {
    Kitty,
    Iterm2,
    Ansi,
    /// No image.
    Off,
}

/// The environment variables the detection looks at (`None`: unset or not UTF-8).
pub struct TermEnv {
    /// `KITTY_WINDOW_ID` is set.
    pub kitty_window_id: bool,
    pub term: Option<String>,
    pub term_program: Option<String>,
    pub lc_terminal: Option<String>,
}

/// The variable holds exactly `v`.
pub open spec fn var_is(o: Option<String>, v: Seq<char>) -> bool {
    match o {
        Some(s) => s@ == v,
        None => false,
    }
}

/// The protocol the terminal supports: Kitty in kitty (and ghostty), iTerm2
/// inline images in iTerm2 and WezTerm, ANSI half-blocks elsewhere.
pub open spec fn detected(e: &TermEnv) -> Protocol {
    if e.kitty_window_id || var_is(e.term, "xterm-kitty"@) {
        Protocol::Kitty
    } else if var_is(e.term_program, "iTerm.app"@) || var_is(e.term_program, "WezTerm"@) {
        Protocol::Iterm2
    } else if var_is(e.lc_terminal, "iTerm2"@) {
        Protocol::Iterm2
    } else if var_is(e.term_program, "ghostty"@) {
        Protocol::Kitty
    } else {
        Protocol::Ansi
    }
}

fn var_equals(o: &Option<String>, v: &str) -> (b: bool)
    ensures
        b == var_is(*o, v@),
{
    match o {
        Some(s) => same(chars_of(s.as_str()).as_slice(), chars_of(v).as_slice()),
        None => false,
    }
}

/// Kitty announces itself: `KITTY_WINDOW_ID` is set or `TERM` is `xterm-kitty`.
pub open spec fn kitty_marked(e: &TermEnv) -> bool {
    e.kitty_window_id || var_is(e.term, "xterm-kitty"@)
}

/// A terminal with iTerm2 inline images: `TERM_PROGRAM` is `iTerm.app` or
/// `WezTerm`, or `LC_TERMINAL` is `iTerm2`.
pub open spec fn iterm2_marked(e: &TermEnv) -> bool {
    var_is(e.term_program, "iTerm.app"@) || var_is(e.term_program, "WezTerm"@) || var_is(
        e.lc_terminal,
        "iTerm2"@,
    )
}

/// Which terminal gets which protocol: Kitty's own markers give Kitty; else
/// iTerm2, WezTerm (by `TERM_PROGRAM`) and iTerm2 (by `LC_TERMINAL`) give
/// iTerm2 inline images; else Ghostty gives Kitty; any other terminal gets
/// ANSI half-blocks. Detection never turns images off.
pub proof fn detection_per_terminal(e: &TermEnv)
    ensures
        kitty_marked(e) ==> detected(e) == Protocol::Kitty,
        !kitty_marked(e) && var_is(e.term_program, "iTerm.app"@) ==> detected(e) == Protocol::Iterm2,
        !kitty_marked(e) && var_is(e.term_program, "WezTerm"@) ==> detected(e) == Protocol::Iterm2,
        !kitty_marked(e) && var_is(e.lc_terminal, "iTerm2"@) ==> detected(e) == Protocol::Iterm2,
        !kitty_marked(e) && !iterm2_marked(e) && var_is(e.term_program, "ghostty"@) ==> detected(e)
            == Protocol::Kitty,
        !kitty_marked(e) && !iterm2_marked(e) && !var_is(e.term_program, "ghostty"@) ==> detected(e)
            == Protocol::Ansi,
        detected(e) != Protocol::Off,
{
}

/// Detects the protocol from the environment (see [`detection_per_terminal`]).
pub fn auto_detect(e: &TermEnv) -> (p: Protocol)
    ensures
        p == detected(e),
        kitty_marked(e) ==> p == Protocol::Kitty,
        !kitty_marked(e) && iterm2_marked(e) ==> p == Protocol::Iterm2,
        !kitty_marked(e) && !iterm2_marked(e) && var_is(e.term_program, "ghostty"@) ==> p
            == Protocol::Kitty,
        !kitty_marked(e) && !iterm2_marked(e) && !var_is(e.term_program, "ghostty"@) ==> p
            == Protocol::Ansi,
{
    if e.kitty_window_id || var_equals(&e.term, "xterm-kitty") {
        return Protocol::Kitty;
    }
    if var_equals(&e.term_program, "iTerm.app") || var_equals(&e.term_program, "WezTerm") {
        return Protocol::Iterm2;
    }
    if var_equals(&e.lc_terminal, "iTerm2") {
        return Protocol::Iterm2;
    }
    if var_equals(&e.term_program, "ghostty") {
        return Protocol::Kitty;
    }
    Protocol::Ansi
}

/// The protocol to use: the configured one, or the detected one for `Auto`.
pub open spec fn chosen(pref: ProtocolPref, e: &TermEnv) -> Protocol {
    match pref {
        ProtocolPref::Kitty => Protocol::Kitty,
        ProtocolPref::Iterm2 => Protocol::Iterm2,
        ProtocolPref::Ansi => Protocol::Ansi,
        ProtocolPref::Off => Protocol::Off,
        ProtocolPref::Auto => detected(e),
    }
}

/// The protocol for `cfg`: an explicit preference wins over detection.
pub fn detect_protocol(cfg: &Config, env: &TermEnv) -> (p: Protocol)
    ensures
        p == chosen(cfg.protocol, env),
{
    match cfg.protocol {
        ProtocolPref::Kitty => Protocol::Kitty,
        ProtocolPref::Iterm2 => Protocol::Iterm2,
        ProtocolPref::Ansi => Protocol::Ansi,
        ProtocolPref::Off => Protocol::Off,
        ProtocolPref::Auto => auto_detect(env),
    }
}

} // verus!
