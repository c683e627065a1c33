//! Info lines and the modules that produce them.
use vstd::prelude::*;

use std::collections::VecDeque;

use crate::text::{
    push_char, chars_of, dec, dec_string, has_prefix, is_digit, join_strings, joined, same, slice_of,
    starts_with, string_views, utf8_len, lemma_bytes_len,
};

verus! {

/// How many samples each live history ring keeps.
pub const HIST_LEN: usize = 20;

/// What one line of the info column shows.
#[derive(Clone, Debug)]
pub enum LineKind {
    Field { label: String, value: String },
    Title(String),
    Separator(usize),
    Break,
    Colors,
}

/// One line of the info column.
#[derive(Clone, Debug)]
pub struct InfoLine {
    pub kind: LineKind,
}

/// The content of an info line.
pub enum LineV {
    Field(Seq<char>, Seq<char>),
    Title(Seq<char>),
    Separator(nat),
    Break,
    Colors,
}

impl View for InfoLine {
    type V = LineV;

    open spec fn view(&self) -> LineV {
        match self.kind {
            LineKind::Field { label, value } => LineV::Field(label@, value@),
            LineKind::Title(s) => LineV::Title(s@),
            LineKind::Separator(n) => LineV::Separator(n as nat),
            LineKind::Break => LineV::Break,
            LineKind::Colors => LineV::Colors,
        }
    }
}

/// The contents of a list of info lines.
pub open spec fn lines_view(v: Seq<InfoLine>) -> Seq<LineV> {
    v.map_values(|l: InfoLine| l@)
}

impl InfoLine {
    /// A `label: value` line.
    pub fn field(label: String, value: String) -> (r: InfoLine)
        ensures
            r@ == LineV::Field(label@, value@),
    {
        InfoLine { kind: LineKind::Field { label, value } }
    }

    /// The `user@host` header.
    pub fn title(s: String) -> (r: InfoLine)
        ensures
            r@ == LineV::Title(s@),
    {
        InfoLine { kind: LineKind::Title(s) }
    }

    /// A divider `n` characters wide.
    pub fn sep(n: usize) -> (r: InfoLine)
        ensures
            r@ == LineV::Separator(n as nat),
    {
        InfoLine { kind: LineKind::Separator(n) }
    }

    /// A blank spacer line.
    pub fn br() -> (r: InfoLine)
        ensures
            r@ == LineV::Break,
    {
        InfoLine { kind: LineKind::Break }
    }

    /// The colour swatches.
    pub fn colors() -> (r: InfoLine)
        ensures
            r@ == LineV::Colors,
    {
        InfoLine { kind: LineKind::Colors }
    }

    /// A copy of this line.
    pub fn duplicate(&self) -> (r: InfoLine)
        ensures
            r@ == self@,
    {
        match &self.kind {
            LineKind::Field { label, value } => InfoLine::field(label.clone(), value.clone()),
            LineKind::Title(s) => InfoLine::title(s.clone()),
            LineKind::Separator(n) => InfoLine::sep(*n),
            LineKind::Break => InfoLine::br(),
            LineKind::Colors => InfoLine::colors(),
        }
    }
}

/// Every known module with a one-line description, in default layout order.
pub open spec fn module_catalog() -> Seq<(Seq<char>, Seq<char>)> {
    seq![
        ("title"@, "user@hostname header"@),
        ("separator"@, "divider line under the title"@),
        ("os"@, "OS name + version + arch"@),
        ("host"@, "hardware model (DMI / sysctl hw.model)"@),
        ("kernel"@, "kernel name and version"@),
        ("init"@, "init system (systemd, launchd, openrc…)"@),
        ("uptime"@, "time since boot"@),
        ("loadavg"@, "load averages 1/5/15"@),
        ("packages"@, "installed package count per package manager"@),
        ("shell"@, "current shell ($SHELL)"@),
        ("terminal"@, "terminal program ($TERM_PROGRAM / $TERM)"@),
        ("session"@, "session type (Wayland/X11/TTY) and compositor"@),
        ("de"@, "desktop environment"@),
        ("wm"@, "window manager"@),
        ("resolution"@, "active display resolution per connector"@),
        ("cpu"@, "CPU brand, cores, frequency, live usage % + sparkline"@),
        ("cputemp"@, "CPU temperature from hwmon (Linux)"@),
        ("gpu"@, "GPU model with kernel driver in brackets"@),
        ("gpudriver"@, "GPU kernel driver (separate line)"@),
        ("memory"@, "used/total RAM, percentage, bar"@),
        ("swap"@, "used/total swap (hidden when no swap)"@),
        ("network"@, "rx/tx rates with sparklines (excludes loopback)"@),
        ("disk"@, "per-mount used/total/percent"@),
        ("localip"@, "primary IPv4 address + interface"@),
        ("localip6"@, "primary IPv6 address + interface"@),
        ("audio"@, "audio server (PipeWire/PulseAudio/CoreAudio)"@),
        ("theme"@, "GTK theme + icons (Linux) / Light/Dark (macOS)"@),
        ("battery"@, "charge % and AC/charging state"@),
        ("locale"@, "$LC_ALL / $LANG"@),
        ("break"@, "blank line spacer"@),
        ("colors"@, "16-color palette swatches"@),
    ]
}


/// `(name, description)` pairs of the catalogue as strings.
fn push_entry(v: &mut Vec<(String, String)>, name: &str, desc: &str)
    ensures
        catalog_view(final(v)@) == catalog_view(old(v)@).push((name@, desc@)),
{
    let ghost before = v@;
    v.push((String::from_str(name), String::from_str(desc)));
    proof {
        assert(catalog_view(v@) =~= catalog_view(before).push((name@, desc@)));
    }
}

/// The contents of a list of `(name, description)` pairs.
pub open spec fn catalog_view(v: Seq<(String, String)>) -> Seq<(Seq<char>, Seq<char>)> {
    v.map_values(|e: (String, String)| (e.0@, e.1@))
}

/// Every known module with its description (see [`module_catalog`]).
pub fn all_modules() -> (r: Vec<(String, String)>)
    ensures
        catalog_view(r@) == module_catalog(),
{
    let mut v: Vec<(String, String)> = Vec::new();
    push_entry(&mut v, "title", "user@hostname header");
    push_entry(&mut v, "separator", "divider line under the title");
    push_entry(&mut v, "os", "OS name + version + arch");
    push_entry(&mut v, "host", "hardware model (DMI / sysctl hw.model)");
    push_entry(&mut v, "kernel", "kernel name and version");
    push_entry(&mut v, "init", "init system (systemd, launchd, openrc…)");
    push_entry(&mut v, "uptime", "time since boot");
    push_entry(&mut v, "loadavg", "load averages 1/5/15");
    push_entry(&mut v, "packages", "installed package count per package manager");
    push_entry(&mut v, "shell", "current shell ($SHELL)");
    push_entry(&mut v, "terminal", "terminal program ($TERM_PROGRAM / $TERM)");
    push_entry(&mut v, "session", "session type (Wayland/X11/TTY) and compositor");
    push_entry(&mut v, "de", "desktop environment");
    push_entry(&mut v, "wm", "window manager");
    push_entry(&mut v, "resolution", "active display resolution per connector");
    push_entry(&mut v, "cpu", "CPU brand, cores, frequency, live usage % + sparkline");
    push_entry(&mut v, "cputemp", "CPU temperature from hwmon (Linux)");
    push_entry(&mut v, "gpu", "GPU model with kernel driver in brackets");
    push_entry(&mut v, "gpudriver", "GPU kernel driver (separate line)");
    push_entry(&mut v, "memory", "used/total RAM, percentage, bar");
    push_entry(&mut v, "swap", "used/total swap (hidden when no swap)");
    push_entry(&mut v, "network", "rx/tx rates with sparklines (excludes loopback)");
    push_entry(&mut v, "disk", "per-mount used/total/percent");
    push_entry(&mut v, "localip", "primary IPv4 address + interface");
    push_entry(&mut v, "localip6", "primary IPv6 address + interface");
    push_entry(&mut v, "audio", "audio server (PipeWire/PulseAudio/CoreAudio)");
    push_entry(&mut v, "theme", "GTK theme + icons (Linux) / Light/Dark (macOS)");
    push_entry(&mut v, "battery", "charge % and AC/charging state");
    push_entry(&mut v, "locale", "$LC_ALL / $LANG");
    push_entry(&mut v, "break", "blank line spacer");
    push_entry(&mut v, "colors", "16-color palette swatches");
    proof {
        assert(catalog_view(v@) =~= module_catalog());
    }
    v
}

/// `n` spaces.
pub open spec fn spaces(n: nat) -> Seq<char> {
    Seq::new(n, |i: int| ' ')
}

/// `s` padded on the right with spaces to `w` characters (`{:w$}`).
pub open spec fn pad_right(s: Seq<char>, w: nat) -> Seq<char> {
    if s.len() >= w {
        s
    } else {
        s + spaces((w - s.len()) as nat)
    }
}

/// The widest name in a catalogue.
pub open spec fn widest(c: Seq<(Seq<char>, Seq<char>)>) -> nat
    decreases c.len(),
{
    if c.len() == 0 {
        0
    } else {
        let w = widest(c.drop_last());
        if c.last().0.len() > w {
            c.last().0.len()
        } else {
            w
        }
    }
}

/// The `--list-modules` output: one line per module, names padded to a common width.
pub open spec fn module_listing_lines() -> Seq<Seq<char>> {
    let c = module_catalog();
    let w = widest(c);
    Seq::new(c.len(), |i: int| "  "@ + pad_right(c[i].0, w) + "  "@ + c[i].1)
}

fn pad_string(s: &String, w: usize) -> (r: String)
    ensures
        r@ == pad_right(s@, w as nat),
{
    let n = s.as_str().unicode_len();
    let mut r = s.clone();
    if n < w {
        let mut k: usize = n;
        while k < w
            invariant
                n <= k <= w,
                n == s@.len(),
                r@ =~= s@ + spaces((k - n) as nat),
            decreases w - k,
        {
            push_char(&mut r, ' ');
            k = k + 1;
            proof {
                assert(spaces((k - n) as nat) =~= spaces((k - 1 - n) as nat).push(' '));
            }
        }
    }
    r
}

/// The lines printed for `--list-modules`.
pub fn module_listing() -> (r: Vec<String>)
    ensures
        string_views(r@) == module_listing_lines(),
{
    let cat = all_modules();
    let ghost c = module_catalog();
    let mut w: usize = 0;
    let mut i: usize = 0;
    while i < cat.len()
        invariant
            catalog_view(cat@) == c,
            c == module_catalog(),
            i <= cat@.len(),
            w == widest(c.subrange(0, i as int)),
        decreases cat.len() - i,
    {
        proof {
            assert(c.subrange(0, i + 1).drop_last() =~= c.subrange(0, i as int));
        }
        let n = cat[i].0.as_str().unicode_len();
        if n > w {
            w = n;
        }
        i = i + 1;
    }
    proof {
        assert(c.subrange(0, c.len() as int) =~= c);
    }
    let mut out: Vec<String> = Vec::new();
    let mut j: usize = 0;
    while j < cat.len()
        invariant
            catalog_view(cat@) == c,
            c == module_catalog(),
            j <= cat@.len(),
            w == widest(c),
            string_views(out@) =~= module_listing_lines().subrange(0, j as int),
        decreases cat.len() - j,
    {
        proof {
            assert(cat@.len() == c.len());
            assert(c[j as int] == (cat@[j as int].0@, cat@[j as int].1@));
        }
        let mut line = String::from_str("  ");
        let padded = pad_string(&cat[j].0, w);
        line.append(padded.as_str());
        line.append("  ");
        line.append(cat[j].1.as_str());
        let ghost before = out@;
        out.push(line);
        proof {
            let ll = module_listing_lines();
            assert(ll.len() == c.len());
            assert(ll[j as int] == "  "@ + pad_right(c[j as int].0, w as nat) + "  "@ + c[j as int].1);
            assert(line@ =~= ll[j as int]);
            assert(string_views(out@) =~= string_views(before).push(line@));
            assert(module_listing_lines().subrange(0, j + 1) =~= module_listing_lines().subrange(
                0,
                j as int,
            ).push(line@));
        }
        j = j + 1;
    }
    out
}

/// `name` is a loopback interface: `lo`, or `lo` followed by one or more digits.
pub open spec fn loopback_name(n: Seq<char>) -> bool {
    n == "lo"@ || (has_prefix(n, "lo"@) && n.len() > 2 && forall|i: int|
        2 <= i < n.len() ==> is_digit(#[trigger] n[i]))
}

/// Whether `name` is a loopback interface (`lo`, `lo0`, `lo1`, ...).
pub fn is_loopback(name: &str) -> (b: bool)
    ensures
        b == loopback_name(name@),
{
    let n = chars_of(name);
    let lo = chars_of("lo");
    if same(n.as_slice(), lo.as_slice()) {
        return true;
    }
    if !starts_with(n.as_slice(), lo.as_slice()) || n.len() <= 2 {
        return false;
    }
    let mut i: usize = 2;
    while i < n.len()
        invariant
            2 <= i <= n@.len(),
            n@ == name@,
            n@ != "lo"@,
            forall|j: int| 2 <= j < i ==> is_digit(#[trigger] n@[j]),
        decreases n.len() - i,
    {
        if !('0' <= n[i] && n[i] <= '9') {
            proof {
                assert(!is_digit(n@[i as int]));
            }
            return false;
        }
        i = i + 1;
    }
    true
}

/// Appends `v`, first dropping the oldest sample when the ring is full.
pub fn push_capped<T>(buf: &mut VecDeque<T>, v: T)
    ensures
        final(buf)@ == if old(buf)@.len() == HIST_LEN {
            old(buf)@.drop_first().push(v)
        } else {
            old(buf)@.push(v)
        },
{
    if buf.len() == HIST_LEN {
        buf.pop_front();
    }
    buf.push_back(v);
}

/// A ring that was within its cap stays within it after a push.
pub proof fn push_capped_stays_capped<T>(before: Seq<T>, v: T)
    requires
        before.len() <= HIST_LEN,
    ensures
        (if before.len() == HIST_LEN {
            before.drop_first().push(v)
        } else {
            before.push(v)
        }).len() <= HIST_LEN,
{
}

/// Uptime as `Xd Yh Zm`; days and hours are left out when zero.
pub open spec fn uptime_text(secs: nat) -> Seq<char> {
    let d = secs / 86400;
    let h = (secs % 86400) / 3600;
    let m = (secs % 3600) / 60;
    let days = if d > 0 {
        seq![dec(d) + "d"@]
    } else {
        Seq::empty()
    };
    let hours = if h > 0 {
        seq![dec(h) + "h"@]
    } else {
        Seq::empty()
    };
    joined(days + hours + seq![dec(m) + "m"@], " "@)
}

/// Formats an uptime in seconds.
pub fn fmt_uptime(secs: u64) -> (r: String)
    ensures
        r@ == uptime_text(secs as nat),
{
    let d = secs / 86_400;
    let h = (secs % 86_400) / 3600;
    let m = (secs % 3600) / 60;
    let mut parts: Vec<String> = Vec::new();
    let ghost p0 = parts@;
    if d > 0 {
        let mut s = dec_string(d);
        s.append("d");
        parts.push(s);
    }
    let ghost p1 = parts@;
    if h > 0 {
        let mut s = dec_string(h);
        s.append("h");
        parts.push(s);
    }
    let ghost p2 = parts@;
    let mut s = dec_string(m);
    s.append("m");
    parts.push(s);
    proof {
        let d2 = (secs as nat) / 86400;
        let h2 = ((secs as nat) % 86400) / 3600;
        let days = if d2 > 0 {
            seq![dec(d2) + "d"@]
        } else {
            Seq::<Seq<char>>::empty()
        };
        let hours = if h2 > 0 {
            seq![dec(h2) + "h"@]
        } else {
            Seq::<Seq<char>>::empty()
        };
        assert(string_views(p1) =~= days);
        assert(string_views(p2) =~= days + hours);
        assert(string_views(parts@) =~= days + hours + seq![dec(((secs as nat) % 3600) / 60) + "m"@]);
    }
    join_strings(&parts, " ")
}

/// The `user@host` title text; an unknown host shows as `host`.
pub open spec fn title_text(user: Seq<char>, host: Option<Seq<char>>) -> Seq<char> {
    user + "@"@ + match host {
        Some(h) => h,
        None => "host"@,
    }
}

/// Width of the separator under the title: the title's length in bytes
/// (an unknown host counting as empty), at least 8.
pub open spec fn title_width_of(user: Seq<char>, host: Option<Seq<char>>) -> int {
    let n = utf8_len(user) + 1 + match host {
        Some(h) => utf8_len(h),
        None => 0,
    };
    if n > 8 {
        n
    } else {
        8
    }
}


/// The `user@host` title (host `None` when it could not be read).
pub fn title_line(user: &str, host: Option<&str>) -> (r: InfoLine)
    ensures
        r@ == LineV::Title(
            title_text(
                user@,
                match host {
                    Some(h) => Some(h@),
                    None => None,
                },
            ),
        ),
{
    let mut s = String::from_str(user);
    s.append("@");
    match host {
        Some(h) => s.append(h),
        None => s.append("host"),
    }
    InfoLine::title(s)
}

/// The divider under the title, as wide as the title in bytes, at least 8.
pub fn title_width(user: &str, host: Option<&str>) -> (r: usize)
    requires
        utf8_len(user@) + 1 + match host {
            Some(h) => utf8_len(h@),
            None => 0,
        } <= usize::MAX,
    ensures
        r == title_width_of(
            user@,
            match host {
                Some(h) => Some(h@),
                None => None,
            },
        ),
{
    proof {
        lemma_bytes_len(user@);
        match host {
            Some(h) => lemma_bytes_len(h@),
            None => {},
        }
    }
    let hl = match host {
        Some(h) => h.len(),
        None => 0,
    };
    let n = user.len() + 1 + hl;
    if n > 8 {
        n
    } else {
        8
    }
}

/// What an info module needs from the system to render.
#[derive(Clone, Copy, Debug, PartialEq, Eq, Structural)]
pub enum Probe {
    /// The user and host names (`title`, `separator`).
    Identity,
    /// Kernel name and version.
    Kernel,
    /// Seconds since boot.
    Uptime,
    /// One always-present text value.
    Text,
    /// One optional text value; absent means no line.
    Maybe,
    /// A list of values, one line each.
    Each,
    /// A list of values, joined on one line; empty means no line.
    Joined,
    /// The receive and transmit rates.
    Pair,
    /// Prepared `(label, value)` lines (per-mount disk usage).
    Fields,
    /// Nothing at all (`break`, `colors`).
    Plain,
}

/// The value read from the system for one module.
pub enum Reading {
    Identity { user: String, host: Option<String> },
    Kernel { name: Option<String>, version: Option<String> },
    Seconds(u64),
    Text(String),
    Maybe(Option<String>),
    List(Vec<String>),
    Pair(String, String),
    Fields(Vec<(String, String)>),
    Nothing,
}

/// Label of a module that shows one always-present value.
pub open spec fn text_label(n: Seq<char>) -> Option<Seq<char>> {
    if n == "os"@ {
        Some("OS"@)
    } else if n == "host"@ {
        Some("Host"@)
    } else if n == "shell"@ {
        Some("Shell"@)
    } else if n == "terminal"@ {
        Some("Terminal"@)
    } else if n == "cpu"@ {
        Some("CPU"@)
    } else if n == "memory"@ {
        Some("Memory"@)
    } else if n == "locale"@ {
        Some("Locale"@)
    } else {
        None
    }
}

/// Label of a module that shows an optional value.
pub open spec fn maybe_label(n: Seq<char>) -> Option<Seq<char>> {
    if n == "de"@ {
        Some("DE"@)
    } else if n == "wm"@ {
        Some("WM"@)
    } else if n == "resolution"@ {
        Some("Resolution"@)
    } else if n == "swap"@ {
        Some("Swap"@)
    } else if n == "battery"@ {
        Some("Battery"@)
    } else if n == "init"@ {
        Some("Init"@)
    } else if n == "loadavg"@ {
        Some("Load"@)
    } else if n == "cputemp"@ {
        Some("CPU Temp"@)
    } else if n == "audio"@ {
        Some("Audio"@)
    } else if n == "session"@ {
        Some("Session"@)
    } else if n == "localip"@ {
        Some("Local IP"@)
    } else if n == "localip6"@ {
        Some("Local IPv6"@)
    } else if n == "theme"@ {
        Some("Theme"@)
    } else {
        None
    }
}

/// Label of a module that shows one line per listed value.
pub open spec fn each_label(n: Seq<char>) -> Option<Seq<char>> {
    if n == "gpu"@ {
        Some("GPU"@)
    } else if n == "gpudriver"@ {
        Some("GPU Driver"@)
    } else {
        None
    }
}

/// What module `n` needs; `None` for an unknown module.
pub open spec fn probe_of(n: Seq<char>) -> Option<Probe> {
    if n == "title"@ || n == "separator"@ {
        Some(Probe::Identity)
    } else if n == "kernel"@ {
        Some(Probe::Kernel)
    } else if n == "uptime"@ {
        Some(Probe::Uptime)
    } else if text_label(n) is Some {
        Some(Probe::Text)
    } else if maybe_label(n) is Some {
        Some(Probe::Maybe)
    } else if each_label(n) is Some {
        Some(Probe::Each)
    } else if n == "packages"@ {
        Some(Probe::Joined)
    } else if n == "network"@ {
        Some(Probe::Pair)
    } else if n == "disk"@ {
        Some(Probe::Fields)
    } else if n == "break"@ || n == "colors"@ {
        Some(Probe::Plain)
    } else {
        None
    }
}

/// The reading has the shape that the probe asks for.
pub open spec fn fits(p: Probe, r: &Reading) -> bool {
    match p {
        Probe::Identity => r is Identity,
        Probe::Kernel => r is Kernel,
        Probe::Uptime => r is Seconds,
        Probe::Text => r is Text,
        Probe::Maybe => r is Maybe,
        Probe::Each => r is List,
        Probe::Joined => r is List,
        Probe::Pair => r is Pair,
        Probe::Fields => r is Fields,
        Probe::Plain => r is Nothing,
    }
}

/// The optional string's characters.
pub open spec fn opt_chars(o: Option<String>) -> Option<Seq<char>> {
    match o {
        Some(s) => Some(s@),
        None => None,
    }
}

/// `o`'s characters, or `d` when absent.
pub open spec fn or_default(o: Option<String>, d: Seq<char>) -> Seq<char> {
    match o {
        Some(s) => s@,
        None => d,
    }
}

/// The lines module `n` renders from reading `r` (`None` for an unknown module).
pub open spec fn rendered(n: Seq<char>, r: Reading) -> Option<Seq<LineV>> {
    match probe_of(n) {
        None => None,
        Some(p) => Some(
            match (p, r) {
                (Probe::Identity, Reading::Identity { user, host }) => if n == "title"@ {
                    seq![LineV::Title(title_text(user@, opt_chars(host)))]
                } else {
                    seq![LineV::Separator(title_width_of(user@, opt_chars(host)) as nat)]
                },
                (Probe::Kernel, Reading::Kernel { name, version }) => seq![
                    LineV::Field(
                        "Kernel"@,
                        or_default(name, "Unknown"@) + " "@ + or_default(version, "?"@),
                    ),
                ],
                (Probe::Uptime, Reading::Seconds(s)) => seq![
                    LineV::Field("Uptime"@, uptime_text(s as nat)),
                ],
                (Probe::Text, Reading::Text(t)) => seq![LineV::Field(text_label(n)->0, t@)],
                (Probe::Maybe, Reading::Maybe(o)) => match o {
                    Some(t) => seq![LineV::Field(maybe_label(n)->0, t@)],
                    None => Seq::empty(),
                },
                (Probe::Each, Reading::List(v)) => Seq::new(
                    v@.len(),
                    |i: int| LineV::Field(each_label(n)->0, v@[i]@),
                ),
                (Probe::Joined, Reading::List(v)) => if v@.len() == 0 {
                    Seq::empty()
                } else {
                    seq![LineV::Field("Packages"@, joined(string_views(v@), ", "@))]
                },
                (Probe::Pair, Reading::Pair(down, up)) => seq![
                    LineV::Field("Net ↓"@, down@),
                    LineV::Field("Net ↑"@, up@),
                ],
                (Probe::Fields, Reading::Fields(v)) => Seq::new(
                    v@.len(),
                    |i: int| LineV::Field(v@[i].0@, v@[i].1@),
                ),
                (Probe::Plain, Reading::Nothing) => if n == "break"@ {
                    seq![LineV::Break]
                } else {
                    seq![LineV::Colors]
                },
                _ => Seq::empty(),
            },
        ),
    }
}

/// The module appears in the catalogue.
pub open spec fn in_catalog(n: Seq<char>) -> bool {
    exists|i: int| 0 <= i < module_catalog().len() && #[trigger] module_catalog()[i].0 == n
}

/// [`render`] gives lines exactly for the modules of the catalogue, whatever
/// was read; `break` and `colors` (read as nothing) give one blank line and
/// one palette line.
pub proof fn render_knows_the_catalog(n: Seq<char>, r: Reading)
    ensures
        rendered(n, r) is Some <==> in_catalog(n),
        r is Nothing ==> rendered("break"@, r) == Some(seq![LineV::Break]),
        r is Nothing ==> rendered("colors"@, r) == Some(seq![LineV::Colors]),
{
    assert(module_catalog().len() == 31);
    if r is Nothing {
        assert(probe_of("colors"@) == Some(Probe::Plain) && probe_of("break"@) == Some(Probe::Plain)
            && "colors"@ != "break"@) by {
            reveal_strlit("title");
            reveal_strlit("separator");
            reveal_strlit("os");
            reveal_strlit("host");
            reveal_strlit("kernel");
            reveal_strlit("init");
            reveal_strlit("uptime");
            reveal_strlit("loadavg");
            reveal_strlit("packages");
            reveal_strlit("shell");
            reveal_strlit("terminal");
            reveal_strlit("session");
            reveal_strlit("de");
            reveal_strlit("wm");
            reveal_strlit("resolution");
            reveal_strlit("cpu");
            reveal_strlit("cputemp");
            reveal_strlit("gpu");
            reveal_strlit("gpudriver");
            reveal_strlit("memory");
            reveal_strlit("swap");
            reveal_strlit("network");
            reveal_strlit("disk");
            reveal_strlit("localip");
            reveal_strlit("localip6");
            reveal_strlit("audio");
            reveal_strlit("theme");
            reveal_strlit("battery");
            reveal_strlit("locale");
            reveal_strlit("break");
            reveal_strlit("colors");
            assert("break"@[0] == 'b');
            assert("title"@[0] == 't');
            assert("shell"@[0] == 's');
            assert("audio"@[0] == 'a');
            assert("theme"@[0] == 't');
            assert("colors"@[0] == 'c');
            assert("kernel"@[0] == 'k');
            assert("uptime"@[0] == 'u');
            assert("memory"@[0] == 'm');
            assert("locale"@[0] == 'l');
            assert("colors"@ != "title"@);
            assert("colors"@ != "separator"@);
            assert("colors"@ != "os"@);
            assert("colors"@ != "host"@);
            assert("colors"@ != "kernel"@);
            assert("colors"@ != "init"@);
            assert("colors"@ != "uptime"@);
            assert("colors"@ != "loadavg"@);
            assert("colors"@ != "packages"@);
            assert("colors"@ != "shell"@);
            assert("colors"@ != "terminal"@);
            assert("colors"@ != "session"@);
            assert("colors"@ != "de"@);
            assert("colors"@ != "wm"@);
            assert("colors"@ != "resolution"@);
            assert("colors"@ != "gpu"@);
            assert("colors"@ != "gpudriver"@);
            assert("colors"@ != "memory"@);
            assert("colors"@ != "swap"@);
            assert("colors"@ != "network"@);
            assert("colors"@ != "disk"@);
            assert("colors"@ != "localip"@);
            assert("colors"@ != "localip6"@);
            assert("colors"@ != "audio"@);
            assert("colors"@ != "theme"@);
            assert("colors"@ != "battery"@);
            assert("colors"@ != "locale"@);
            assert("colors"@ != "break"@);
            assert("colors"@.len() == 6);
            assert("cpu"@.len() == 3);
            assert("cputemp"@.len() == 7);
            assert("colors"@ != "cpu"@);
            assert("colors"@ != "cputemp"@);
            assert(text_label("colors"@) is None);
            assert(maybe_label("colors"@) is None);
            assert(each_label("colors"@) is None);
            assert("break"@ != "title"@);
            assert("break"@ != "separator"@);
            assert("break"@ != "os"@);
            assert("break"@ != "host"@);
            assert("break"@ != "kernel"@);
            assert("break"@ != "init"@);
            assert("break"@ != "uptime"@);
            assert("break"@ != "loadavg"@);
            assert("break"@ != "packages"@);
            assert("break"@ != "shell"@);
            assert("break"@ != "terminal"@);
            assert("break"@ != "session"@);
            assert("break"@ != "de"@);
            assert("break"@ != "wm"@);
            assert("break"@ != "resolution"@);
            assert("break"@ != "cpu"@);
            assert("break"@ != "cputemp"@);
            assert("break"@ != "gpu"@);
            assert("break"@ != "gpudriver"@);
            assert("break"@ != "memory"@);
            assert("break"@ != "swap"@);
            assert("break"@ != "network"@);
            assert("break"@ != "disk"@);
            assert("break"@ != "localip"@);
            assert("break"@ != "localip6"@);
            assert("break"@ != "audio"@);
            assert("break"@ != "theme"@);
            assert("break"@.len() == 5);
            assert("battery"@.len() == 7);
            assert("break"@ != "battery"@);
            assert("break"@ != "locale"@);
            assert(text_label("break"@) is None);
            assert(maybe_label("break"@) is None);
            assert(each_label("break"@) is None);
            assert(probe_of("colors"@) == Some(Probe::Plain));
            assert(probe_of("break"@) == Some(Probe::Plain));
        }
    }
    assert(module_catalog()[0].0 == "title"@);
    assert(module_catalog()[1].0 == "separator"@);
    assert(module_catalog()[2].0 == "os"@);
    assert(module_catalog()[3].0 == "host"@);
    assert(module_catalog()[4].0 == "kernel"@);
    assert(module_catalog()[5].0 == "init"@);
    assert(module_catalog()[6].0 == "uptime"@);
    assert(module_catalog()[7].0 == "loadavg"@);
    assert(module_catalog()[8].0 == "packages"@);
    assert(module_catalog()[9].0 == "shell"@);
    assert(module_catalog()[10].0 == "terminal"@);
    assert(module_catalog()[11].0 == "session"@);
    assert(module_catalog()[12].0 == "de"@);
    assert(module_catalog()[13].0 == "wm"@);
    assert(module_catalog()[14].0 == "resolution"@);
    assert(module_catalog()[15].0 == "cpu"@);
    assert(module_catalog()[16].0 == "cputemp"@);
    assert(module_catalog()[17].0 == "gpu"@);
    assert(module_catalog()[18].0 == "gpudriver"@);
    assert(module_catalog()[19].0 == "memory"@);
    assert(module_catalog()[20].0 == "swap"@);
    assert(module_catalog()[21].0 == "network"@);
    assert(module_catalog()[22].0 == "disk"@);
    assert(module_catalog()[23].0 == "localip"@);
    assert(module_catalog()[24].0 == "localip6"@);
    assert(module_catalog()[25].0 == "audio"@);
    assert(module_catalog()[26].0 == "theme"@);
    assert(module_catalog()[27].0 == "battery"@);
    assert(module_catalog()[28].0 == "locale"@);
    assert(module_catalog()[29].0 == "break"@);
    assert(module_catalog()[30].0 == "colors"@);
    if in_catalog(n) {
        let i = choose|i: int| 0 <= i < module_catalog().len() && #[trigger] module_catalog()[i].0 == n;
        assert(0 <= i < 31);
    }
    if probe_of(n) is Some {
        if n == "title"@ {
            assert(module_catalog()[0].0 == n);
        } else if n == "separator"@ {
            assert(module_catalog()[1].0 == n);
        } else if n == "os"@ {
            assert(module_catalog()[2].0 == n);
        } else if n == "host"@ {
            assert(module_catalog()[3].0 == n);
        } else if n == "kernel"@ {
            assert(module_catalog()[4].0 == n);
        } else if n == "init"@ {
            assert(module_catalog()[5].0 == n);
        } else if n == "uptime"@ {
            assert(module_catalog()[6].0 == n);
        } else if n == "loadavg"@ {
            assert(module_catalog()[7].0 == n);
        } else if n == "packages"@ {
            assert(module_catalog()[8].0 == n);
        } else if n == "shell"@ {
            assert(module_catalog()[9].0 == n);
        } else if n == "terminal"@ {
            assert(module_catalog()[10].0 == n);
        } else if n == "session"@ {
            assert(module_catalog()[11].0 == n);
        } else if n == "de"@ {
            assert(module_catalog()[12].0 == n);
        } else if n == "wm"@ {
            assert(module_catalog()[13].0 == n);
        } else if n == "resolution"@ {
            assert(module_catalog()[14].0 == n);
        } else if n == "cpu"@ {
            assert(module_catalog()[15].0 == n);
        } else if n == "cputemp"@ {
            assert(module_catalog()[16].0 == n);
        } else if n == "gpu"@ {
            assert(module_catalog()[17].0 == n);
        } else if n == "gpudriver"@ {
            assert(module_catalog()[18].0 == n);
        } else if n == "memory"@ {
            assert(module_catalog()[19].0 == n);
        } else if n == "swap"@ {
            assert(module_catalog()[20].0 == n);
        } else if n == "network"@ {
            assert(module_catalog()[21].0 == n);
        } else if n == "disk"@ {
            assert(module_catalog()[22].0 == n);
        } else if n == "localip"@ {
            assert(module_catalog()[23].0 == n);
        } else if n == "localip6"@ {
            assert(module_catalog()[24].0 == n);
        } else if n == "audio"@ {
            assert(module_catalog()[25].0 == n);
        } else if n == "theme"@ {
            assert(module_catalog()[26].0 == n);
        } else if n == "battery"@ {
            assert(module_catalog()[27].0 == n);
        } else if n == "locale"@ {
            assert(module_catalog()[28].0 == n);
        } else if n == "break"@ {
            assert(module_catalog()[29].0 == n);
        } else if n == "colors"@ {
            assert(module_catalog()[30].0 == n);
        }
    }
}

fn is_name(n: &Vec<char>, lit: &str) -> (b: bool)
    ensures
        b == (n@ == lit@),
{
    let l = chars_of(lit);
    same(n.as_slice(), l.as_slice())
}

fn text_label_of(n: &Vec<char>) -> (r: Option<&'static str>)
    ensures
        match r {
            Some(l) => text_label(n@) == Some(l@),
            None => text_label(n@) is None,
        },
{
    if is_name(n, "os") {
        Some("OS")
    } else if is_name(n, "host") {
        Some("Host")
    } else if is_name(n, "shell") {
        Some("Shell")
    } else if is_name(n, "terminal") {
        Some("Terminal")
    } else if is_name(n, "cpu") {
        Some("CPU")
    } else if is_name(n, "memory") {
        Some("Memory")
    } else if is_name(n, "locale") {
        Some("Locale")
    } else {
        None
    }
}

fn maybe_label_of(n: &Vec<char>) -> (r: Option<&'static str>)
    ensures
        match r {
            Some(l) => maybe_label(n@) == Some(l@),
            None => maybe_label(n@) is None,
        },
{
    if is_name(n, "de") {
        Some("DE")
    } else if is_name(n, "wm") {
        Some("WM")
    } else if is_name(n, "resolution") {
        Some("Resolution")
    } else if is_name(n, "swap") {
        Some("Swap")
    } else if is_name(n, "battery") {
        Some("Battery")
    } else if is_name(n, "init") {
        Some("Init")
    } else if is_name(n, "loadavg") {
        Some("Load")
    } else if is_name(n, "cputemp") {
        Some("CPU Temp")
    } else if is_name(n, "audio") {
        Some("Audio")
    } else if is_name(n, "session") {
        Some("Session")
    } else if is_name(n, "localip") {
        Some("Local IP")
    } else if is_name(n, "localip6") {
        Some("Local IPv6")
    } else if is_name(n, "theme") {
        Some("Theme")
    } else {
        None
    }
}

fn each_label_of(n: &Vec<char>) -> (r: Option<&'static str>)
    ensures
        match r {
            Some(l) => each_label(n@) == Some(l@),
            None => each_label(n@) is None,
        },
{
    if is_name(n, "gpu") {
        Some("GPU")
    } else if is_name(n, "gpudriver") {
        Some("GPU Driver")
    } else {
        None
    }
}

/// What module `name` needs from the system (`None`: unknown module).
pub fn probe_for(name: &str) -> (r: Option<Probe>)
    ensures
        r == probe_of(name@),
{
    let n = chars_of(name);
    if is_name(&n, "title") || is_name(&n, "separator") {
        Some(Probe::Identity)
    } else if is_name(&n, "kernel") {
        Some(Probe::Kernel)
    } else if is_name(&n, "uptime") {
        Some(Probe::Uptime)
    } else if text_label_of(&n).is_some() {
        Some(Probe::Text)
    } else if maybe_label_of(&n).is_some() {
        Some(Probe::Maybe)
    } else if each_label_of(&n).is_some() {
        Some(Probe::Each)
    } else if is_name(&n, "packages") {
        Some(Probe::Joined)
    } else if is_name(&n, "network") {
        Some(Probe::Pair)
    } else if is_name(&n, "disk") {
        Some(Probe::Fields)
    } else if is_name(&n, "break") || is_name(&n, "colors") {
        Some(Probe::Plain)
    } else {
        None
    }
}

fn fields_each(label: &str, v: &Vec<String>) -> (r: Vec<InfoLine>)
    ensures
        lines_view(r@) == Seq::new(v@.len(), |i: int| LineV::Field(label@, v@[i]@)),
{
    let mut out: Vec<InfoLine> = Vec::new();
    let mut i: usize = 0;
    while i < v.len()
        invariant
            i <= v@.len(),
            lines_view(out@) =~= Seq::new(i as nat, |k: int| LineV::Field(label@, v@[k]@)),
        decreases v.len() - i,
    {
        let ghost before = out@;
        out.push(InfoLine::field(String::from_str(label), v[i].clone()));
        proof {
            assert(lines_view(out@) =~= lines_view(before).push(LineV::Field(label@, v@[i as int]@)));
        }
        i = i + 1;
    }
    out
}

fn one(l: InfoLine) -> (r: Vec<InfoLine>)
    ensures
        lines_view(r@) == seq![l@],
{
    let mut v: Vec<InfoLine> = Vec::new();
    v.push(l);
    proof {
        assert(lines_view(v@) =~= seq![l@]);
    }
    v
}

/// The lines of module `name` given what was read for it; `None` for an
/// unknown module.
pub fn render(name: &str, reading: &Reading) -> (r: Option<Vec<InfoLine>>)
    requires
        probe_of(name@) matches Some(p) ==> fits(p, reading),
        *reading matches Reading::Identity { user, host } ==> utf8_len(user@) + 1 + match host {
            Some(h) => utf8_len(h@),
            None => 0,
        } <= usize::MAX,
    ensures
        match (r, rendered(name@, *reading)) {
            (Some(v), Some(lines)) => lines_view(v@) == lines,
            (None, None) => true,
            _ => false,
        },
{
    let n = chars_of(name);
    let probe = match probe_for(name) {
        Some(p) => p,
        None => {
            return None;
        },
    };
    let out: Vec<InfoLine> = match (probe, reading) {
        (Probe::Identity, Reading::Identity { user, host }) => {
            let h: Option<&str> = match host {
                Some(h) => Some(h.as_str()),
                None => None,
            };
            if is_name(&n, "title") {
                one(title_line(user.as_str(), h))
            } else {
                let w = title_width(user.as_str(), h);
                one(InfoLine::sep(w))
            }
        },
        (Probe::Kernel, Reading::Kernel { name: kn, version }) => {
            let mut s = match kn {
                Some(k) => k.clone(),
                None => String::from_str("Unknown"),
            };
            s.append(" ");
            match version {
                Some(v) => s.append(v.as_str()),
                None => s.append("?"),
            }
            one(InfoLine::field(String::from_str("Kernel"), s))
        },
        (Probe::Uptime, Reading::Seconds(secs)) => one(
            InfoLine::field(String::from_str("Uptime"), fmt_uptime(*secs)),
        ),
        (Probe::Text, Reading::Text(t)) => {
            let l = text_label_of(&n).unwrap();
            one(InfoLine::field(String::from_str(l), t.clone()))
        },
        (Probe::Maybe, Reading::Maybe(o)) => {
            let l = maybe_label_of(&n).unwrap();
            match o {
                Some(t) => one(InfoLine::field(String::from_str(l), t.clone())),
                None => Vec::new(),
            }
        },
        (Probe::Each, Reading::List(v)) => {
            let l = each_label_of(&n).unwrap();
            fields_each(l, v)
        },
        (Probe::Joined, Reading::List(v)) => {
            if v.len() == 0 {
                Vec::new()
            } else {
                one(InfoLine::field(String::from_str("Packages"), join_strings(v, ", ")))
            }
        },
        (Probe::Pair, Reading::Pair(down, up)) => {
            let mut v: Vec<InfoLine> = Vec::new();
            v.push(InfoLine::field(String::from_str("Net ↓"), down.clone()));
            v.push(InfoLine::field(String::from_str("Net ↑"), up.clone()));
            proof {
                assert(lines_view(v@) =~= seq![
                    LineV::Field("Net ↓"@, down@),
                    LineV::Field("Net ↑"@, up@),
                ]);
            }
            v
        },
        (Probe::Fields, Reading::Fields(fs)) => {
            let mut out: Vec<InfoLine> = Vec::new();
            let mut i: usize = 0;
            while i < fs.len()
                invariant
                    i <= fs@.len(),
                    lines_view(out@) =~= Seq::new(
                        i as nat,
                        |k: int| LineV::Field(fs@[k].0@, fs@[k].1@),
                    ),
                decreases fs.len() - i,
            {
                let ghost before = out@;
                out.push(InfoLine::field(fs[i].0.clone(), fs[i].1.clone()));
                proof {
                    assert(lines_view(out@) =~= lines_view(before).push(
                        LineV::Field(fs@[i as int].0@, fs@[i as int].1@),
                    ));
                }
                i = i + 1;
            }
            out
        },
        (Probe::Plain, Reading::Nothing) => {
            if is_name(&n, "break") {
                one(InfoLine::br())
            } else {
                one(InfoLine::colors())
            }
        },
        _ => Vec::new(),
    };
    Some(out)
}

/// Modules whose value does not change while the program runs; they are read once.
pub open spec fn static_module(n: Seq<char>) -> bool {
    ||| n == "title"@
    ||| n == "separator"@
    ||| n == "os"@
    ||| n == "host"@
    ||| n == "kernel"@
    ||| n == "packages"@
    ||| n == "shell"@
    ||| n == "terminal"@
    ||| n == "de"@
    ||| n == "wm"@
    ||| n == "resolution"@
    ||| n == "gpu"@
    ||| n == "gpudriver"@
    ||| n == "locale"@
    ||| n == "init"@
    ||| n == "audio"@
    ||| n == "theme"@
    ||| n == "session"@
    ||| n == "localip"@
    ||| n == "localip6"@
    ||| n == "colors"@
    ||| n == "break"@
}

/// The live modules: those whose reading changes while the program runs.
pub open spec fn live_module(n: Seq<char>) -> bool {
    n == "cpu"@ || n == "memory"@ || n == "swap"@ || n == "network"@ || n == "disk"@ || n == "battery"@ || n == "uptime"@ || n == "cputemp"@ || n == "loadavg"@
}

/// The live modules (CPU, memory, swap, network, disks, battery, uptime,
/// CPU temperature, load) are never static.
pub proof fn live_modules_are_not_static()
    ensures
        !static_module("cpu"@),
        !static_module("memory"@),
        !static_module("swap"@),
        !static_module("network"@),
        !static_module("disk"@),
        !static_module("battery"@),
        !static_module("uptime"@),
        !static_module("cputemp"@),
        !static_module("loadavg"@),
{
    reveal_strlit("title");
    reveal_strlit("separator");
    reveal_strlit("os");
    reveal_strlit("host");
    reveal_strlit("kernel");
    reveal_strlit("packages");
    reveal_strlit("shell");
    reveal_strlit("terminal");
    reveal_strlit("de");
    reveal_strlit("wm");
    reveal_strlit("resolution");
    reveal_strlit("gpu");
    reveal_strlit("gpudriver");
    reveal_strlit("locale");
    reveal_strlit("init");
    reveal_strlit("audio");
    reveal_strlit("theme");
    reveal_strlit("session");
    reveal_strlit("localip");
    reveal_strlit("localip6");
    reveal_strlit("colors");
    reveal_strlit("break");
    reveal_strlit("cpu");
    reveal_strlit("memory");
    reveal_strlit("swap");
    reveal_strlit("network");
    reveal_strlit("disk");
    reveal_strlit("battery");
    reveal_strlit("uptime");
    reveal_strlit("cputemp");
    reveal_strlit("loadavg");
    assert("title"@.len() == 5);
    assert("separator"@.len() == 9);
    assert("os"@.len() == 2);
    assert("host"@.len() == 4);
    assert("kernel"@.len() == 6);
    assert("packages"@.len() == 8);
    assert("shell"@.len() == 5);
    assert("terminal"@.len() == 8);
    assert("de"@.len() == 2);
    assert("wm"@.len() == 2);
    assert("resolution"@.len() == 10);
    assert("gpu"@.len() == 3);
    assert("gpudriver"@.len() == 9);
    assert("locale"@.len() == 6);
    assert("init"@.len() == 4);
    assert("audio"@.len() == 5);
    assert("theme"@.len() == 5);
    assert("session"@.len() == 7);
    assert("localip"@.len() == 7);
    assert("localip6"@.len() == 8);
    assert("colors"@.len() == 6);
    assert("break"@.len() == 5);
    assert("cpu"@.len() == 3);
    assert("memory"@.len() == 6);
    assert("swap"@.len() == 4);
    assert("network"@.len() == 7);
    assert("disk"@.len() == 4);
    assert("battery"@.len() == 7);
    assert("uptime"@.len() == 6);
    assert("cputemp"@.len() == 7);
    assert("loadavg"@.len() == 7);
    assert("cpu"@[0] == 'c');
    assert("gpu"@[0] == 'g');
    assert("memory"@[0] == 'm');
    assert("kernel"@[0] == 'k');
    assert("locale"@[0] == 'l');
    assert("colors"@[0] == 'c');
    assert("swap"@[0] == 's');
    assert("host"@[0] == 'h');
    assert("init"@[0] == 'i');
    assert("network"@[0] == 'n');
    assert("session"@[0] == 's');
    assert("localip"@[0] == 'l');
    assert("disk"@[0] == 'd');
    assert("battery"@[0] == 'b');
    assert("uptime"@[0] == 'u');
    assert("cputemp"@[0] == 'c');
    assert("loadavg"@[0] == 'l');
    assert("loadavg"@[2] == 'a');
    assert("localip"@[2] == 'c');
}

/// A live module is read again on every render: a column never keeps lines
/// for it.
pub proof fn live_modules_are_reread(c: ModuleColumn, i: int)
    requires
        c.wf(),
        0 <= i < c.names@.len(),
        live_module(c.names@[i]@),
    ensures
        c.cache@[i] is None,
{
    live_modules_are_not_static();
}

/// Whether module `name` is read once and cached.
pub fn is_static(name: &str) -> (b: bool)
    ensures
        b == static_module(name@),
{
    let n = chars_of(name);
    is_name(&n, "title") || is_name(&n, "separator") || is_name(&n, "os") || is_name(&n, "host")
        || is_name(&n, "kernel") || is_name(&n, "packages") || is_name(&n, "shell") || is_name(
        &n,
        "terminal",
    ) || is_name(&n, "de") || is_name(&n, "wm") || is_name(&n, "resolution") || is_name(&n, "gpu")
        || is_name(&n, "gpudriver") || is_name(&n, "locale") || is_name(&n, "init") || is_name(
        &n,
        "audio",
    ) || is_name(&n, "theme") || is_name(&n, "session") || is_name(&n, "localip") || is_name(
        &n,
        "localip6",
    ) || is_name(&n, "colors") || is_name(&n, "break")
}


/// The sequences of `parts` one after another.
pub open spec fn concat_all<T>(parts: Seq<Seq<T>>) -> Seq<T>
    decreases parts.len(),
{
    if parts.len() == 0 {
        Seq::empty()
    } else {
        concat_all(parts.drop_last()) + parts.last()
    }
}

/// What module `i` contributes to the column: its lines, or a
/// `name: (unknown module)` line when it has none to give.
pub open spec fn contribution(name: Seq<char>, r: Option<Vec<InfoLine>>) -> Seq<LineV> {
    match r {
        Some(v) => lines_view(v@),
        None => seq![LineV::Field(name, "(unknown module)"@)],
    }
}

/// The info column: each module's lines in the configured order, with unknown
/// modules shown as `name: (unknown module)`.
pub fn assemble(names: &Vec<String>, rendered: Vec<Option<Vec<InfoLine>>>) -> (r: Vec<InfoLine>)
    requires
        names@.len() == rendered@.len(),
    ensures
        lines_view(r@) == concat_all(
            Seq::new(names@.len(), |i: int| contribution(names@[i]@, rendered@[i])),
        ),
{
    let ghost parts = Seq::new(names@.len(), |i: int| contribution(names@[i]@, rendered@[i]));
    let ghost orig = rendered@;
    let mut rest = rendered;
    let mut out: Vec<InfoLine> = Vec::new();
    let n = names.len();
    let mut i: usize = 0;
    proof {
        assert(parts.subrange(0, 0) =~= Seq::<Seq<LineV>>::empty());
    }
    while i < n
        invariant
            n == names@.len(),
            n == orig.len(),
            parts == Seq::new(names@.len(), |k: int| contribution(names@[k]@, orig[k])),
            i <= n,
            rest@ == orig.subrange(i as int, n as int),
            lines_view(out@) =~= concat_all(parts.subrange(0, i as int)),
        decreases n - i,
    {
        let item = rest.remove(0);
        proof {
            assert(item == orig[i as int]);
            assert(rest@ =~= orig.subrange(i + 1, n as int));
            assert(parts.subrange(0, i + 1).drop_last() =~= parts.subrange(0, i as int));
        }
        let ghost before = out@;
        match item {
            Some(v) => {
                let mut k: usize = 0;
                while k < v.len()
                    invariant
                        k <= v@.len(),
                        lines_view(out@) =~= lines_view(before) + lines_view(v@.subrange(0, k as int)),
                    decreases v.len() - k,
                {
                    let ghost b2 = out@;
                    out.push(v[k].duplicate());
                    proof {
                        assert(lines_view(out@) =~= lines_view(b2).push(v@[k as int]@));
                        assert(lines_view(v@.subrange(0, k + 1)) =~= lines_view(
                            v@.subrange(0, k as int),
                        ).push(v@[k as int]@));
                    }
                    k = k + 1;
                }
                proof {
                    assert(v@.subrange(0, v@.len() as int) =~= v@);
                }
            },
            None => {
                out.push(InfoLine::field(names[i].clone(), String::from_str("(unknown module)")));
                proof {
                    assert(lines_view(out@) =~= lines_view(before) + seq![
                        LineV::Field(names@[i as int]@, "(unknown module)"@),
                    ]);
                }
            },
        }
        i = i + 1;
    }
    proof {
        assert(parts.subrange(0, n as int) =~= parts);
    }
    out
}


/// A copy of a list of lines.
pub fn dup_lines(v: &Vec<InfoLine>) -> (r: Vec<InfoLine>)
    ensures
        lines_view(r@) == lines_view(v@),
{
    let mut r: Vec<InfoLine> = Vec::new();
    let mut k: usize = 0;
    while k < v.len()
        invariant
            k <= v@.len(),
            lines_view(r@) =~= lines_view(v@.subrange(0, k as int)),
        decreases v.len() - k,
    {
        let ghost b = r@;
        r.push(v[k].duplicate());
        proof {
            assert(lines_view(r@) =~= lines_view(b).push(v@[k as int]@));
            assert(lines_view(v@.subrange(0, k + 1)) =~= lines_view(v@.subrange(0, k as int)).push(
                v@[k as int]@,
            ));
        }
        k = k + 1;
    }
    proof {
        assert(v@.subrange(0, v@.len() as int) =~= v@);
    }
    r
}

/// What module `name` shows in the column: its kept lines when it has
/// some, else what was read for it this time ([`contribution`]).
pub open spec fn column_part(
    name: Seq<char>,
    kept: Option<Vec<InfoLine>>,
    fresh: Option<Vec<InfoLine>>,
) -> Seq<LineV> {
    match kept {
        Some(v) => lines_view(v@),
        None => contribution(name, fresh),
    }
}

/// The info column's modules. The lines of a static module (one whose
/// reading never changes) are read once, when the column is made, and kept;
/// the other modules are read on every render.
pub struct ModuleColumn {
    pub names: Vec<String>,
    /// Per module: the lines kept for it, if it is static and rendered.
    pub cache: Vec<Option<Vec<InfoLine>>>,
}

impl ModuleColumn {
    /// One entry per module; only static modules have kept lines.
    pub open spec fn wf(&self) -> bool {
        &&& self.cache@.len() == self.names@.len()
        &&& forall|i: int|
            0 <= i < self.names@.len() && (#[trigger] self.cache@[i]) is Some ==> static_module(
                self.names@[i]@,
            )
    }

    /// The column for modules `names`, given what each static module rendered
    /// at first (`first[i]`; what it holds for other modules is not used): a
    /// static module that rendered keeps those lines.
    pub fn new(names: Vec<String>, first: Vec<Option<Vec<InfoLine>>>) -> (r: ModuleColumn)
        requires
            first@.len() == names@.len(),
        ensures
            r.wf(),
            r.names@ == names@,
            forall|i: int|
                0 <= i < names@.len() ==> #[trigger] r.cache@[i] == if static_module(names@[i]@) {
                    first@[i]
                } else {
                    None
                },
    {
        let ghost orig = first@;
        let mut rest = first;
        let mut cache: Vec<Option<Vec<InfoLine>>> = Vec::new();
        let n = names.len();
        let mut i: usize = 0;
        while i < n
            invariant
                n == names@.len(),
                n == orig.len(),
                i <= n,
                rest@ == orig.subrange(i as int, n as int),
                cache@.len() == i,
                forall|k: int|
                    0 <= k < i ==> #[trigger] cache@[k] == if static_module(names@[k]@) {
                        orig[k]
                    } else {
                        None
                    },
            decreases n - i,
        {
            let item = rest.remove(0);
            proof {
                assert(item == orig[i as int]);
                assert(rest@ =~= orig.subrange(i + 1, n as int));
            }
            if is_static(names[i].as_str()) {
                cache.push(item);
            } else {
                cache.push(None);
            }
            i = i + 1;
        }
        ModuleColumn { names, cache }
    }

    /// Whether module `i` has to be read for this render: it has no kept lines.
    pub fn wants(&self, i: usize) -> (b: bool)
        requires
            self.wf(),
            i < self.names@.len(),
        ensures
            b == (self.cache@[i as int] is None),
    {
        self.cache[i].is_none()
    }

    /// The column: each module's kept lines, or what was read for it now
    /// (`fresh[i]`), in order, with `name: (unknown module)` where neither
    /// gives lines.
    pub fn render(&self, fresh: Vec<Option<Vec<InfoLine>>>) -> (r: Vec<InfoLine>)
        requires
            self.wf(),
            fresh@.len() == self.names@.len(),
        ensures
            lines_view(r@) == concat_all(
                Seq::new(
                    self.names@.len(),
                    |i: int| column_part(self.names@[i]@, self.cache@[i], fresh@[i]),
                ),
            ),
    {
        let ghost orig = fresh@;
        let mut rest = fresh;
        let mut rendered: Vec<Option<Vec<InfoLine>>> = Vec::new();
        let n = self.names.len();
        let mut i: usize = 0;
        while i < n
            invariant
                self.wf(),
                n == self.names@.len(),
                n == orig.len(),
                i <= n,
                rest@ == orig.subrange(i as int, n as int),
                rendered@.len() == i,
                forall|k: int|
                    0 <= k < i ==> contribution(self.names@[k]@, #[trigger] rendered@[k])
                        == column_part(self.names@[k]@, self.cache@[k], orig[k]),
            decreases n - i,
        {
            let item = rest.remove(0);
            proof {
                assert(item == orig[i as int]);
                assert(rest@ =~= orig.subrange(i + 1, n as int));
            }
            match &self.cache[i] {
                Some(v) => {
                    rendered.push(Some(dup_lines(v)));
                },
                None => {
                    rendered.push(item);
                },
            }
            i = i + 1;
        }
        let r = assemble(&self.names, rendered);
        proof {
            assert(Seq::new(n as nat, |k: int| contribution(self.names@[k]@, rendered@[k])) =~= Seq::new(
                n as nat,
                |k: int| column_part(self.names@[k]@, self.cache@[k], orig[k]),
            ));
        }
        r
    }
}

/// Static modules show the same lines on every render: a module with kept
/// lines contributes exactly those, whatever was read for the column at any
/// two renders.
pub proof fn static_lines_reused(
    c: ModuleColumn,
    fresh1: Seq<Option<Vec<InfoLine>>>,
    fresh2: Seq<Option<Vec<InfoLine>>>,
    i: int,
)
    requires
        c.wf(),
        0 <= i < c.names@.len(),
        c.cache@[i] is Some,
    ensures
        static_module(c.names@[i]@),
        column_part(c.names@[i]@, c.cache@[i], fresh1[i]) == column_part(
            c.names@[i]@,
            c.cache@[i],
            fresh2[i],
        ),
        column_part(c.names@[i]@, c.cache@[i], fresh1[i]) == lines_view(c.cache@[i]->0@),
{
}


/// A mount shown in the `disk` module: not a pseudo file system (`squashfs`
/// or `devfs` in its lower-cased type, or exactly `tmpfs`) and not empty.
pub open spec fn disk_shown_spec(fs: Seq<char>, total: u64) -> bool {
    let l = crate::text::lowercase_of(fs);
    !(crate::text::contains(l, "squashfs"@) || crate::text::contains(l, "devfs"@) || l == "tmpfs"@)
        && total != 0
}

/// Whether a mount with file system `fs` and `total` bytes is listed.
pub fn disk_shown(fs: &str, total: u64) -> (b: bool)
    ensures
        b == disk_shown_spec(fs@, total),
{
    let low = crate::text::to_lower(fs);
    let lv = chars_of(low.as_str());
    let sq = chars_of("squashfs");
    let dv = chars_of("devfs");
    let tmp = chars_of("tmpfs");
    let pseudo = crate::text::contains_seq(lv.as_slice(), sq.as_slice())
        || crate::text::contains_seq(lv.as_slice(), dv.as_slice()) || same(lv.as_slice(), tmp.as_slice());
    !pseudo && total != 0
}

/// The bytes received and sent over the interfaces `(name, rx, tx)` that are
/// not loopback, from index `i` on.
pub open spec fn traffic_from(ifs: Seq<(Seq<char>, u64, u64)>, i: int) -> (int, int)
    decreases ifs.len() - i,
{
    if i < 0 || i >= ifs.len() {
        (0, 0)
    } else {
        let rest = traffic_from(ifs, i + 1);
        if loopback_name(ifs[i].0) {
            rest
        } else {
            (rest.0 + ifs[i].1, rest.1 + ifs[i].2)
        }
    }
}

/// The interfaces as plain values.
pub open spec fn iface_views(v: Seq<(String, u64, u64)>) -> Seq<(Seq<char>, u64, u64)> {
    v.map_values(|e: (String, u64, u64)| (e.0@, e.1, e.2))
}

/// Total bytes received and sent over the interfaces that are not loopback;
/// `None` where a total does not fit in a `u64` (where the sum overflows).
pub fn traffic_totals(ifaces: &Vec<(String, u64, u64)>) -> (r: Option<(u64, u64)>)
    ensures
        ({
            let t = traffic_from(iface_views(ifaces@), 0);
            match r {
                Some((rx, tx)) => rx == t.0 && tx == t.1,
                None => t.0 > u64::MAX || t.1 > u64::MAX,
            }
        }),
{
    let ghost all = iface_views(ifaces@);
    let mut rx: u64 = 0;
    let mut tx: u64 = 0;
    let mut i: usize = ifaces.len();
    while i > 0
        invariant
            all == iface_views(ifaces@),
            i <= ifaces@.len(),
            traffic_from(all, i as int) == (rx as int, tx as int),
        decreases i,
    {
        let e = &ifaces[i - 1];
        proof {
            assert(all[i - 1] == (e.0@, e.1, e.2));
        }
        if !is_loopback(e.0.as_str()) {
            if rx > u64::MAX - e.1 || tx > u64::MAX - e.2 {
                proof {
                    lemma_traffic_grows(all, 0, i - 1);
                }
                return None;
            }
            rx = rx + e.1;
            tx = tx + e.2;
        }
        i = i - 1;
    }
    Some((rx, tx))
}

/// Totals only grow towards the front.
pub proof fn lemma_traffic_grows(ifs: Seq<(Seq<char>, u64, u64)>, i: int, j: int)
    requires
        0 <= i <= j <= ifs.len(),
    ensures
        traffic_from(ifs, i).0 >= traffic_from(ifs, j).0,
        traffic_from(ifs, i).1 >= traffic_from(ifs, j).1,
    decreases j - i,
{
    if i < j {
        lemma_traffic_grows(ifs, i + 1, j);
    }
}

/// The battery reading cached at `cached_at` (ms) is still used at `now`:
/// less than ten seconds old (a clock reading before it counts as no time).
pub fn battery_cache_fresh(cached_at: Option<u64>, now: u64) -> (b: bool)
    ensures
        b == (cached_at matches Some(t) && (if now >= t {
            now - t
        } else {
            0
        }) < 10_000),
{
    match cached_at {
        Some(t) => (if now >= t {
            now - t
        } else {
            0
        }) < 10_000,
        None => false,
    }
}

} // verus!
