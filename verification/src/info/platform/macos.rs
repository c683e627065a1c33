//! macOS: values read from `sw_vers`, `sysctl`, `system_profiler`, `pmset`,
//! `route`, `ipconfig`, `ifconfig`, `defaults` and the package managers.
//!
//! Every tool's output is used trimmed, as it is read.
use vstd::prelude::*;

use crate::config::opt_view;
use crate::text::{
    ascii_lower, chars_of, contains, contains_seq, find_char, first_index, has_prefix, is_digit,
    is_ws, lines, lines_of, lowercase_of, slice_of, split_on, starts_with, string_of, string_views,
    to_ascii_lower, to_lower, trim, trimmed, views, words, words_of,
};

use super::{
    comma_joined, first_prefixed, first_prefixed_of, join_commas, pkg_entry, pkg_text,
    prefixed_values, prefixed_values_of, tag, tagged, trim_str,
};

verus! {

/// A tool's output as it is used: trimmed.
pub open spec fn ran(o: Option<Seq<char>>) -> Option<Seq<char>> {
    match o {
        Some(s) => Some(trim(s)),
        None => None,
    }
}

/// `"{name} {version}"`, then ` ({build})` when there is a build, then
/// ` {arch}`.
pub open spec fn os_text(name: Option<Seq<char>>, ver: Option<Seq<char>>, build: Option<Seq<char>>, arch: Seq<char>) -> Seq<char> {
    let n = match ran(name) {
        Some(x) => x,
        None => "macOS"@,
    };
    let v = match ran(ver) {
        Some(x) => x,
        None => Seq::empty(),
    };
    let b = match ran(build) {
        Some(x) => x,
        None => Seq::empty(),
    };
    n + " "@ + v + (if b.len() > 0 {
        " ("@ + b + ")"@
    } else {
        Seq::empty()
    }) + " "@ + arch
}

/// The product name, version and build from `sw_vers`, and the architecture.
pub fn os(name: Option<String>, ver: Option<String>, build: Option<String>, arch: &str) -> (r: String)
    ensures
        r@ == os_text(opt_view(name), opt_view(ver), opt_view(build), arch@),
{
    let mut s = match &name {
        Some(x) => trim_str(x.as_str()),
        None => String::from_str("macOS"),
    };
    s.append(" ");
    match &ver {
        Some(x) => {
            let t = trim_str(x.as_str());
            s.append(t.as_str());
        },
        None => {},
    }
    match &build {
        Some(x) => {
            let t = trim_str(x.as_str());
            if t.unicode_len() > 0 {
                s.append(" (");
                s.append(t.as_str());
                s.append(")");
            }
        },
        None => {},
    }
    s.append(" ");
    s.append(arch);
    s
}

/// `sysctl -n hw.model`, trimmed; `Mac` when it could not be read.
pub fn host_model(out: Option<String>) -> (r: String)
    ensures
        r@ == match ran(opt_view(out)) {
            Some(s) => s,
            None => "Mac"@,
        },
{
    match out {
        Some(s) => trim_str(s.as_str()),
        None => String::from_str("Mac"),
    }
}

/// Number of lines of a trimmed listing.
pub open spec fn listed(s: Seq<char>) -> nat {
    lines(trim(s)).len()
}

/// The entry for one listing: its line count less `header`, shown when
/// positive or when `always`.
pub open spec fn listing_entry(out: Option<Seq<char>>, header: nat, always: bool, label: Seq<char>) -> Seq<Seq<char>> {
    match out {
        Some(s) => {
            let n = if listed(s) >= header {
                (listed(s) - header) as nat
            } else {
                0nat
            };
            if always || n > 0 {
                seq![pkg_text(n, label)]
            } else {
                Seq::empty()
            }
        },
        None => Seq::empty(),
    }
}

/// Adds the entry for one listing (see [`listing_entry`]).
fn push_listing(v: &mut Vec<String>, out: &Option<String>, header: usize, always: bool, label: &str)
    ensures
        string_views(final(v)@) == string_views(old(v)@) + listing_entry(
            opt_view(*out),
            header as nat,
            always,
            label@,
        ),
{
    let ghost before = v@;
    match out {
        Some(s) => {
            let t = trim_str(s.as_str());
            let c = super::count_lines(t.as_str());
            let n = if c >= header {
                c - header
            } else {
                0
            };
            if always || n > 0 {
                v.push(pkg_entry(n, label));
            }
        },
        None => {},
    }
    proof {
        assert(string_views(v@) =~= string_views(before) + listing_entry(
            opt_view(*out),
            header as nat,
            always,
            label@,
        ));
    }
}

/// Package counts from `brew list --formula -1` (always shown), `brew list
/// --cask -1`, `port installed` (less its heading line) and `mas list`.
pub fn packages(formula: Option<String>, cask: Option<String>, port: Option<String>, mas: Option<String>) -> (r: Vec<String>)
    ensures
        string_views(r@) == listing_entry(opt_view(formula), 0, true, "brew"@) + listing_entry(
            opt_view(cask),
            0,
            false,
            "brew-cask"@,
        ) + listing_entry(opt_view(port), 1, false, "port"@) + listing_entry(
            opt_view(mas),
            0,
            false,
            "mas"@,
        ),
{
    let mut v: Vec<String> = Vec::new();
    push_listing(&mut v, &formula, 0, true, "brew");
    push_listing(&mut v, &cask, 0, false, "brew-cask");
    push_listing(&mut v, &port, 1, false, "port");
    push_listing(&mut v, &mas, 0, false, "mas");
    proof {
        assert(string_views(Seq::<String>::empty()) =~= Seq::<Seq<char>>::empty());
    }
    v
}

/// Always `Aqua`.
pub fn desktop_environment() -> (r: Option<String>)
    ensures
        r matches Some(s) && s@ == "Aqua"@,
{
    Some(String::from_str("Aqua"))
}

/// Always `Quartz Compositor`.
pub fn window_manager() -> (r: Option<String>)
    ensures
        r matches Some(s) && s@ == "Quartz Compositor"@,
{
    Some(String::from_str("Quartz Compositor"))
}

/// The `Resolution:` values of `system_profiler SPDisplaysDataType`, joined
/// with `, `; absent when there are none.
pub fn resolution(displays: Option<String>) -> (r: Option<String>)
    ensures
        match displays {
            Some(s) => match comma_joined(prefixed_values(lines(trim(s@)), "Resolution:"@)) {
                Some(t) => r matches Some(x) && x@ == t,
                None => r is None,
            },
            None => r is None,
        },
{
    match displays {
        Some(s) => {
            let t = trim_str(s.as_str());
            let parts = prefixed_values_of(t.as_str(), "Resolution:");
            join_commas(&parts)
        },
        None => None,
    }
}

/// The `Chipset Model:` values of `system_profiler SPDisplaysDataType`.
pub fn gpus(displays: Option<String>) -> (r: Vec<String>)
    ensures
        string_views(r@) == match displays {
            Some(s) => prefixed_values(lines(trim(s@)), "Chipset Model:"@),
            None => Seq::empty(),
        },
{
    match displays {
        Some(s) => {
            let t = trim_str(s.as_str());
            prefixed_values_of(t.as_str(), "Chipset Model:")
        },
        None => {
            let r: Vec<String> = Vec::new();
            proof {
                assert(string_views(r@) =~= Seq::<Seq<char>>::empty());
            }
            r
        },
    }
}

/// The first line that holds a `%`.
pub open spec fn percent_line(ls: Seq<Seq<char>>) -> Option<Seq<char>>
    decreases ls.len(),
{
    if ls.len() == 0 {
        None
    } else if first_index(ls[0], '%') >= 0 {
        Some(ls[0])
    } else {
        percent_line(ls.drop_first())
    }
}

/// The last position before `p` that is not an ASCII digit, or -1.
pub open spec fn last_nondigit(s: Seq<char>, p: int) -> int
    decreases p,
{
    if p <= 0 {
        -1
    } else if !is_digit(s[p - 1]) {
        p - 1
    } else {
        last_nondigit(s, p - 1)
    }
}

/// The state of charge that the battery line names (`discharging` tested
/// before `charging`, which it contains).
pub open spec fn charge_status(line: Seq<char>) -> Seq<char> {
    if contains(line, "discharging"@) {
        "discharging"@
    } else if contains(line, "charging"@) {
        "charging"@
    } else if contains(line, "AC"@) || contains(line, "charged"@) {
        "AC"@
    } else {
        Seq::empty()
    }
}

/// The battery reading of `pmset -g batt`: the digits just before the first
/// `%` of the first line with one, and the state of charge.
pub open spec fn battery_text(out: Seq<char>) -> Option<Seq<char>> {
    match percent_line(lines(trim(out))) {
        None => None,
        Some(line) => {
            let p = first_index(line, '%');
            let j = last_nondigit(line, p);
            if j < 0 {
                None
            } else {
                let pct = line.subrange(j + 1, p);
                let st = charge_status(line);
                Some(
                    if st.len() == 0 {
                        pct + "%"@
                    } else {
                        pct + "% ("@ + st + ")"@
                    },
                )
            }
        },
    }
}

/// The first line of `ls` holding `%`.
fn percent_line_of(ls: &Vec<Vec<char>>) -> (r: Option<usize>)
    ensures
        match r {
            Some(i) => i < ls@.len() && percent_line(views(ls@)) == Some(ls@[i as int]@)
                && first_index(ls@[i as int]@, '%') >= 0,
            None => percent_line(views(ls@)) is None,
        },
{
    let ghost all = views(ls@);
    let mut i: usize = 0;
    proof {
        assert(all.subrange(0, all.len() as int) =~= all);
    }
    while i < ls.len()
        invariant
            all == views(ls@),
            i <= ls@.len(),
            percent_line(all) == percent_line(all.subrange(i as int, all.len() as int)),
        decreases ls.len() - i,
    {
        proof {
            let t = all.subrange(i as int, all.len() as int);
            assert(t.drop_first() =~= all.subrange(i + 1, all.len() as int));
            assert(t[0] == ls@[i as int]@);
        }
        match find_char(ls[i].as_slice(), '%') {
            Some(k) => {
                return Some(i);
            },
            None => {},
        }
        i = i + 1;
    }
    None
}

/// Whether the line names a state of charge, and which.
fn charge_status_of(line: &[char]) -> (r: &'static str)
    ensures
        r@ == charge_status(line@),
{
    let charging = chars_of("charging");
    let discharging = chars_of("discharging");
    let ac = chars_of("AC");
    let charged = chars_of("charged");
    if contains_seq(line, discharging.as_slice()) {
        "discharging"
    } else if contains_seq(line, charging.as_slice()) {
        "charging"
    } else if contains_seq(line, ac.as_slice()) || contains_seq(line, charged.as_slice()) {
        "AC"
    } else {
        proof {
            reveal_strlit("");
        }
        ""
    }
}

/// [`last_nondigit`] of `s` before `p`.
fn last_nondigit_of(s: &[char], p: usize) -> (r: Option<usize>)
    requires
        p <= s@.len(),
    ensures
        match r {
            Some(j) => j as int == last_nondigit(s@, p as int) && j < p,
            None => last_nondigit(s@, p as int) == -1,
        },
{
    let mut k = p;
    while k > 0
        invariant
            k <= p <= s@.len(),
            last_nondigit(s@, p as int) == last_nondigit(s@, k as int),
        decreases k,
    {
        let c = s[k - 1];
        if !('0' <= c && c <= '9') {
            return Some(k - 1);
        }
        k = k - 1;
    }
    None
}

/// The charge of the first battery `pmset -g batt` reports, as `"75%"` or
/// `"75% (charging)"`.
pub fn battery(pmset: Option<String>) -> (r: Option<String>)
    ensures
        match pmset {
            Some(s) => match battery_text(s@) {
                Some(t) => r matches Some(x) && x@ == t,
                None => r is None,
            },
            None => r is None,
        },
{
    let s = match pmset {
        Some(s) => s,
        None => {
            return None;
        },
    };
    let t = trim_str(s.as_str());
    let v = chars_of(t.as_str());
    let ls = lines_of(v.as_slice());
    match percent_line_of(&ls) {
        None => None,
        Some(i) => {
            let line = &ls[i];
            proof {
                crate::text::lemma_first_index(line@, '%');
            }
            let p = find_char(line.as_slice(), '%').unwrap();
            match last_nondigit_of(line.as_slice(), p) {
                Some(j) => {
                    let pct = slice_of(line.as_slice(), j + 1, p);
                    let st = charge_status_of(line.as_slice());
                    let mut r = string_of(&pct);
                    if st.unicode_len() == 0 {
                        r.append("%");
                    } else {
                        r.append("% (");
                        r.append(st);
                        r.append(")");
                    }
                    Some(r)
                },
                None => None,
            }
        },
    }
}

/// Always `launchd`.
pub fn init_system() -> (r: Option<String>)
    ensures
        r matches Some(s) && s@ == "launchd"@,
{
    Some(String::from_str("launchd"))
}

/// `s` without `{` and `}`.
pub open spec fn unbraced(s: Seq<char>) -> Seq<char>
    decreases s.len(),
{
    if s.len() == 0 {
        s
    } else if s.last() == '{' || s.last() == '}' {
        unbraced(s.drop_last())
    } else {
        unbraced(s.drop_last()).push(s.last())
    }
}

/// The three averages of `sysctl -n vm.loadavg` (`{ 1.23 4.56 7.89 }`),
/// braces removed, separated by single spaces.
pub open spec fn load_text(out: Seq<char>) -> Option<Seq<char>> {
    let ws = words(unbraced(trim(out)));
    if ws.len() >= 3 {
        Some(ws[0] + " "@ + ws[1] + " "@ + ws[2])
    } else {
        None
    }
}

/// The 1, 5 and 15 minute load averages.
pub fn load_average(out: Option<String>) -> (r: Option<String>)
    ensures
        match out {
            Some(s) => match load_text(s@) {
                Some(t) => r matches Some(x) && x@ == t,
                None => r is None,
            },
            None => r is None,
        },
{
    let s = match out {
        Some(s) => s,
        None => {
            return None;
        },
    };
    let t = trim_str(s.as_str());
    let v = chars_of(t.as_str());
    let mut kept: Vec<char> = Vec::new();
    let mut i: usize = 0;
    while i < v.len()
        invariant
            i <= v@.len(),
            kept@ == unbraced(v@.subrange(0, i as int)),
        decreases v.len() - i,
    {
        proof {
            assert(v@.subrange(0, i + 1).drop_last() =~= v@.subrange(0, i as int));
        }
        let c = v[i];
        if c != '{' && c != '}' {
            kept.push(c);
        }
        proof {
            assert(v@.subrange(0, i + 1).last() == c);
        }
        i = i + 1;
    }
    proof {
        assert(v@.subrange(0, v@.len() as int) =~= v@);
    }
    let ws = words_of(kept.as_slice());
    if ws.len() >= 3 {
        let mut r = string_of(&ws[0]);
        r.append(" ");
        let b = string_of(&ws[1]);
        r.append(b.as_str());
        r.append(" ");
        let c = string_of(&ws[2]);
        r.append(c.as_str());
        Some(r)
    } else {
        None
    }
}

/// Not reported on macOS.
pub fn cpu_temperature() -> (r: Option<String>)
    ensures
        r is None,
{
    None
}

/// Not reported on macOS.
pub fn gpu_drivers() -> (r: Vec<String>)
    ensures
        r@.len() == 0,
{
    Vec::new()
}

/// Always `CoreAudio`.
pub fn audio_server() -> (r: Option<String>)
    ensures
        r matches Some(s) && s@ == "CoreAudio"@,
{
    Some(String::from_str("CoreAudio"))
}

/// Always `Aqua (Quartz)`.
pub fn session_type() -> (r: Option<String>)
    ensures
        r matches Some(s) && s@ == "Aqua (Quartz)"@,
{
    Some(String::from_str("Aqua (Quartz)"))
}

/// The interface of the default route, from `route -n get <family> default`.
pub fn default_iface(route: Option<String>) -> (r: Option<String>)
    ensures
        match route {
            Some(s) => match first_prefixed(lines(trim(s@)), "interface:"@) {
                Some(t) => r matches Some(x) && x@ == t,
                None => r is None,
            },
            None => r is None,
        },
{
    match route {
        Some(s) => {
            let t = trim_str(s.as_str());
            first_prefixed_of(t.as_str(), "interface:")
        },
        None => None,
    }
}

/// The IPv4 address of interface `iface` (`ipconfig getifaddr`), as
/// `"{ip} ({iface})"`; absent when it is empty.
pub fn local_ip(iface: &str, addrs: Option<String>) -> (r: Option<String>)
    ensures
        match addrs {
            Some(s) => if trim(s@).len() > 0 {
                r matches Some(x) && x@ == tagged(trim(s@), iface@)
            } else {
                r is None
            },
            None => r is None,
        },
{
    match addrs {
        Some(s) => {
            let ip = trim_str(s.as_str());
            if ip.unicode_len() == 0 {
                None
            } else {
                Some(tag(ip.as_str(), iface))
            }
        },
        None => None,
    }
}

/// `addr` up to its first `%` (the zone index goes).
pub open spec fn without_zone(addr: Seq<char>) -> Seq<char> {
    let k = first_index(addr, '%');
    if k >= 0 {
        addr.subrange(0, k)
    } else {
        addr
    }
}

/// The first `inet6` address of the lines that is not link-local (`fe80`),
/// zone index removed, as `"{addr} ({iface})"`.
pub open spec fn inet6_scan(ls: Seq<Seq<char>>, iface: Seq<char>) -> Option<Seq<char>>
    decreases ls.len(),
{
    if ls.len() == 0 {
        None
    } else {
        let t = trim(ls[0]);
        if !has_prefix(t, "inet6 "@) {
            inet6_scan(ls.drop_first(), iface)
        } else {
            let ws = words(t.subrange(6, t.len() as int));
            if ws.len() == 0 {
                None
            } else {
                let clean = without_zone(ws[0]);
                if has_prefix(lowercase_of(clean), "fe80"@) {
                    inet6_scan(ls.drop_first(), iface)
                } else {
                    Some(tagged(clean, iface))
                }
            }
        }
    }
}

/// The first global IPv6 address that `ifconfig <iface>` lists.
pub fn local_ip6(iface: &str, ifconfig: Option<String>) -> (r: Option<String>)
    ensures
        match ifconfig {
            Some(s) => match inet6_scan(lines(trim(s@)), iface@) {
                Some(t) => r matches Some(x) && x@ == t,
                None => r is None,
            },
            None => r is None,
        },
{
    let s = match ifconfig {
        Some(s) => s,
        None => {
            return None;
        },
    };
    let t = trim_str(s.as_str());
    let v = chars_of(t.as_str());
    let ls = lines_of(v.as_slice());
    let ghost all = views(ls@);
    let prefix = chars_of("inet6 ");
    let fe80 = chars_of("fe80");
    proof {
        reveal_strlit("inet6 ");
        assert(all.subrange(0, all.len() as int) =~= all);
    }
    let mut i: usize = 0;
    while i < ls.len()
        invariant
            all == views(ls@),
            all == lines(trim(s@)),
            ifconfig == Some(s),
            prefix@ == "inet6 "@,
            fe80@ == "fe80"@,
            "inet6 "@.len() == 6,
            i <= ls@.len(),
            inet6_scan(all, iface@) == inet6_scan(all.subrange(i as int, all.len() as int), iface@),
        decreases ls.len() - i,
    {
        proof {
            let rest = all.subrange(i as int, all.len() as int);
            assert(rest.drop_first() =~= all.subrange(i + 1, all.len() as int));
            assert(rest[0] == ls@[i as int]@);
        }
        let line = trimmed(ls[i].as_slice());
        if starts_with(line.as_slice(), prefix.as_slice()) {
            let tail = slice_of(line.as_slice(), 6, line.len());
            let ws = words_of(tail.as_slice());
            proof {
                assert(views(ws@).len() == ws@.len());
            }
            if ws.len() == 0 {
                proof {
                    assert(tail@ == line@.subrange(6, line@.len() as int));
                }
                return None;
            }
            let addr = &ws[0];
            proof {
                assert(views(ws@)[0] == addr@);
            }
            let clean = match find_char(addr.as_slice(), '%') {
                Some(k) => {
                    proof {
                        crate::text::lemma_first_index(addr@, '%');
                    }
                    slice_of(addr.as_slice(), 0, k)
                },
                None => slice_of(addr.as_slice(), 0, addr.len()),
            };
            proof {
                assert(addr@.subrange(0, addr@.len() as int) =~= addr@);
            }
            let cs = string_of(&clean);
            let low = to_lower(cs.as_str());
            let lv = chars_of(low.as_str());
            if !starts_with(lv.as_slice(), fe80.as_slice()) {
                return Some(tag(cs.as_str(), iface));
            }
        }
        i = i + 1;
    }
    None
}

/// `Dark` when `defaults read -g AppleInterfaceStyle` says `dark` in any
/// ASCII case, else `Light` (also when it could not be read).
pub fn theme(style: Option<String>) -> (r: Option<String>)
    ensures
        r matches Some(x) && x@ == if (match style {
            Some(s) => ascii_lower(trim(trim(s@))) == "dark"@,
            None => ascii_lower(trim(Seq::<char>::empty())) == "dark"@,
        }) {
            "Dark"@
        } else {
            "Light"@
        },
{
    let out = match style {
        Some(s) => trim_str(s.as_str()),
        None => String::new(),
    };
    let t = trim_str(out.as_str());
    let v = chars_of(t.as_str());
    let low = to_ascii_lower(v.as_slice());
    let dark = chars_of("dark");
    if crate::text::same(low.as_slice(), dark.as_slice()) {
        Some(String::from_str("Dark"))
    } else {
        Some(String::from_str("Light"))
    }
}

} // verus!
