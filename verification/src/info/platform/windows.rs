//! Windows: values read from PowerShell (`Get-CimInstance`) and the package
//! managers' listings.
use vstd::prelude::*;

use crate::config::opt_view;
use crate::text::{chars_of, find_char, first_index, lines, lines_of, slice_of, string_of, string_views, trim, trimmed, views};

use super::{count_nonblank, nonblank_count, pkg_entry, pkg_text, tag, tagged, trim_str};

verus! {

/// `n - k`, or 0 when `k` is larger (`usize::saturating_sub`).
pub open spec fn sat_sub(n: nat, k: nat) -> nat {
    if n >= k {
        (n - k) as nat
    } else {
        0
    }
}

/// The entry for one package manager's listing: its non-blank lines less
/// `header` heading lines, shown only when positive.
pub open spec fn listing_entry(out: Option<Seq<char>>, header: nat, label: Seq<char>) -> Seq<Seq<char>> {
    match out {
        Some(s) => {
            let n = sat_sub(nonblank_count(lines(s)), header);
            if n > 0 {
                seq![pkg_text(n, label)]
            } else {
                Seq::empty()
            }
        },
        None => Seq::empty(),
    }
}

/// Adds the entry for one listing (see [`listing_entry`]).
fn push_listing(v: &mut Vec<String>, out: &Option<String>, header: usize, label: &str)
    ensures
        string_views(final(v)@) == string_views(old(v)@) + listing_entry(opt_view(*out), header as nat, label@),
{
    let ghost before = v@;
    match out {
        Some(s) => {
            let c = count_nonblank(s.as_str());
            let n = if c >= header {
                c - header
            } else {
                0
            };
            if n > 0 {
                v.push(pkg_entry(n, label));
                proof {
                    assert(string_views(v@) =~= string_views(before) + listing_entry(opt_view(*out), header as nat, label@));
                }
            } else {
                proof {
                    assert(string_views(v@) =~= string_views(before) + listing_entry(opt_view(*out), header as nat, label@));
                }
            }
        },
        None => {
            proof {
                assert(string_views(v@) =~= string_views(before) + listing_entry(opt_view(*out), header as nat, label@));
            }
        },
    }
}

/// The model from `Win32_ComputerSystem`, trimmed; `PC` when there is none.
pub fn host_model(out: Option<String>) -> (r: String)
    ensures
        r@ == match out {
            Some(s) => if trim(s@).len() > 0 {
                trim(s@)
            } else {
                "PC"@
            },
            None => "PC"@,
        },
{
    match out {
        Some(s) => {
            let t = trim_str(s.as_str());
            if t.unicode_len() > 0 {
                return t;
            }
            String::from_str("PC")
        },
        None => String::from_str("PC"),
    }
}

/// Package counts from `winget list` and `scoop list` (two heading lines
/// each) and `choco list --local-only --limit-output`; a manager with no
/// packages is left out.
pub fn packages(winget: Option<String>, scoop: Option<String>, choco: Option<String>) -> (r: Vec<String>)
    ensures
        string_views(r@) == listing_entry(opt_view(winget), 2, "winget"@) + listing_entry(
            opt_view(scoop),
            2,
            "scoop"@,
        ) + listing_entry(opt_view(choco), 0, "choco"@),
{
    let mut v: Vec<String> = Vec::new();
    push_listing(&mut v, &winget, 2, "winget");
    push_listing(&mut v, &scoop, 2, "scoop");
    push_listing(&mut v, &choco, 0, "choco");
    proof {
        assert(string_views(Seq::<String>::empty()) =~= Seq::<Seq<char>>::empty());
    }
    v
}

/// Always `Aero`.
pub fn desktop_environment() -> (r: Option<String>)
    ensures
        r matches Some(s) && s@ == "Aero"@,
{
    Some(String::from_str("Aero"))
}

/// Always `DWM`.
pub fn window_manager() -> (r: Option<String>)
    ensures
        r matches Some(s) && s@ == "DWM"@,
{
    Some(String::from_str("DWM"))
}

/// The `WxH` list from `Win32_VideoController`, trimmed; absent when empty or
/// when it starts with `x` (no width reported).
pub fn resolution(out: Option<String>) -> (r: Option<String>)
    ensures
        match out {
            Some(s) => {
                let t = trim(s@);
                if t.len() == 0 || t[0] == 'x' {
                    r is None
                } else {
                    r matches Some(x) && x@ == t
                }
            },
            None => r is None,
        },
{
    match out {
        Some(s) => {
            let t = chars_of(s.as_str());
            let t = trimmed(t.as_slice());
            if t.len() == 0 || t[0] == 'x' {
                None
            } else {
                Some(string_of(&t))
            }
        },
        None => None,
    }
}

/// The trimmed lines that are not blank.
pub open spec fn nonblank_trimmed(ls: Seq<Seq<char>>) -> Seq<Seq<char>>
    decreases ls.len(),
{
    if ls.len() == 0 {
        Seq::empty()
    } else {
        let init = nonblank_trimmed(ls.drop_last());
        let t = trim(ls.last());
        if t.len() > 0 {
            init.push(t)
        } else {
            init
        }
    }
}

/// The video controllers' names, one per line, trimmed; blank lines dropped.
pub fn gpus(out: Option<String>) -> (r: Vec<String>)
    ensures
        string_views(r@) == match out {
            Some(s) => nonblank_trimmed(lines(s@)),
            None => Seq::empty(),
        },
{
    let mut r: Vec<String> = Vec::new();
    match out {
        Some(s) => {
            let v = chars_of(s.as_str());
            let ls = lines_of(v.as_slice());
            let ghost all = views(ls@);
            let mut i: usize = 0;
            while i < ls.len()
                invariant
                    all == views(ls@),
                    all == lines(s@),
                    i <= ls@.len(),
                    string_views(r@) == nonblank_trimmed(all.subrange(0, i as int)),
                decreases ls.len() - i,
            {
                proof {
                    assert(all.subrange(0, i + 1).drop_last() =~= all.subrange(0, i as int));
                }
                let ghost before = r@;
                let t = trimmed(ls[i].as_slice());
                if t.len() > 0 {
                    r.push(string_of(&t));
                    proof {
                        assert(string_views(r@) =~= string_views(before).push(t@));
                    }
                }
                i = i + 1;
            }
            proof {
                assert(all.subrange(0, ls@.len() as int) =~= all);
            }
            r
        },
        None => {
            proof {
                assert(string_views(r@) =~= Seq::<Seq<char>>::empty());
            }
            r
        },
    }
}

/// The words for a `Win32_Battery.BatteryStatus` code.
pub open spec fn battery_status(code: Seq<char>) -> Seq<char> {
    if code == "1"@ {
        "discharging"@
    } else if code == "2"@ {
        "AC"@
    } else if code == "3"@ {
        "fully charged"@
    } else if code == "4"@ {
        "low"@
    } else if code == "5"@ {
        "critical"@
    } else if code == "6"@ {
        "charging"@
    } else {
        "unknown"@
    }
}

/// The words for a status code.
fn battery_status_of(code: &Vec<char>) -> (r: &'static str)
    ensures
        r@ == battery_status(code@),
{
    proof {
        reveal_strlit("1");
        reveal_strlit("2");
        reveal_strlit("3");
        reveal_strlit("4");
        reveal_strlit("5");
        reveal_strlit("6");
    }
    let one = code.len() == 1;
    let c = if one {
        code[0]
    } else {
        ' '
    };
    proof {
        if one {
            assert(code@ =~= seq![c]);
        }
        assert("1"@ =~= seq!['1']);
        assert("2"@ =~= seq!['2']);
        assert("3"@ =~= seq!['3']);
        assert("4"@ =~= seq!['4']);
        assert("5"@ =~= seq!['5']);
        assert("6"@ =~= seq!['6']);
    }
    if one && c == '1' {
        "discharging"
    } else if one && c == '2' {
        "AC"
    } else if one && c == '3' {
        "fully charged"
    } else if one && c == '4' {
        "low"
    } else if one && c == '5' {
        "critical"
    } else if one && c == '6' {
        "charging"
    } else {
        proof {
            assert(code@ != "1"@ && code@ != "2"@ && code@ != "3"@ && code@ != "4"@ && code@ != "5"@
                && code@ != "6"@) by {
                if one {
                    assert(code@[0] == c);
                }
            }
        }
        "unknown"
    }
}

/// The battery line, `pct:status`: `"{pct}% ({status})"`; absent when the
/// output is blank or has no `:`.
pub open spec fn battery_text(out: Seq<char>) -> Option<Seq<char>> {
    let s = trim(out);
    let k = first_index(s, ':');
    if s.len() == 0 || k < 0 {
        None
    } else {
        Some(s.subrange(0, k) + "% ("@ + battery_status(s.subrange(k + 1, s.len() as int)) + ")"@)
    }
}

/// `EstimatedChargeRemaining:BatteryStatus` of the first battery, as
/// `"{pct}% ({status})"`.
pub fn battery(out: Option<String>) -> (r: Option<String>)
    ensures
        match out {
            Some(s) => match battery_text(s@) {
                Some(t) => r matches Some(x) && x@ == t,
                None => r is None,
            },
            None => r is None,
        },
{
    match out {
        Some(s) => {
            let v = chars_of(s.as_str());
            let t = trimmed(v.as_slice());
            if t.len() == 0 {
                return None;
            }
            match find_char(t.as_slice(), ':') {
                Some(k) => {
                    proof {
                        crate::text::lemma_first_index(t@, ':');
                    }
                    let pct = slice_of(t.as_slice(), 0, k);
                    let code = slice_of(t.as_slice(), k + 1, t.len());
                    let mut r = string_of(&pct);
                    r.append("% (");
                    r.append(battery_status_of(&code));
                    r.append(")");
                    Some(r)
                },
                None => None,
            }
        },
        None => None,
    }
}

/// Not reported on Windows.
pub fn init_system() -> (r: Option<String>)
    ensures
        r is None,
{
    None
}

/// Not reported on Windows.
pub fn load_average() -> (r: Option<String>)
    ensures
        r is None,
{
    None
}

/// Not reported on Windows.
pub fn cpu_temperature() -> (r: Option<String>)
    ensures
        r is None,
{
    None
}

/// Not reported on Windows.
pub fn gpu_drivers() -> (r: Vec<String>)
    ensures
        r@.len() == 0,
{
    Vec::new()
}

/// Not reported on Windows.
pub fn audio_server() -> (r: Option<String>)
    ensures
        r is None,
{
    None
}

/// Not reported on Windows.
pub fn session_type() -> (r: Option<String>)
    ensures
        r is None,
{
    None
}

/// Not reported on Windows.
pub fn local_ip() -> (r: Option<String>)
    ensures
        r is None,
{
    None
}

/// Not reported on Windows.
pub fn local_ip6() -> (r: Option<String>)
    ensures
        r is None,
{
    None
}

/// Not reported on Windows.
pub fn theme() -> (r: Option<String>)
    ensures
        r is None,
{
    None
}

} // verus!
