//! ASCII distro logos: choosing one by name, alias or the running system.
//!
//! The logos themselves (their lines, with colours inline) are supplied as a
//! catalog; lookups answer with the position of the chosen logo in it.
use vstd::prelude::*;

use crate::text::{
    chars_of, find_char, first_index, lines, lines_of, lowercase_of, same, slice_of, string_of,
    string_views, to_lower, trim, trim_char, trim_char_both, trimmed, views, words, words_of,
};

verus! {

/// One logo: its name, its printable width and its lines.
pub struct Logo {
    pub name: String,
    pub width: u16,
    pub lines: Vec<String>,
}

impl Logo {
    /// The number of lines, as a `u16` (wrapping as `as u16` does).
    pub fn height(&self) -> (h: u16)
        ensures
            h == self.lines@.len() as u16,
    {
        self.lines.len() as u16
    }
}

/// The names of the catalog's logos, in order.
pub open spec fn logo_names(catalog: Seq<Logo>) -> Seq<Seq<char>> {
    catalog.map_values(|l: Logo| l.name@)
}

/// The order of the built-in logos.
pub open spec fn builtin_names() -> Seq<Seq<char>> {
    seq![
        "arch"@,
        "ubuntu"@,
        "debian"@,
        "fedora"@,
        "mint"@,
        "pop"@,
        "manjaro"@,
        "opensuse"@,
        "alpine"@,
        "nixos"@,
        "endeavouros"@,
        "artix"@,
        "gentoo"@,
        "void"@,
        "kali"@,
        "macos"@,
        "windows"@,
        "tux"@,
    ]
}

/// The names of the built-in logos, in catalog order.
pub fn builtin_logo_names() -> (r: Vec<String>)
    ensures
        string_views(r@) == builtin_names(),
{
    let names = vec![
        "arch",
        "ubuntu",
        "debian",
        "fedora",
        "mint",
        "pop",
        "manjaro",
        "opensuse",
        "alpine",
        "nixos",
        "endeavouros",
        "artix",
        "gentoo",
        "void",
        "kali",
        "macos",
        "windows",
        "tux",
    ];
    let mut r: Vec<String> = Vec::new();
    let mut i: usize = 0;
    while i < names.len()
        invariant
            i <= names@.len(),
            names@.len() == 18,
            string_views(r@) =~= Seq::new(i as nat, |j: int| names@[j]@),
        decreases names.len() - i,
    {
        let ghost before = r@;
        let s = String::from_str(names[i]);
        r.push(s);
        proof {
            assert(string_views(r@) =~= string_views(before).push(s@));
        }
        i = i + 1;
    }
    proof {
        assert(string_views(r@) =~= builtin_names());
    }
    r
}

/// The first position of `n` among the names.
pub open spec fn find_name(names: Seq<Seq<char>>, n: Seq<char>) -> Option<int>
    decreases names.len(),
{
    if names.len() == 0 {
        None
    } else if names.last() == n && find_name(names.drop_last(), n) is None {
        Some(names.len() - 1)
    } else {
        find_name(names.drop_last(), n)
    }
}

/// The logo that an alternative spelling stands for.
pub open spec fn alias(n: Seq<char>) -> Option<Seq<char>> {
    if n == "arch_linux"@ || n == "archlinux"@ {
        Some("arch"@)
    } else if n == "ubuntu_linux"@ {
        Some("ubuntu"@)
    } else if n == "linuxmint"@ {
        Some("mint"@)
    } else if n == "pop_os"@ || n == "pop!_os"@ || n == "popos"@ {
        Some("pop"@)
    } else if n == "opensuse-tumbleweed"@ || n == "opensuse-leap"@ || n == "suse"@ || n
        == "tumbleweed"@ {
        Some("opensuse"@)
    } else if n == "manjarolinux"@ {
        Some("manjaro"@)
    } else if n == "endeavour"@ {
        Some("endeavouros"@)
    } else if n == "darwin"@ || n == "mac"@ || n == "osx"@ {
        Some("macos"@)
    } else if n == "win"@ || n == "win32"@ || n == "windows10"@ || n == "windows11"@ {
        Some("windows"@)
    } else if n == "linux"@ || n == "penguin"@ {
        Some("tux"@)
    } else {
        None
    }
}

/// The system the program runs on, as far as the logo goes.
pub enum Platform {
    MacOs,
    Windows,
    /// Linux, with the distribution ids of `/etc/os-release` in order of
    /// preference ([`linux_distro_ids`]).
    Linux(Vec<String>),
    Other,
}

/// The logo named `n` exactly, else the one its alias names.
pub open spec fn name_or_alias(names: Seq<Seq<char>>, n: Seq<char>) -> Option<int> {
    match find_name(names, n) {
        Some(i) => Some(i),
        None => match alias(n) {
            Some(a) => find_name(names, a),
            None => None,
        },
    }
}

/// The first id that names a logo (trimmed, lower case), exactly or through
/// an alias.
pub open spec fn first_known(names: Seq<Seq<char>>, ids: Seq<Seq<char>>) -> Option<int>
    decreases ids.len(),
{
    if ids.len() == 0 {
        None
    } else {
        match name_or_alias(names, lowercase_of(trim(ids[0]))) {
            Some(i) => Some(i),
            None => first_known(names, ids.drop_first()),
        }
    }
}

/// The logo for the running system: macOS and Windows have theirs; on Linux
/// the first distribution id with a logo (by name or alias), else the penguin; elsewhere the
/// penguin.
pub open spec fn auto_logo(names: Seq<Seq<char>>, p: Platform) -> Option<int> {
    match p {
        Platform::MacOs => find_name(names, "macos"@),
        Platform::Windows => find_name(names, "windows"@),
        Platform::Linux(ids) => match first_known(names, string_views(ids@)) {
            Some(i) => Some(i),
            None => find_name(names, "tux"@),
        },
        Platform::Other => find_name(names, "tux"@),
    }
}

/// The logo that `name` asks for: trimmed and lower-cased, empty or `auto`
/// picks for the running system, `none` asks for no logo, else an exact name
/// or an alias.
pub open spec fn lookup_logo(names: Seq<Seq<char>>, name: Seq<char>, p: Platform) -> Option<int> {
    let n = lowercase_of(trim(name));
    if n.len() == 0 || n == "auto"@ {
        auto_logo(names, p)
    } else if n == "none"@ {
        None
    } else {
        name_or_alias(names, n)
    }
}

/// [`find_name`] in the catalog.
fn find_name_of(catalog: &Vec<Logo>, n: &[char]) -> (r: Option<usize>)
    ensures
        match r {
            Some(i) => find_name(logo_names(catalog@), n@) == Some(i as int),
            None => find_name(logo_names(catalog@), n@) is None,
        },
{
    let ghost names = logo_names(catalog@);
    let mut i: usize = 0;
    proof {
        assert(names.subrange(0, 0) =~= Seq::<Seq<char>>::empty());
    }
    while i < catalog.len()
        invariant
            names == logo_names(catalog@),
            i <= catalog@.len(),
            find_name(names.subrange(0, i as int), n@) is None,
        decreases catalog.len() - i,
    {
        let nv = chars_of(catalog[i].name.as_str());
        proof {
            assert(names.subrange(0, i + 1).drop_last() =~= names.subrange(0, i as int));
            assert(names[i as int] == catalog@[i as int].name@);
        }
        if same(nv.as_slice(), n) {
            proof {
                lemma_find_name_prefix(names, i + 1, n@);
            }
            return Some(i);
        }
        i = i + 1;
    }
    proof {
        assert(names.subrange(0, names.len() as int) =~= names);
    }
    None
}

/// A position found in a prefix is the position in the whole list.
pub proof fn lemma_find_name_prefix(names: Seq<Seq<char>>, k: int, n: Seq<char>)
    requires
        0 <= k <= names.len(),
        find_name(names.subrange(0, k), n) is Some,
    ensures
        find_name(names, n) == find_name(names.subrange(0, k), n),
    decreases names.len() - k,
{
    if k < names.len() {
        assert(names.subrange(0, k + 1).drop_last() =~= names.subrange(0, k));
        lemma_find_name_prefix(names, k + 1, n);
    } else {
        assert(names.subrange(0, k) =~= names);
    }
}

/// [`find_name`] for a name given as text.
fn find_named(catalog: &Vec<Logo>, n: &str) -> (r: Option<usize>)
    ensures
        match r {
            Some(i) => find_name(logo_names(catalog@), n@) == Some(i as int),
            None => find_name(logo_names(catalog@), n@) is None,
        },
{
    let v = chars_of(n);
    find_name_of(catalog, v.as_slice())
}

/// The logo named exactly `name` once trimmed and lower-cased.
pub fn lookup_strict(catalog: &Vec<Logo>, name: &str) -> (r: Option<usize>)
    ensures
        match r {
            Some(i) => find_name(logo_names(catalog@), lowercase_of(trim(name@))) == Some(i as int),
            None => find_name(logo_names(catalog@), lowercase_of(trim(name@))) is None,
        },
{
    let v = chars_of(name);
    let t = trimmed(v.as_slice());
    let ts = string_of(&t);
    let low = to_lower(ts.as_str());
    find_named(catalog, low.as_str())
}

/// The logo for the running system (see [`auto_logo`]).
pub fn auto(catalog: &Vec<Logo>, p: &Platform) -> (r: Option<usize>)
    ensures
        match r {
            Some(i) => auto_logo(logo_names(catalog@), *p) == Some(i as int),
            None => auto_logo(logo_names(catalog@), *p) is None,
        },
{
    match p {
        Platform::MacOs => find_named(catalog, "macos"),
        Platform::Windows => find_named(catalog, "windows"),
        Platform::Linux(ids) => {
            let ghost names = logo_names(catalog@);
            let ghost all = string_views(ids@);
            let mut i: usize = 0;
            proof {
                assert(all.subrange(0, all.len() as int) =~= all);
            }
            let ghost want = auto_logo(names, *p);
            proof {
                assert(want == match first_known(names, all) {
                    Some(i) => Some(i),
                    None => find_name(names, "tux"@),
                });
            }
            while i < ids.len()
                invariant
                    names == logo_names(catalog@),
                    all == string_views(ids@),
                    want == auto_logo(names, *p),
                    want == match first_known(names, all) {
                        Some(i) => Some(i),
                        None => find_name(names, "tux"@),
                    },
                    i <= ids@.len(),
                    first_known(names, all) == first_known(
                        names,
                        all.subrange(i as int, all.len() as int),
                    ),
                decreases ids.len() - i,
            {
                proof {
                    let t = all.subrange(i as int, all.len() as int);
                    assert(t.drop_first() =~= all.subrange(i + 1, all.len() as int));
                    assert(t[0] == ids@[i as int]@);
                }
                let iv = chars_of(ids[i].as_str());
                let it = trimmed(iv.as_slice());
                let its = string_of(&it);
                let ilow = to_lower(its.as_str());
                let iw = chars_of(ilow.as_str());
                match find_or_alias(catalog, iw.as_slice()) {
                    Some(k) => {
                        return Some(k);
                    },
                    None => {},
                }
                i = i + 1;
            }
            find_named(catalog, "tux")
        },
        Platform::Other => find_named(catalog, "tux"),
    }
}

/// The name an alias stands for (see [`alias`]).
fn alias_of(n: &[char]) -> (r: Option<&'static str>)
    ensures
        match r {
            Some(a) => alias(n@) == Some(a@),
            None => alias(n@) is None,
        },
{
    let is = |s: &'static str| -> (b: bool)
        ensures
            b == (n@ == s@),
        {
            let v = chars_of(s);
            same(n, v.as_slice())
        };
    if is("arch_linux") || is("archlinux") {
        Some("arch")
    } else if is("ubuntu_linux") {
        Some("ubuntu")
    } else if is("linuxmint") {
        Some("mint")
    } else if is("pop_os") || is("pop!_os") || is("popos") {
        Some("pop")
    } else if is("opensuse-tumbleweed") || is("opensuse-leap") || is("suse") || is("tumbleweed") {
        Some("opensuse")
    } else if is("manjarolinux") {
        Some("manjaro")
    } else if is("endeavour") {
        Some("endeavouros")
    } else if is("darwin") || is("mac") || is("osx") {
        Some("macos")
    } else if is("win") || is("win32") || is("windows10") || is("windows11") {
        Some("windows")
    } else if is("linux") || is("penguin") {
        Some("tux")
    } else {
        None
    }
}

/// The logo that `name` asks for (see [`lookup_logo`]); `None` for no logo.
pub fn lookup(catalog: &Vec<Logo>, name: &str, p: &Platform) -> (r: Option<usize>)
    ensures
        match r {
            Some(i) => lookup_logo(logo_names(catalog@), name@, *p) == Some(i as int),
            None => lookup_logo(logo_names(catalog@), name@, *p) is None,
        },
{
    let v = chars_of(name);
    let t = trimmed(v.as_slice());
    let ts = string_of(&t);
    let low = to_lower(ts.as_str());
    let n = chars_of(low.as_str());
    let auto_word = chars_of("auto");
    let none_word = chars_of("none");
    if n.len() == 0 || same(n.as_slice(), auto_word.as_slice()) {
        return auto(catalog, p);
    }
    if same(n.as_slice(), none_word.as_slice()) {
        return None;
    }
    find_or_alias(catalog, n.as_slice())
}

/// [`name_or_alias`] in the catalog.
fn find_or_alias(catalog: &Vec<Logo>, n: &[char]) -> (r: Option<usize>)
    ensures
        match r {
            Some(i) => name_or_alias(logo_names(catalog@), n@) == Some(i as int),
            None => name_or_alias(logo_names(catalog@), n@) is None,
        },
{
    match find_name_of(catalog, n) {
        Some(i) => Some(i),
        None => match alias_of(n) {
            Some(a) => find_named(catalog, a),
            None => None,
        },
    }
}

/// The distribution ids that `/etc/os-release` lists, best first: `ID`
/// (a later `ID` line goes before an earlier one), then the words of each
/// `ID_LIKE` line in order. Values lose their surrounding quotes.
pub open spec fn distro_ids(ls: Seq<Seq<char>>) -> Seq<Seq<char>>
    decreases ls.len(),
{
    if ls.len() == 0 {
        Seq::empty()
    } else {
        let prev = distro_ids(ls.drop_last());
        let l = ls.last();
        let k = first_index(l, '=');
        if k < 0 {
            prev
        } else {
            let key = l.subrange(0, k);
            let v = trim_char(l.subrange(k + 1, l.len() as int), '"');
            if key == "ID"@ {
                seq![v] + prev
            } else if key == "ID_LIKE"@ {
                prev + words(v)
            } else {
                prev
            }
        }
    }
}

/// The distribution ids of an `os-release` text (see [`distro_ids`]).
pub fn linux_distro_ids(os_release: &str) -> (r: Vec<String>)
    ensures
        string_views(r@) == distro_ids(lines(os_release@)),
{
    let v = chars_of(os_release);
    let ls = lines_of(v.as_slice());
    let ghost all = views(ls@);
    let id_key = chars_of("ID");
    let like_key = chars_of("ID_LIKE");
    let mut ids: Vec<String> = Vec::new();
    let mut i: usize = 0;
    proof {
        assert(string_views(ids@) =~= distro_ids(all.subrange(0, 0)));
    }
    while i < ls.len()
        invariant
            all == views(ls@),
            all == lines(os_release@),
            id_key@ == "ID"@,
            like_key@ == "ID_LIKE"@,
            i <= ls@.len(),
            string_views(ids@) == distro_ids(all.subrange(0, i as int)),
        decreases ls.len() - i,
    {
        proof {
            assert(all.subrange(0, i + 1).drop_last() =~= all.subrange(0, i as int));
            assert(all.subrange(0, i + 1).last() == ls@[i as int]@);
        }
        let l = ls[i].as_slice();
        let ghost before = ids@;
        match find_char(l, '=') {
            Some(k) => {
                proof {
                    crate::text::lemma_first_index(l@, '=');
                }
                let n = l.len();
                assert(k < n);
                let key = slice_of(l, 0, k);
                let rest = slice_of(l, k + 1, n);
                let val = trim_char_both(rest.as_slice(), '"');
                if same(key.as_slice(), id_key.as_slice()) {
                    let s = string_of(&val);
                    ids.insert(0, s);
                    proof {
                        assert(string_views(ids@) =~= seq![val@] + string_views(before));
                    }
                } else if same(key.as_slice(), like_key.as_slice()) {
                    let ws = words_of(val.as_slice());
                    let mut j: usize = 0;
                    while j < ws.len()
                        invariant
                            j <= ws@.len(),
                            string_views(ids@) == string_views(before) + views(ws@).subrange(
                                0,
                                j as int,
                            ),
                        decreases ws.len() - j,
                    {
                        let ghost mid = ids@;
                        let s = string_of(&ws[j]);
                        ids.push(s);
                        proof {
                            assert(views(ws@)[j as int] == ws@[j as int]@);
                            assert(string_views(ids@) =~= string_views(mid).push(s@));
                            assert(views(ws@).subrange(0, j + 1) =~= views(ws@).subrange(
                                0,
                                j as int,
                            ).push(ws@[j as int]@));
                        }
                        j = j + 1;
                    }
                    proof {
                        assert(views(ws@).subrange(0, ws@.len() as int) =~= views(ws@));
                    }
                }
            },
            None => {},
        }
        i = i + 1;
    }
    proof {
        assert(all.subrange(0, ls@.len() as int) =~= all);
    }
    ids
}


/// Names are matched ignoring surrounding white space and case: two names
/// that agree once trimmed and lower-cased pick the same logo.
pub proof fn lookup_ignores_case_and_spaces(names: Seq<Seq<char>>, a: Seq<char>, b: Seq<char>, p: Platform)
    requires
        lowercase_of(trim(a)) == lowercase_of(trim(b)),
    ensures
        lookup_logo(names, a, p) == lookup_logo(names, b, p),
{
}

/// On Linux, a distribution with no logo of its own gets the penguin.
pub proof fn unknown_distro_gets_tux(names: Seq<Seq<char>>, ids: Vec<String>)
    requires
        first_known(names, string_views(ids@)) is None,
    ensures
        auto_logo(names, Platform::Linux(ids)) == find_name(names, "tux"@),
{
}

} // verus!
