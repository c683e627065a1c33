//! The effective configuration: config-file values, then command-line overrides.
use vstd::prelude::*;

use crate::cli::{Args, ProtocolArg};
use crate::image::chroma::{chroma_parse, ChromaError, ChromaKey};
use crate::text::{chars_of, same, string_views};

verus! {

/// Everything the rest of the program reads from the configuration.
pub struct Config {
    pub image_path: Option<String>,
    pub protocol: ProtocolPref,
    pub image_cols: u16,
    pub animate: bool,
    pub live: bool,
    pub refresh_ms: u64,
    pub modules: Vec<String>,
    pub chroma: ChromaKey,
    pub chroma_tolerance: u8,
    pub logo: String,
}

/// Which image protocol to use; `Auto` asks the terminal detection.
#[derive(Clone, Copy, Debug, PartialEq, Eq, Structural)]
pub enum ProtocolPref {
    Auto,
    Kitty,
    Iterm2,
    Ansi,
    /// No image.
    Off,
}

/// The preference a command-line protocol argument stands for.
pub open spec fn pref_of(p: ProtocolArg) -> ProtocolPref {
    match p {
        ProtocolArg::Auto => ProtocolPref::Auto,
        ProtocolArg::Kitty => ProtocolPref::Kitty,
        ProtocolArg::Iterm2 => ProtocolPref::Iterm2,
        ProtocolArg::Ansi => ProtocolPref::Ansi,
        ProtocolArg::Off => ProtocolPref::Off,
    }
}

impl From<&ProtocolArg> for ProtocolPref {
    fn from(p: &ProtocolArg) -> (r: Self) {
        match p {
            ProtocolArg::Auto => ProtocolPref::Auto,
            ProtocolArg::Kitty => ProtocolPref::Kitty,
            ProtocolArg::Iterm2 => ProtocolPref::Iterm2,
            ProtocolArg::Ansi => ProtocolPref::Ansi,
            ProtocolArg::Off => ProtocolPref::Off,
        }
    }
}

impl vstd::std_specs::convert::FromSpecImpl<&ProtocolArg> for ProtocolPref {
    open spec fn obeys_from_spec() -> bool {
        true
    }

    open spec fn from_spec(p: &ProtocolArg) -> Self {
        pref_of(*p)
    }
}

/// The config file's fields, each optional.
pub struct FileConfig {
    pub image: Option<String>,
    pub protocol: Option<String>,
    pub image_cols: Option<u16>,
    pub animate: Option<bool>,
    pub live: Option<bool>,
    pub refresh_ms: Option<u64>,
    pub modules: Option<Vec<String>>,
    pub chroma: Option<String>,
    pub chroma_tolerance: Option<u8>,
    pub logo: Option<String>,
}

impl FileConfig {
    /// A config file that sets nothing (what a missing file amounts to).
    pub fn empty() -> (r: FileConfig)
        ensures
            r.image is None,
            r.protocol is None,
            r.image_cols is None,
            r.animate is None,
            r.live is None,
            r.refresh_ms is None,
            r.modules is None,
            r.chroma is None,
            r.chroma_tolerance is None,
            r.logo is None,
    {
        FileConfig {
            image: None,
            protocol: None,
            image_cols: None,
            animate: None,
            live: None,
            refresh_ms: None,
            modules: None,
            chroma: None,
            chroma_tolerance: None,
            logo: None,
        }
    }
}

/// The module list used when neither the config file nor the command line names one.
pub open spec fn default_module_names() -> Seq<Seq<char>> {
    seq![
        "title"@, "separator"@, "os"@, "host"@, "kernel"@, "init"@, "uptime"@, "loadavg"@,
        "packages"@, "shell"@, "terminal"@, "session"@, "de"@, "wm"@, "resolution"@, "cpu"@,
        "cputemp"@, "gpu"@, "gpudriver"@, "memory"@, "swap"@, "network"@, "disk"@, "localip"@,
        "audio"@, "theme"@, "battery"@, "locale"@, "break"@, "colors"@,
    ]
}

/// A copy of a list of strings.
pub fn clone_strings(v: &Vec<String>) -> (r: Vec<String>)
    ensures
        string_views(r@) == string_views(v@),
{
    let mut r: Vec<String> = Vec::new();
    let mut i: usize = 0;
    while i < v.len()
        invariant
            i <= v@.len(),
            string_views(r@) =~= string_views(v@.subrange(0, i as int)),
        decreases v.len() - i,
    {
        r.push(v[i].clone());
        i = i + 1;
        proof {
            assert(string_views(v@.subrange(0, i as int)) =~= string_views(
                v@.subrange(0, i - 1),
            ).push(v@[i - 1]@));
        }
    }
    proof {
        assert(v@.subrange(0, v@.len() as int) =~= v@);
    }
    r
}

/// A copy of an optional string.
pub fn clone_opt_string(o: &Option<String>) -> (r: Option<String>)
    ensures
        match (o, r) {
            (Some(a), Some(b)) => a@ == b@,
            (None, None) => true,
            _ => false,
        },
{
    match o {
        Some(s) => Some(s.clone()),
        None => None,
    }
}

fn push_name(v: &mut Vec<String>, s: &str)
    ensures
        string_views(final(v)@) == string_views(old(v)@).push(s@),
{
    let ghost before = v@;
    v.push(String::from_str(s));
    proof {
        assert(string_views(v@) =~= string_views(before).push(s@));
    }
}

/// Every module, in the default layout order.
pub fn default_modules() -> (r: Vec<String>)
    ensures
        string_views(r@) == default_module_names(),
{
    let mut v: Vec<String> = Vec::new();
    push_name(&mut v, "title");
    push_name(&mut v, "separator");
    push_name(&mut v, "os");
    push_name(&mut v, "host");
    push_name(&mut v, "kernel");
    push_name(&mut v, "init");
    push_name(&mut v, "uptime");
    push_name(&mut v, "loadavg");
    push_name(&mut v, "packages");
    push_name(&mut v, "shell");
    push_name(&mut v, "terminal");
    push_name(&mut v, "session");
    push_name(&mut v, "de");
    push_name(&mut v, "wm");
    push_name(&mut v, "resolution");
    push_name(&mut v, "cpu");
    push_name(&mut v, "cputemp");
    push_name(&mut v, "gpu");
    push_name(&mut v, "gpudriver");
    push_name(&mut v, "memory");
    push_name(&mut v, "swap");
    push_name(&mut v, "network");
    push_name(&mut v, "disk");
    push_name(&mut v, "localip");
    push_name(&mut v, "audio");
    push_name(&mut v, "theme");
    push_name(&mut v, "battery");
    push_name(&mut v, "locale");
    push_name(&mut v, "break");
    push_name(&mut v, "colors");
    proof {
        assert(string_views(v@) =~= default_module_names());
    }
    v
}

/// The protocol a config-file string names; anything unknown means `Auto`.
pub open spec fn protocol_named(s: Option<Seq<char>>) -> ProtocolPref {
    match s {
        Some(t) => if t == "kitty"@ {
            ProtocolPref::Kitty
        } else if t == "iterm2"@ {
            ProtocolPref::Iterm2
        } else if t == "ansi"@ {
            ProtocolPref::Ansi
        } else if t == "none"@ {
            ProtocolPref::Off
        } else {
            ProtocolPref::Auto
        },
        None => ProtocolPref::Auto,
    }
}

/// Each protocol name of the config file picks its own preference: `kitty`
/// Kitty, `iterm2` iTerm2, `ansi` ANSI, `none` no image; any other string,
/// or no setting, leaves the choice to detection.
pub proof fn config_protocol_names(t: Seq<char>)
    ensures
        protocol_named(Some("kitty"@)) == ProtocolPref::Kitty,
        protocol_named(Some("iterm2"@)) == ProtocolPref::Iterm2,
        protocol_named(Some("ansi"@)) == ProtocolPref::Ansi,
        protocol_named(Some("none"@)) == ProtocolPref::Off,
        protocol_named(None) == ProtocolPref::Auto,
        t != "kitty"@ && t != "iterm2"@ && t != "ansi"@ && t != "none"@ ==> protocol_named(Some(t))
            == ProtocolPref::Auto,
{
    reveal_strlit("kitty");
    reveal_strlit("iterm2");
    reveal_strlit("ansi");
    reveal_strlit("none");
    assert("kitty"@.len() == 5);
    assert("iterm2"@.len() == 6);
    assert("ansi"@.len() == 4);
    assert("none"@.len() == 4);
    assert("ansi"@[0] == 'a');
    assert("none"@[0] == 'n');
}

/// The refresh interval actually used: at least 50 ms.
pub open spec fn clamp_refresh(ms: u64) -> u64 {
    if ms < 50 {
        50
    } else {
        ms
    }
}

/// The optional string's characters.
pub open spec fn opt_view(o: Option<String>) -> Option<Seq<char>> {
    match o {
        Some(s) => Some(s@),
        None => None,
    }
}

fn protocol_from_name(s: &Option<String>) -> (r: ProtocolPref)
    ensures
        r == protocol_named(opt_view(*s)),
{
    match s {
        Some(t) => {
            let c = chars_of(t.as_str());
            if same(c.as_slice(), chars_of("kitty").as_slice()) {
                ProtocolPref::Kitty
            } else if same(c.as_slice(), chars_of("iterm2").as_slice()) {
                ProtocolPref::Iterm2
            } else if same(c.as_slice(), chars_of("ansi").as_slice()) {
                ProtocolPref::Ansi
            } else if same(c.as_slice(), chars_of("none").as_slice()) {
                ProtocolPref::Off
            } else {
                ProtocolPref::Auto
            }
        },
        None => ProtocolPref::Auto,
    }
}

/// Builds the configuration from what the config file set; every field it
/// leaves out takes its default. Fails only on an unparsable chroma value.
pub fn load(file: FileConfig) -> (r: Result<Config, ChromaError>)
    ensures
        match file.chroma {
            Some(c) => chroma_parse(c@) is Err ==> r == Err::<Config, ChromaError>(
                chroma_parse(c@)->Err_0,
            ),
            None => true,
        },
        r is Ok <==> (file.chroma matches Some(c) ==> chroma_parse(c@) is Ok),
        r matches Ok(cfg) ==> {
            &&& opt_view(cfg.image_path) == opt_view(file.image)
            &&& cfg.protocol == protocol_named(opt_view(file.protocol))
            &&& cfg.image_cols == (match file.image_cols {
                Some(c) => c,
                None => 34u16,
            })
            &&& cfg.animate == (match file.animate {
                Some(a) => a,
                None => true,
            })
            &&& cfg.live == (match file.live {
                Some(l) => l,
                None => false,
            })
            &&& cfg.refresh_ms == clamp_refresh(
                match file.refresh_ms {
                    Some(m) => m,
                    None => 500u64,
                },
            )
            &&& string_views(cfg.modules@) == (match file.modules {
                Some(m) => string_views(m@),
                None => default_module_names(),
            })
            &&& cfg.chroma == (match file.chroma {
                Some(c) => chroma_parse(c@)->Ok_0,
                None => ChromaKey::Off,
            })
            &&& cfg.chroma_tolerance == (match file.chroma_tolerance {
                Some(t) => t,
                None => 24u8,
            })
            &&& cfg.logo@ == (match file.logo {
                Some(l) => l@,
                None => "auto"@,
            })
        },
{
    let protocol = protocol_from_name(&file.protocol);
    let chroma = match &file.chroma {
        Some(c) => match ChromaKey::parse(c.as_str()) {
            Ok(k) => k,
            Err(e) => {
                return Err(e);
            },
        },
        None => ChromaKey::Off,
    };
    let refresh = match file.refresh_ms {
        Some(m) => m,
        None => 500,
    };
    let modules = match file.modules {
        Some(m) => m,
        None => default_modules(),
    };
    let logo = match file.logo {
        Some(l) => l,
        None => String::from_str("auto"),
    };
    Ok(
        Config {
            image_path: file.image,
            protocol,
            image_cols: match file.image_cols {
                Some(c) => c,
                None => 34,
            },
            animate: match file.animate {
                Some(a) => a,
                None => true,
            },
            live: match file.live {
                Some(l) => l,
                None => false,
            },
            refresh_ms: if refresh < 50 {
                50
            } else {
                refresh
            },
            modules,
            chroma,
            chroma_tolerance: match file.chroma_tolerance {
                Some(t) => t,
                None => 24,
            },
            logo,
        },
    )
}

impl Config {
    /// Applies the command-line overrides: every flag that is given replaces
    /// the configured value; an unparsable `--chroma` is ignored.
    pub fn merge_cli(self, args: &Args) -> (r: Self)
        ensures
            opt_view(r.image_path) == (match args.image {
                Some(p) => Some(p@),
                None => opt_view(self.image_path),
            }),
            r.protocol == (match args.protocol {
                Some(p) => pref_of(p),
                None => self.protocol,
            }),
            r.image_cols == (match args.image_cols {
                Some(c) => c,
                None => self.image_cols,
            }),
            r.animate == (self.animate && !args.no_animate),
            r.live == (self.live || args.live),
            r.refresh_ms == (match args.refresh {
                Some(ms) => clamp_refresh(ms),
                None => self.refresh_ms,
            }),
            string_views(r.modules@) == (match args.modules {
                Some(m) => string_views(m@),
                None => string_views(self.modules@),
            }),
            r.chroma == (match args.chroma {
                Some(c) => match chroma_parse(c@) {
                    Ok(k) => k,
                    Err(_) => self.chroma,
                },
                None => self.chroma,
            }),
            r.chroma_tolerance == (match args.chroma_tolerance {
                Some(t) => t,
                None => self.chroma_tolerance,
            }),
            r.logo@ == (match args.logo {
                Some(l) => l@,
                None => self.logo@,
            }),
    {
        let mut cfg = self;
        if let Some(p) = &args.image {
            cfg.image_path = Some(p.clone());
        }
        if let Some(p) = &args.protocol {
            cfg.protocol = ProtocolPref::from(p);
        }
        if let Some(c) = args.image_cols {
            cfg.image_cols = c;
        }
        if args.no_animate {
            cfg.animate = false;
        }
        if args.live {
            cfg.live = true;
        }
        if let Some(ms) = args.refresh {
            cfg.refresh_ms = if ms < 50 {
                50
            } else {
                ms
            };
        }
        if let Some(m) = &args.modules {
            cfg.modules = clone_strings(m);
        }
        if let Some(c) = &args.chroma {
            if let Ok(parsed) = ChromaKey::parse(c.as_str()) {
                cfg.chroma = parsed;
            }
        }
        if let Some(t) = args.chroma_tolerance {
            cfg.chroma_tolerance = t;
        }
        if let Some(l) = &args.logo {
            cfg.logo = l.clone();
        }
        cfg
    }
}

/// Where the config file is looked for: the explicit path if one is given;
/// otherwise `%APPDATA%\livefetch\config.json` on Windows, and
/// `$XDG_CONFIG_HOME/livefetch/config.json`, else
/// `$HOME/.config/livefetch/config.json`, elsewhere. The result lists the
/// path's pieces, to be joined in order.
pub open spec fn config_path_parts(
    explicit: Option<Seq<char>>,
    windows: bool,
    appdata: Option<Seq<char>>,
    xdg: Option<Seq<char>>,
    home: Option<Seq<char>>,
) -> Option<Seq<Seq<char>>> {
    match explicit {
        Some(p) => Some(seq![p]),
        None => if windows {
            match appdata {
                Some(a) => Some(seq![a, "livefetch"@, "config.json"@]),
                None => None,
            }
        } else {
            match xdg {
                Some(x) => Some(seq![x, "livefetch"@, "config.json"@]),
                None => match home {
                    Some(h) => Some(seq![h, ".config"@, "livefetch"@, "config.json"@]),
                    None => None,
                },
            }
        },
    }
}

/// Resolves where the config file lives (see [`config_path_parts`]).
pub fn resolve_config_path(
    explicit: Option<String>,
    windows: bool,
    appdata: Option<String>,
    xdg: Option<String>,
    home: Option<String>,
) -> (r: Option<Vec<String>>)
    ensures
        match (r, config_path_parts(
            opt_view(explicit),
            windows,
            opt_view(appdata),
            opt_view(xdg),
            opt_view(home),
        )) {
            (Some(v), Some(p)) => string_views(v@) == p,
            (None, None) => true,
            _ => false,
        },
{
    let mut v: Vec<String> = Vec::new();
    let ghost e: Seq<String> = Seq::empty();
    match explicit {
        Some(p) => {
            v.push(p);
            proof {
                assert(string_views(v@) =~= seq![v@[0]@]);
            }
            return Some(v);
        },
        None => {},
    }
    let base = if windows {
        match appdata {
            Some(a) => a,
            None => {
                return None;
            },
        }
    } else {
        match xdg {
            Some(x) => x,
            None => match home {
                Some(h) => {
                    v.push(h);
                    push_name(&mut v, ".config");
                    push_name(&mut v, "livefetch");
                    push_name(&mut v, "config.json");
                    proof {
                        assert(string_views(v@) =~= seq![
                            v@[0]@,
                            ".config"@,
                            "livefetch"@,
                            "config.json"@,
                        ]);
                    }
                    return Some(v);
                },
                None => {
                    return None;
                },
            },
        }
    };
    v.push(base);
    push_name(&mut v, "livefetch");
    push_name(&mut v, "config.json");
    proof {
        assert(string_views(v@) =~= seq![v@[0]@, "livefetch"@, "config.json"@]);
    }
    Some(v)
}

} // verus!
