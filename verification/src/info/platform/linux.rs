//! Linux: values read from `/etc/os-release`, `/sys`, `/proc`, the
//! environment and tools such as `xrandr`, `lspci`, `ip` and `gsettings`.
use vstd::prelude::*;

use crate::config::opt_view;
use crate::text::{
    find_seq, chars_of, contains, contains_seq, find_char, first_index, has_prefix, last_index, lead_ws,
    lead_ws_len, lines, lines_of, replace_all, replace_str, rfind_char, same, slice_of, split_str,
    split_str_of, starts_with, string_of, string_views, to_upper, trail_count, trim, trim_char,
    trim_char_both, trimmed, uppercase_of, views, words, words_of,
};

use super::{nonblank_count, count_nonblank, pkg_entry, pkg_text, tag, tagged, trim_str};

verus! {

// ----- package counts -----

/// The entry for one package manager's listing: its non-blank lines less
/// `header`, shown when positive or when `always`.
pub open spec fn listing_entry(out: Option<Seq<char>>, header: nat, always: bool, label: Seq<char>) -> Seq<Seq<char>> {
    match out {
        Some(s) => {
            let c = nonblank_count(lines(s));
            let n = if c >= header {
                (c - header) as nat
            } else {
                0nat
            };
            if always || n > 0 {
                seq![pkg_text(n, label)]
            } else {
                Seq::empty()
            }
        },
        None => Seq::empty(),
    }
}

/// Adds the entry for one listing (see [`listing_entry`]).
fn push_listing(v: &mut Vec<String>, out: &Option<String>, header: usize, always: bool, label: &str)
    ensures
        string_views(final(v)@) == string_views(old(v)@) + listing_entry(
            opt_view(*out),
            header as nat,
            always,
            label@,
        ),
{
    let ghost before = v@;
    match out {
        Some(s) => {
            let c = count_nonblank(s.as_str());
            let n = if c >= header {
                c - header
            } else {
                0
            };
            if always || n > 0 {
                v.push(pkg_entry(n, label));
            }
        },
        None => {},
    }
    proof {
        assert(string_views(v@) =~= string_views(before) + listing_entry(
            opt_view(*out),
            header as nat,
            always,
            label@,
        ));
    }
}

/// The package listings of the supported managers, in this order.
pub struct Listings {
    /// `dpkg-query -f '.\n' -W`
    pub dpkg: Option<String>,
    /// `rpm -qa`
    pub rpm: Option<String>,
    /// `pacman -Qq`
    pub pacman: Option<String>,
    /// `apk info`
    pub apk: Option<String>,
    /// `flatpak list --app --columns=application`
    pub flatpak: Option<String>,
    /// `snap list` (one heading line)
    pub snap: Option<String>,
    /// `nix-env -qa --installed '*'`
    pub nix: Option<String>,
}

/// Package counts: dpkg, rpm, pacman and apk whenever their tool ran;
/// flatpak, snap (less its heading) and nix only when positive.
pub fn packages(l: Listings) -> (r: Vec<String>)
    ensures
        string_views(r@) == listing_entry(opt_view(l.dpkg), 0, true, "dpkg"@) + listing_entry(
            opt_view(l.rpm),
            0,
            true,
            "rpm"@,
        ) + listing_entry(opt_view(l.pacman), 0, true, "pacman"@) + listing_entry(
            opt_view(l.apk),
            0,
            true,
            "apk"@,
        ) + listing_entry(opt_view(l.flatpak), 0, false, "flatpak"@) + listing_entry(
            opt_view(l.snap),
            1,
            false,
            "snap"@,
        ) + listing_entry(opt_view(l.nix), 0, false, "nix"@),
{
    let mut v: Vec<String> = Vec::new();
    push_listing(&mut v, &l.dpkg, 0, true, "dpkg");
    push_listing(&mut v, &l.rpm, 0, true, "rpm");
    push_listing(&mut v, &l.pacman, 0, true, "pacman");
    push_listing(&mut v, &l.apk, 0, true, "apk");
    push_listing(&mut v, &l.flatpak, 0, false, "flatpak");
    push_listing(&mut v, &l.snap, 1, false, "snap");
    push_listing(&mut v, &l.nix, 0, false, "nix");
    proof {
        assert(string_views(Seq::<String>::empty()) =~= Seq::<Seq<char>>::empty());
    }
    v
}

// ----- GPUs from `lspci -vmmk` -----

/// A display controller: vendor, device and kernel driver.
pub struct GpuRecord {
    pub vendor: String,
    pub device: String,
    pub driver: Option<String>,
}

/// A record as plain text: vendor, device, driver.
pub type GpuView = (Seq<char>, Seq<char>, Option<Seq<char>>);

impl GpuRecord {
    pub open spec fn view(&self) -> GpuView {
        (self.vendor@, self.device@, opt_view(self.driver))
    }
}

/// The records' views.
pub open spec fn gpu_views(v: Seq<GpuRecord>) -> Seq<GpuView> {
    v.map_values(|r: GpuRecord| r.view())
}

/// `Key: value` on one line: the key as written, the value trimmed.
pub open spec fn field_line(l: Seq<char>) -> Option<(Seq<char>, Seq<char>)> {
    let k = first_index(l, ':');
    if k < 0 {
        None
    } else {
        Some((l.subrange(0, k), trim(l.subrange(k + 1, l.len() as int))))
    }
}

/// Class, vendor, device and driver of one record; a later line with the
/// same key wins.
pub type Fields = (Seq<char>, Seq<char>, Seq<char>, Option<Seq<char>>);

/// The fields that the lines `ls` of one record set.
pub open spec fn record_fields(ls: Seq<Seq<char>>) -> Fields
    decreases ls.len(),
{
    if ls.len() == 0 {
        (Seq::empty(), Seq::empty(), Seq::empty(), None)
    } else {
        let r = record_fields(ls.drop_last());
        match field_line(ls.last()) {
            None => r,
            Some((k, v)) => if k == "Class"@ {
                (v, r.1, r.2, r.3)
            } else if k == "Vendor"@ {
                (r.0, v, r.2, r.3)
            } else if k == "Device"@ {
                (r.0, r.1, v, r.3)
            } else if k == "Driver"@ {
                (r.0, r.1, r.2, Some(v))
            } else {
                r
            },
        }
    }
}

/// A VGA, 3D or display controller class.
pub open spec fn is_gpu_class(c: Seq<char>) -> bool {
    contains(c, "VGA"@) || contains(c, "3D"@) || contains(c, "Display"@)
}

/// The vendor name as shown: Intel, NVIDIA or AMD when the upper-cased name
/// mentions them (Intel first: "Corporation" holds "ATI"), else the name
/// without the company suffixes `, Inc.`, ` Corporation`, ` Inc.` and
/// ` Corp.` (`, Inc.` whole, before ` Inc.`).
pub open spec fn short_vendor_text(s: Seq<char>) -> Seq<char> {
    let u = uppercase_of(s);
    if contains(u, "INTEL"@) {
        "Intel"@
    } else if contains(u, "NVIDIA"@) {
        "NVIDIA"@
    } else if contains(u, "AMD"@) || contains(u, "[AMD"@) || contains(u, "ATI TECH"@) {
        "AMD"@
    } else {
        trim(
            replace_all(
                replace_all(
                    replace_all(replace_all(s, ", Inc."@, Seq::empty()), " Corporation"@, Seq::empty()),
                    " Inc."@,
                    Seq::empty(),
                ),
                " Corp."@,
                Seq::empty(),
            ),
        )
    }
}

/// The device name inside its outermost brackets, trimmed, when there are
/// brackets in that order; else the name as it is.
pub open spec fn clean_device_text(s: Seq<char>) -> Seq<char> {
    let o = first_index(s, '[');
    let c = last_index(s, ']');
    if o >= 0 && c >= 0 && c > o {
        trim(s.subrange(o + 1, c))
    } else {
        s
    }
}

/// The display controllers among the records (blank-line separated
/// chunks); one with neither vendor nor device is left out.
pub open spec fn gpu_records(chunks: Seq<Seq<char>>) -> Seq<GpuView>
    decreases chunks.len(),
{
    if chunks.len() == 0 {
        Seq::empty()
    } else {
        let init = gpu_records(chunks.drop_last());
        let f = record_fields(lines(chunks.last()));
        if !is_gpu_class(f.0) || (f.1.len() == 0 && f.2.len() == 0) {
            init
        } else {
            init.push((short_vendor_text(f.1), clean_device_text(f.2), f.3))
        }
    }
}

/// The display controllers that `lspci -vmmk` lists.
pub open spec fn lspci_gpus(out: Option<Seq<char>>) -> Seq<GpuView> {
    match out {
        Some(s) => gpu_records(split_str(s, "\n\n"@)),
        None => Seq::empty(),
    }
}

/// The vendor name as shown (see [`short_vendor_text`]).
pub fn short_vendor(s: &str) -> (r: String)
    ensures
        r@ == short_vendor_text(s@),
{
    let u = to_upper(s);
    let uv = chars_of(u.as_str());
    let intel = chars_of("INTEL");
    let nvidia = chars_of("NVIDIA");
    let amd = chars_of("AMD");
    let amd2 = chars_of("[AMD");
    let ati = chars_of("ATI TECH");
    if contains_seq(uv.as_slice(), intel.as_slice()) {
        String::from_str("Intel")
    } else if contains_seq(uv.as_slice(), nvidia.as_slice()) {
        String::from_str("NVIDIA")
    } else if contains_seq(uv.as_slice(), amd.as_slice()) || contains_seq(
        uv.as_slice(),
        amd2.as_slice(),
    ) || contains_seq(uv.as_slice(), ati.as_slice()) {
        String::from_str("AMD")
    } else {
        proof {
            reveal_strlit(" Corporation");
            reveal_strlit(" Inc.");
            reveal_strlit(" Corp.");
            reveal_strlit(", Inc.");
            reveal_strlit("");
            assert(""@ =~= Seq::<char>::empty());
        }
        let a = replace_str(s, ", Inc.", "");
        let b = replace_str(a.as_str(), " Corporation", "");
        let c = replace_str(b.as_str(), " Inc.", "");
        let d = replace_str(c.as_str(), " Corp.", "");
        trim_str(d.as_str())
    }
}

/// The device name as shown (see [`clean_device_text`]).
pub fn clean_device(s: &str) -> (r: String)
    ensures
        r@ == clean_device_text(s@),
{
    let v = chars_of(s);
    match (find_char(v.as_slice(), '['), rfind_char(v.as_slice(), ']')) {
        (Some(o), Some(c)) => {
            if c > o {
                proof {
                    crate::text::lemma_first_index(v@, '[');
                    crate::text::lemma_last_index(v@, ']');
                }
                let inner = slice_of(v.as_slice(), o + 1, c);
                let t = trimmed(inner.as_slice());
                string_of(&t)
            } else {
                string_of(&v)
            }
        },
        _ => string_of(&v),
    }
}

/// [`field_line`] on one line.
fn field_line_of(l: &[char]) -> (r: Option<(Vec<char>, Vec<char>)>)
    ensures
        match r {
            Some((k, v)) => field_line(l@) == Some((k@, v@)),
            None => field_line(l@) is None,
        },
{
    match find_char(l, ':') {
        Some(k) => {
            proof {
                crate::text::lemma_first_index(l@, ':');
            }
            let n = l.len();
            assert(k < n);
            let key = slice_of(l, 0, k);
            let rest = slice_of(l, k + 1, n);
            Some((key, trimmed(rest.as_slice())))
        },
        None => None,
    }
}

/// The fields of one record.
fn record_fields_of(chunk: &[char]) -> (r: (Vec<char>, Vec<char>, Vec<char>, Option<Vec<char>>))
    ensures
        record_fields(lines(chunk@)) == (r.0@, r.1@, r.2@, match r.3 {
            Some(d) => Some(d@),
            None => None,
        }),
{
    let ls = lines_of(chunk);
    let ghost all = views(ls@);
    let class_key = chars_of("Class");
    let vendor_key = chars_of("Vendor");
    let device_key = chars_of("Device");
    let driver_key = chars_of("Driver");
    let mut class: Vec<char> = Vec::new();
    let mut vendor: Vec<char> = Vec::new();
    let mut device: Vec<char> = Vec::new();
    let mut driver: Option<Vec<char>> = None;
    let mut i: usize = 0;
    proof {
        assert(all.subrange(0, 0) =~= Seq::<Seq<char>>::empty());
        assert(class@ =~= Seq::<char>::empty());
    }
    while i < ls.len()
        invariant
            all == views(ls@),
            all == lines(chunk@),
            class_key@ == "Class"@,
            vendor_key@ == "Vendor"@,
            device_key@ == "Device"@,
            driver_key@ == "Driver"@,
            i <= ls@.len(),
            record_fields(all.subrange(0, i as int)) == (class@, vendor@, device@, match driver {
                Some(d) => Some(d@),
                None => None,
            }),
        decreases ls.len() - i,
    {
        proof {
            assert(all.subrange(0, i + 1).drop_last() =~= all.subrange(0, i as int));
            assert(all.subrange(0, i + 1).last() == ls@[i as int]@);
        }
        match field_line_of(ls[i].as_slice()) {
            Some((k, v)) => {
                if same(k.as_slice(), class_key.as_slice()) {
                    class = v;
                } else if same(k.as_slice(), vendor_key.as_slice()) {
                    vendor = v;
                } else if same(k.as_slice(), device_key.as_slice()) {
                    device = v;
                } else if same(k.as_slice(), driver_key.as_slice()) {
                    driver = Some(v);
                }
            },
            None => {},
        }
        i = i + 1;
    }
    proof {
        assert(all.subrange(0, ls@.len() as int) =~= all);
    }
    (class, vendor, device, driver)
}

/// Whether the class names a display controller.
fn is_gpu_class_of(c: &[char]) -> (b: bool)
    ensures
        b == is_gpu_class(c@),
{
    let vga = chars_of("VGA");
    let d3 = chars_of("3D");
    let disp = chars_of("Display");
    contains_seq(c, vga.as_slice()) || contains_seq(c, d3.as_slice()) || contains_seq(
        c,
        disp.as_slice(),
    )
}

/// The display controllers that `lspci -vmmk` lists.
pub fn lspci_records(out: Option<String>) -> (r: Vec<GpuRecord>)
    ensures
        gpu_views(r@) == lspci_gpus(opt_view(out)),
{
    let mut recs: Vec<GpuRecord> = Vec::new();
    let s = match out {
        Some(s) => s,
        None => {
            proof {
                assert(gpu_views(recs@) =~= Seq::<GpuView>::empty());
            }
            return recs;
        },
    };
    let v = chars_of(s.as_str());
    let sep = chars_of("\n\n");
    proof {
        reveal_strlit("\n\n");
    }
    let chunks = split_str_of(v.as_slice(), sep.as_slice());
    let ghost all = views(chunks@);
    let mut i: usize = 0;
    proof {
        assert(gpu_views(recs@) =~= Seq::<GpuView>::empty());
    }
    while i < chunks.len()
        invariant
            all == views(chunks@),
            all == split_str(s@, "\n\n"@),
            i <= chunks@.len(),
            gpu_views(recs@) == gpu_records(all.subrange(0, i as int)),
        decreases chunks.len() - i,
    {
        proof {
            assert(all.subrange(0, i + 1).drop_last() =~= all.subrange(0, i as int));
            assert(all.subrange(0, i + 1).last() == chunks@[i as int]@);
        }
        let f = record_fields_of(chunks[i].as_slice());
        let (class, vendor, device, driver) = f;
        if is_gpu_class_of(class.as_slice()) && !(vendor.len() == 0 && device.len() == 0) {
            let vs = string_of(&vendor);
            let ds = string_of(&device);
            let drv = match driver {
                Some(d) => Some(string_of(&d)),
                None => None,
            };
            let rec = GpuRecord { vendor: short_vendor(vs.as_str()), device: clean_device(ds.as_str()), driver: drv };
            let ghost before = recs@;
            recs.push(rec);
            proof {
                assert(gpu_views(recs@) =~= gpu_views(before).push(rec.view()));
            }
        }
        i = i + 1;
    }
    proof {
        assert(all.subrange(0, chunks@.len() as int) =~= all);
    }
    recs
}

/// `"{vendor} {device} [{driver}]"`, or without the driver when unknown.
pub open spec fn gpu_text(r: GpuView) -> Seq<char> {
    match r.2 {
        Some(d) => r.0 + " "@ + r.1 + " ["@ + d + "]"@,
        None => r.0 + " "@ + r.1,
    }
}

/// The GPUs that `lspci -vmmk` lists, with their drivers.
pub fn gpus(lspci: Option<String>) -> (r: Vec<String>)
    ensures
        string_views(r@) == lspci_gpus(opt_view(lspci)).map_values(|g: GpuView| gpu_text(g)),
{
    let recs = lspci_records(lspci);
    let ghost all = gpu_views(recs@);
    let mut out: Vec<String> = Vec::new();
    let mut i: usize = 0;
    while i < recs.len()
        invariant
            all == gpu_views(recs@),
            i <= recs@.len(),
            string_views(out@) == all.subrange(0, i as int).map_values(|g: GpuView| gpu_text(g)),
        decreases recs.len() - i,
    {
        let r = &recs[i];
        let mut t = String::new();
        t.append(r.vendor.as_str());
        t.append(" ");
        t.append(r.device.as_str());
        match &r.driver {
            Some(d) => {
                t.append(" [");
                t.append(d.as_str());
                t.append("]");
            },
            None => {},
        }
        let ghost before = out@;
        proof {
            assert(all[i as int] == r.view());
            assert(t@ == gpu_text(r.view()));
        }
        out.push(t);
        proof {
            let f = |g: GpuView| gpu_text(g);
            assert(all.subrange(0, i + 1) =~= all.subrange(0, i as int).push(all[i as int]));
            assert(all.subrange(0, i + 1).map_values(f) =~= all.subrange(0, i as int).map_values(
                f,
            ).push(f(all[i as int])));
            assert(string_views(out@) =~= string_views(before).push(t@));
        }
        i = i + 1;
    }
    proof {
        assert(all.subrange(0, recs@.len() as int) =~= all);
    }
    out
}

/// The drivers of the records that name one, in order.
pub open spec fn drivers(rs: Seq<GpuView>) -> Seq<Seq<char>>
    decreases rs.len(),
{
    if rs.len() == 0 {
        Seq::empty()
    } else {
        match rs.last().2 {
            Some(d) => drivers(rs.drop_last()).push(d),
            None => drivers(rs.drop_last()),
        }
    }
}

/// The positions of the records that name a driver, in order.
pub open spec fn driver_positions(rs: Seq<GpuView>) -> Seq<int>
    decreases rs.len(),
{
    if rs.len() == 0 {
        Seq::empty()
    } else {
        match rs.last().2 {
            Some(d) => driver_positions(rs.drop_last()).push(rs.len() - 1),
            None => driver_positions(rs.drop_last()),
        }
    }
}

/// [`drivers`] lists, in order, the drivers of exactly the records at
/// [`driver_positions`].
pub proof fn lemma_driver_positions(rs: Seq<GpuView>)
    ensures
        drivers(rs).len() == driver_positions(rs).len(),
        drivers(rs).len() <= rs.len(),
        forall|k: int|
            0 <= k < drivers(rs).len() ==> 0 <= #[trigger] driver_positions(rs)[k] < rs.len()
                && rs[driver_positions(rs)[k]].2 == Some(drivers(rs)[k]),
        forall|k1: int, k2: int|
            0 <= k1 < k2 < drivers(rs).len() ==> #[trigger] driver_positions(rs)[k1]
                < #[trigger] driver_positions(rs)[k2],
        forall|j: int|
            0 <= j < rs.len() && (#[trigger] rs[j]).2 is Some ==> exists|k: int|
                0 <= k < drivers(rs).len() && #[trigger] driver_positions(rs)[k] == j,
    decreases rs.len(),
{
    if rs.len() > 0 {
        let init = rs.drop_last();
        lemma_driver_positions(init);
        assert forall|j: int| 0 <= j < init.len() implies #[trigger] init[j] == rs[j] by {}
        let ds = drivers(rs);
        let ps = driver_positions(rs);
        let di = drivers(init);
        let pi = driver_positions(init);
        match rs.last().2 {
            Some(d) => {
                assert(ds == di.push(d));
                assert(ps == pi.push(rs.len() - 1));
                assert forall|k: int| 0 <= k < ds.len() implies 0 <= #[trigger] ps[k] < rs.len()
                    && rs[ps[k]].2 == Some(ds[k]) by {
                    if k < di.len() {
                        assert(ps[k] == pi[k]);
                        assert(init[pi[k]] == rs[pi[k]]);
                    }
                }
                assert forall|k1: int, k2: int| 0 <= k1 < k2 < ds.len() implies #[trigger] ps[k1]
                    < #[trigger] ps[k2] by {
                    assert(ps[k1] == pi[k1]);
                    if k2 < di.len() {
                        assert(ps[k2] == pi[k2]);
                    } else {
                        assert(0 <= pi[k1] < init.len());
                    }
                }
                assert forall|j: int| 0 <= j < rs.len() && (#[trigger] rs[j]).2 is Some implies exists|
                    k: int,
                | 0 <= k < ds.len() && #[trigger] ps[k] == j by {
                    if j == rs.len() - 1 {
                        assert(ps[di.len() as int] == j);
                    } else {
                        assert(init[j] == rs[j]);
                        let k = choose|k: int| 0 <= k < di.len() && #[trigger] pi[k] == j;
                        assert(ps[k] == pi[k]);
                    }
                }
            },
            None => {
                assert(ds == di);
                assert(ps == pi);
                assert forall|k: int| 0 <= k < ds.len() implies 0 <= #[trigger] ps[k] < rs.len()
                    && rs[ps[k]].2 == Some(ds[k]) by {
                    assert(init[pi[k]] == rs[pi[k]]);
                }
                assert forall|j: int| 0 <= j < rs.len() && (#[trigger] rs[j]).2 is Some implies exists|
                    k: int,
                | 0 <= k < ds.len() && #[trigger] ps[k] == j by {
                    assert(j != rs.len() - 1);
                    assert(init[j] == rs[j]);
                    let k = choose|k: int| 0 <= k < di.len() && #[trigger] pi[k] == j;
                }
            },
        }
    }
}

/// The driver list follows the GPU list: read from the same `lspci -vmmk`
/// output, [`gpu_drivers`] gives no more entries than [`gpus`], and its
/// `k`-th driver is the `[driver]` suffix of the GPU entry at position
/// `positions[k]`, these positions rising; every GPU entry with a driver is
/// one of them.
pub proof fn drivers_follow_gpus(out: Option<Seq<char>>)
    ensures
        ({
            let g = lspci_gpus(out);
            let gs = g.map_values(|x: GpuView| gpu_text(x));
            let ds = drivers(g);
            let ps = driver_positions(g);
            &&& ds.len() == ps.len()
            &&& ds.len() <= gs.len()
            &&& forall|k: int|
                0 <= k < ds.len() ==> 0 <= #[trigger] ps[k] < gs.len() && gs[ps[k]] == g[ps[k]].0
                    + " "@ + g[ps[k]].1 + " ["@ + ds[k] + "]"@
            &&& forall|k1: int, k2: int| 0 <= k1 < k2 < ds.len() ==> #[trigger] ps[k1] < #[trigger] ps[k2]
            &&& forall|j: int|
                0 <= j < gs.len() && (#[trigger] g[j]).2 is Some ==> exists|k: int|
                    0 <= k < ds.len() && #[trigger] ps[k] == j
        }),
{
    let g = lspci_gpus(out);
    lemma_driver_positions(g);
}

/// The kernel drivers of the GPUs that `lspci -vmmk` lists.
pub fn gpu_drivers(lspci: Option<String>) -> (r: Vec<String>)
    ensures
        string_views(r@) == drivers(lspci_gpus(opt_view(lspci))),
{
    let recs = lspci_records(lspci);
    let ghost all = gpu_views(recs@);
    let mut out: Vec<String> = Vec::new();
    let mut i: usize = 0;
    proof {
        assert(string_views(out@) =~= Seq::<Seq<char>>::empty());
    }
    while i < recs.len()
        invariant
            all == gpu_views(recs@),
            i <= recs@.len(),
            string_views(out@) == drivers(all.subrange(0, i as int)),
        decreases recs.len() - i,
    {
        proof {
            assert(all.subrange(0, i + 1).drop_last() =~= all.subrange(0, i as int));
            assert(all.subrange(0, i + 1).last() == recs@[i as int].view());
        }
        let ghost before = out@;
        match &recs[i].driver {
            Some(d) => {
                out.push(d.clone());
                proof {
                    assert(string_views(out@) =~= string_views(before).push(d@));
                }
            },
            None => {},
        }
        i = i + 1;
    }
    proof {
        assert(all.subrange(0, recs@.len() as int) =~= all);
    }
    out
}


// ----- addresses -----

/// The token after the first `key` that has a successor.
pub open spec fn after_key(toks: Seq<Seq<char>>, key: Seq<char>) -> Option<Seq<char>>
    decreases toks.len(),
{
    if toks.len() < 2 {
        None
    } else if toks[0] == key {
        Some(toks[1])
    } else {
        after_key(toks.drop_first(), key)
    }
}

/// The local IPv4 address: the `src` of `ip -4 route get 1.1.1.1`, with its
/// `dev` when named; else the first word of `hostname -I`.
pub open spec fn local_ip_text(route: Option<Seq<char>>, host: Option<Seq<char>>) -> Option<Seq<char>> {
    let from_route = match route {
        Some(s) => match after_key(words(s), "src"@) {
            Some(ip) => Some(
                match after_key(words(s), "dev"@) {
                    Some(i) => tagged(ip, i),
                    None => ip,
                },
            ),
            None => None,
        },
        None => None,
    };
    match from_route {
        Some(x) => Some(x),
        None => match host {
            Some(h) => if words(h).len() > 0 && words(h)[0].len() > 0 {
                Some(words(h)[0])
            } else {
                None
            },
            None => None,
        },
    }
}

/// [`after_key`] over word vectors: the position of the value.
fn after_key_of(toks: &Vec<Vec<char>>, key: &[char]) -> (r: Option<usize>)
    ensures
        match r {
            Some(i) => i < toks@.len() && after_key(views(toks@), key@) == Some(toks@[i as int]@),
            None => after_key(views(toks@), key@) is None,
        },
{
    let ghost all = views(toks@);
    let mut i: usize = 0;
    proof {
        assert(all.subrange(0, all.len() as int) =~= all);
    }
    while i < toks.len() && i + 1 < toks.len()
        invariant
            all == views(toks@),
            i <= toks@.len(),
            after_key(all, key@) == after_key(all.subrange(i as int, all.len() as int), key@),
        decreases toks.len() - i,
    {
        proof {
            let t = all.subrange(i as int, all.len() as int);
            assert(t.drop_first() =~= all.subrange(i + 1, all.len() as int));
            assert(t[0] == toks@[i as int]@);
            assert(t[1] == toks@[i + 1]@);
        }
        if same(toks[i].as_slice(), key) {
            return Some(i + 1);
        }
        i = i + 1;
    }
    None
}

/// The local IPv4 address (see [`local_ip_text`]).
pub fn local_ip(route: Option<String>, hostname: Option<String>) -> (r: Option<String>)
    ensures
        match local_ip_text(opt_view(route), opt_view(hostname)) {
            Some(t) => r matches Some(x) && x@ == t,
            None => r is None,
        },
{
    match &route {
        Some(s) => {
            let v = chars_of(s.as_str());
            let toks = words_of(v.as_slice());
            let src = chars_of("src");
            let dev = chars_of("dev");
            match after_key_of(&toks, src.as_slice()) {
                Some(i) => {
                    let ip = string_of(&toks[i]);
                    match after_key_of(&toks, dev.as_slice()) {
                        Some(j) => {
                            let d = string_of(&toks[j]);
                            return Some(tag(ip.as_str(), d.as_str()));
                        },
                        None => {
                            return Some(ip);
                        },
                    }
                },
                None => {},
            }
        },
        None => {},
    }
    match &hostname {
        Some(h) => {
            let v = chars_of(h.as_str());
            let ws = words_of(v.as_slice());
            proof {
                assert(views(ws@).len() == ws@.len());
            }
            if ws.len() > 0 && ws[0].len() > 0 {
                proof {
                    assert(views(ws@)[0] == ws@[0]@);
                }
                Some(string_of(&ws[0]))
            } else {
                proof {
                    if ws@.len() > 0 {
                        assert(views(ws@)[0] == ws@[0]@);
                    }
                }
                None
            }
        },
        None => None,
    }
}

// ----- theme -----

/// The value `gsettings get` printed, without white space and quotes;
/// absent when nothing is left.
pub open spec fn gsettings_text(out: Seq<char>) -> Option<Seq<char>> {
    let s = trim_char(trim(out), '\'');
    if s.len() == 0 || s == "''"@ {
        None
    } else {
        Some(s)
    }
}

/// The value of `gsettings get <schema> <key>`.
pub fn gsettings_value(out: Option<String>) -> (r: Option<String>)
    ensures
        match out {
            Some(s) => match gsettings_text(s@) {
                Some(t) => r matches Some(x) && x@ == t,
                None => r is None,
            },
            None => r is None,
        },
{
    match out {
        Some(s) => {
            let v = chars_of(s.as_str());
            let t = trimmed(v.as_slice());
            let u = trim_char_both(t.as_slice(), '\'');
            let qq = chars_of("''");
            if u.len() == 0 || same(u.as_slice(), qq.as_slice()) {
                None
            } else {
                Some(string_of(&u))
            }
        },
        None => None,
    }
}

/// The value that a `settings.ini` line gives `key`: `key = value`, value
/// trimmed and unquoted, when not empty.
pub open spec fn gtk_line_value(l: Seq<char>, key: Seq<char>) -> Option<Seq<char>> {
    let t = trim(l);
    if !has_prefix(t, key) {
        None
    } else {
        let rest = crate::text::trim_start(t.subrange(key.len() as int, t.len() as int));
        if rest.len() > 0 && rest[0] == '=' {
            let v = trim_char(trim(rest.drop_first()), '"');
            if v.len() > 0 {
                Some(v)
            } else {
                None
            }
        } else {
            None
        }
    }
}

/// The first value that the lines give `key`.
pub open spec fn gtk_lines_value(ls: Seq<Seq<char>>, key: Seq<char>) -> Option<Seq<char>>
    decreases ls.len(),
{
    if ls.len() == 0 {
        None
    } else {
        match gtk_line_value(ls[0], key) {
            Some(v) => Some(v),
            None => gtk_lines_value(ls.drop_first(), key),
        }
    }
}

/// The first value that the files (in order) give `key`.
pub open spec fn gtk_setting(files: Seq<Seq<char>>, key: Seq<char>) -> Option<Seq<char>>
    decreases files.len(),
{
    if files.len() == 0 {
        None
    } else {
        match gtk_lines_value(lines(files[0]), key) {
            Some(v) => Some(v),
            None => gtk_setting(files.drop_first(), key),
        }
    }
}

/// [`gtk_line_value`] on one line.
fn gtk_line_value_of(l: &[char], key: &[char]) -> (r: Option<Vec<char>>)
    ensures
        match r {
            Some(v) => gtk_line_value(l@, key@) == Some(v@),
            None => gtk_line_value(l@, key@) is None,
        },
{
    let t = trimmed(l);
    if !starts_with(t.as_slice(), key) {
        return None;
    }
    let after = slice_of(t.as_slice(), key.len(), t.len());
    let a = lead_ws_len(after.as_slice());
    proof {
        crate::text::lemma_lead_ws_bound(after@);
    }
    let rest = slice_of(after.as_slice(), a, after.len());
    if rest.len() > 0 && rest[0] == '=' {
        let tail = slice_of(rest.as_slice(), 1, rest.len());
        proof {
            assert(tail@ =~= rest@.drop_first());
        }
        let tt = trimmed(tail.as_slice());
        let v = trim_char_both(tt.as_slice(), '"');
        if v.len() > 0 {
            Some(v)
        } else {
            None
        }
    } else {
        None
    }
}

/// The value of `key` in the first of the GTK `settings.ini` texts that
/// sets it (`gtk-3.0`, then `gtk-4.0`).
pub fn read_gtk_setting(key: &str, files: &Vec<String>) -> (r: Option<String>)
    ensures
        match gtk_setting(string_views(files@), key@) {
            Some(t) => r matches Some(x) && x@ == t,
            None => r is None,
        },
{
    let kv = chars_of(key);
    let ghost fs = string_views(files@);
    let mut f: usize = 0;
    proof {
        assert(fs.subrange(0, fs.len() as int) =~= fs);
    }
    while f < files.len()
        invariant
            fs == string_views(files@),
            kv@ == key@,
            f <= files@.len(),
            gtk_setting(fs, key@) == gtk_setting(fs.subrange(f as int, fs.len() as int), key@),
        decreases files.len() - f,
    {
        let ghost rest = fs.subrange(f as int, fs.len() as int);
        proof {
            assert(rest.drop_first() =~= fs.subrange(f + 1, fs.len() as int));
            assert(rest[0] == files@[f as int]@);
        }
        let v = chars_of(files[f].as_str());
        let ls = lines_of(v.as_slice());
        let ghost all = views(ls@);
        let mut i: usize = 0;
        proof {
            assert(all.subrange(0, all.len() as int) =~= all);
        }
        while i < ls.len()
            invariant
                all == views(ls@),
                rest.len() > 0,
                all == lines(rest[0]),
                gtk_setting(fs, key@) == gtk_setting(rest, key@),
                fs == string_views(files@),
                kv@ == key@,
                i <= ls@.len(),
                gtk_lines_value(all, key@) == gtk_lines_value(
                    all.subrange(i as int, all.len() as int),
                    key@,
                ),
            decreases ls.len() - i,
        {
            proof {
                let t = all.subrange(i as int, all.len() as int);
                assert(t.drop_first() =~= all.subrange(i + 1, all.len() as int));
                assert(t[0] == ls@[i as int]@);
            }
            match gtk_line_value_of(ls[i].as_slice(), kv.as_slice()) {
                Some(x) => {
                    return Some(string_of(&x));
                },
                None => {},
            }
            i = i + 1;
        }
        f = f + 1;
    }
    None
}

/// The first of two values that is present.
pub open spec fn either(a: Option<Seq<char>>, b: Option<Seq<char>>) -> Option<Seq<char>> {
    match a {
        Some(x) => Some(x),
        None => b,
    }
}

/// `GTK: {theme}` and `Icons: {icons}`, each when known (from
/// `settings.ini`, else from gsettings), joined with `, `.
pub open spec fn theme_text(gtk: Option<Seq<char>>, gtk_gs: Option<Seq<char>>, icons: Option<Seq<char>>, icons_gs: Option<Seq<char>>) -> Option<Seq<char>> {
    let g = match either(gtk, gtk_gs) {
        Some(t) => seq!["GTK: "@ + t],
        None => Seq::empty(),
    };
    let i = match either(icons, icons_gs) {
        Some(t) => seq!["Icons: "@ + t],
        None => Seq::empty(),
    };
    super::comma_joined(g + i)
}

/// The GTK and icon themes: `gtk` and `icons` from `settings.ini`
/// ([`read_gtk_setting`]), `gtk_gs` and `icons_gs` from gsettings
/// ([`gsettings_value`]), which count only where `settings.ini` has none.
pub fn theme(gtk: Option<String>, gtk_gs: Option<String>, icons: Option<String>, icons_gs: Option<String>) -> (r: Option<String>)
    ensures
        match theme_text(opt_view(gtk), opt_view(gtk_gs), opt_view(icons), opt_view(icons_gs)) {
            Some(t) => r matches Some(x) && x@ == t,
            None => r is None,
        },
{
    let mut parts: Vec<String> = Vec::new();
    let g = match gtk {
        Some(t) => Some(t),
        None => gtk_gs,
    };
    match g {
        Some(t) => {
            let mut p = String::from_str("GTK: ");
            p.append(t.as_str());
            parts.push(p);
        },
        None => {},
    }
    let ghost mid = parts@;
    let i = match icons {
        Some(t) => Some(t),
        None => icons_gs,
    };
    match i {
        Some(t) => {
            let mut p = String::from_str("Icons: ");
            p.append(t.as_str());
            parts.push(p);
        },
        None => {},
    }
    proof {
        let gs = match either(opt_view(gtk), opt_view(gtk_gs)) {
            Some(t) => seq!["GTK: "@ + t],
            None => Seq::<Seq<char>>::empty(),
        };
        let is = match either(opt_view(icons), opt_view(icons_gs)) {
            Some(t) => seq!["Icons: "@ + t],
            None => Seq::<Seq<char>>::empty(),
        };
        assert(string_views(mid) =~= gs);
        assert(string_views(parts@) =~= gs + is);
    }
    super::join_commas(&parts)
}

// ----- files under /etc, /sys and /proc -----

/// The value of `key` in `os-release` lines: the first `key=value` line,
/// value without surrounding quotes.
pub open spec fn release_value(ls: Seq<Seq<char>>, key: Seq<char>) -> Option<Seq<char>>
    decreases ls.len(),
{
    if ls.len() == 0 {
        None
    } else {
        let l = ls[0];
        let k = first_index(l, '=');
        if k >= 0 && l.subrange(0, k) == key {
            Some(trim_char(l.subrange(k + 1, l.len() as int), '"'))
        } else {
            release_value(ls.drop_first(), key)
        }
    }
}

/// `PRETTY_NAME` (else `NAME`, else `Linux`) of `/etc/os-release`, then the
/// architecture.
pub open spec fn os_text(release: Seq<char>, arch: Seq<char>) -> Seq<char> {
    let ls = lines(release);
    let name = match release_value(ls, "PRETTY_NAME"@) {
        Some(v) => v,
        None => match release_value(ls, "NAME"@) {
            Some(v) => v,
            None => "Linux"@,
        },
    };
    name + " "@ + arch
}

/// [`release_value`] over line vectors.
fn release_value_of(ls: &Vec<Vec<char>>, key: &[char]) -> (r: Option<Vec<char>>)
    ensures
        match r {
            Some(v) => release_value(views(ls@), key@) == Some(v@),
            None => release_value(views(ls@), key@) is None,
        },
{
    let ghost all = views(ls@);
    let mut i: usize = 0;
    proof {
        assert(all.subrange(0, all.len() as int) =~= all);
    }
    while i < ls.len()
        invariant
            all == views(ls@),
            i <= ls@.len(),
            release_value(all, key@) == release_value(all.subrange(i as int, all.len() as int), key@),
        decreases ls.len() - i,
    {
        proof {
            let t = all.subrange(i as int, all.len() as int);
            assert(t.drop_first() =~= all.subrange(i + 1, all.len() as int));
            assert(t[0] == ls@[i as int]@);
        }
        let l = ls[i].as_slice();
        match find_char(l, '=') {
            Some(k) => {
                proof {
                    crate::text::lemma_first_index(l@, '=');
                }
                let n = l.len();
                assert(k < n);
                let head = slice_of(l, 0, k);
                if same(head.as_slice(), key) {
                    let rest = slice_of(l, k + 1, n);
                    return Some(trim_char_both(rest.as_slice(), '"'));
                }
            },
            None => {},
        }
        i = i + 1;
    }
    None
}

/// The distribution's name and the architecture.
pub fn os(release: &str, arch: &str) -> (r: String)
    ensures
        r@ == os_text(release@, arch@),
{
    let v = chars_of(release);
    let ls = lines_of(v.as_slice());
    let pretty = chars_of("PRETTY_NAME");
    let name_key = chars_of("NAME");
    let mut s = match release_value_of(&ls, pretty.as_slice()) {
        Some(x) => string_of(&x),
        None => match release_value_of(&ls, name_key.as_slice()) {
            Some(x) => string_of(&x),
            None => String::from_str("Linux"),
        },
    };
    s.append(" ");
    s.append(arch);
    s
}

/// `s` without its trailing NUL characters, then trimmed.
pub open spec fn dmi_text(s: Seq<char>) -> Seq<char> {
    trim(s.subrange(0, s.len() - trail_count(s, '\0')))
}

/// The first model file (product name, board name, device-tree model) whose
/// text is not empty once NULs and white space go; `Linux Host` otherwise.
pub open spec fn host_model_text(files: Seq<Seq<char>>) -> Seq<char>
    decreases files.len(),
{
    if files.len() == 0 {
        "Linux Host"@
    } else if dmi_text(files[0]).len() > 0 {
        dmi_text(files[0])
    } else {
        host_model_text(files.drop_first())
    }
}

/// [`dmi_text`] of `v`.
fn dmi_text_of(v: &[char]) -> (r: Vec<char>)
    ensures
        r@ == dmi_text(v@),
{
    let n = v.len();
    let mut j: usize = n;
    proof {
        assert(v@.subrange(0, n as int) =~= v@);
    }
    while j > 0 && v[j - 1] == '\0'
        invariant
            j <= n == v@.len(),
            trail_count(v@, '\0') == (n - j) + trail_count(v@.subrange(0, j as int), '\0'),
        decreases j,
    {
        proof {
            assert(v@.subrange(0, j as int).drop_last() =~= v@.subrange(0, j - 1));
        }
        j = j - 1;
    }
    let head = slice_of(v, 0, j);
    trimmed(head.as_slice())
}

/// The host model from the texts of the model files that could be read, in
/// order.
pub fn host_model(files: &Vec<String>) -> (r: String)
    ensures
        r@ == host_model_text(string_views(files@)),
{
    let ghost fs = string_views(files@);
    let mut f: usize = 0;
    proof {
        assert(fs.subrange(0, fs.len() as int) =~= fs);
    }
    while f < files.len()
        invariant
            fs == string_views(files@),
            f <= files@.len(),
            host_model_text(fs) == host_model_text(fs.subrange(f as int, fs.len() as int)),
        decreases files.len() - f,
    {
        proof {
            let rest = fs.subrange(f as int, fs.len() as int);
            assert(rest.drop_first() =~= fs.subrange(f + 1, fs.len() as int));
            assert(rest[0] == files@[f as int]@);
        }
        let v = chars_of(files[f].as_str());
        let t = dmi_text_of(v.as_slice());
        if t.len() > 0 {
            return string_of(&t);
        }
        f = f + 1;
    }
    String::from_str("Linux Host")
}

/// The name of PID 1 (`/proc/1/comm`), trimmed; absent when empty.
pub fn init_system(comm: Option<String>) -> (r: Option<String>)
    ensures
        match comm {
            Some(s) => if trim(s@).len() > 0 {
                r matches Some(x) && x@ == trim(s@)
            } else {
                r is None
            },
            None => r is None,
        },
{
    match comm {
        Some(s) => {
            let t = trim_str(s.as_str());
            if t.unicode_len() == 0 {
                None
            } else {
                Some(t)
            }
        },
        None => None,
    }
}

/// The first three fields of `/proc/loadavg`, separated by single spaces.
pub open spec fn loadavg_text(s: Seq<char>) -> Option<Seq<char>> {
    let ws = words(s);
    if ws.len() >= 3 {
        Some(ws[0] + " "@ + ws[1] + " "@ + ws[2])
    } else {
        None
    }
}

/// The 1, 5 and 15 minute load averages.
pub fn load_average(loadavg: Option<String>) -> (r: Option<String>)
    ensures
        match loadavg {
            Some(s) => match loadavg_text(s@) {
                Some(t) => r matches Some(x) && x@ == t,
                None => r is None,
            },
            None => r is None,
        },
{
    match loadavg {
        Some(s) => {
            let v = chars_of(s.as_str());
            let ws = words_of(v.as_slice());
            proof {
                assert(views(ws@).len() == ws@.len());
            }
            if ws.len() >= 3 {
                proof {
                    assert(views(ws@)[0] == ws@[0]@);
                    assert(views(ws@)[1] == ws@[1]@);
                    assert(views(ws@)[2] == ws@[2]@);
                }
                let mut r = string_of(&ws[0]);
                r.append(" ");
                let b = string_of(&ws[1]);
                r.append(b.as_str());
                r.append(" ");
                let c = string_of(&ws[2]);
                r.append(c.as_str());
                Some(r)
            } else {
                None
            }
        },
        None => None,
    }
}

/// One entry of `/sys/class/power_supply`: its `type`, `capacity` and
/// `status` files, `None` where a file could not be read.
pub struct PowerSupply {
    pub kind: Option<String>,
    pub capacity: Option<String>,
    pub status: Option<String>,
}

/// An entry as plain text.
pub type SupplyView = (Option<Seq<char>>, Option<Seq<char>>, Option<Seq<char>>);

impl PowerSupply {
    pub open spec fn view(&self) -> SupplyView {
        (opt_view(self.kind), opt_view(self.capacity), opt_view(self.status))
    }
}

/// The entries' views.
pub open spec fn supply_views(v: Seq<PowerSupply>) -> Seq<SupplyView> {
    v.map_values(|p: PowerSupply| p.view())
}

/// The first battery's `"{capacity}% ({status})"`; the scan stops with
/// nothing at an unreadable `type`, or at a battery whose capacity cannot be
/// read. An unreadable status reads `Unknown`.
pub open spec fn battery_scan(ps: Seq<SupplyView>) -> Option<Seq<char>>
    decreases ps.len(),
{
    if ps.len() == 0 {
        None
    } else {
        match ps[0].0 {
            None => None,
            Some(k) => if trim(k) != "Battery"@ {
                battery_scan(ps.drop_first())
            } else {
                match ps[0].1 {
                    None => None,
                    Some(c) => Some(
                        trim(c) + "% ("@ + trim(
                            match ps[0].2 {
                                Some(s) => s,
                                None => "Unknown"@,
                            },
                        ) + ")"@,
                    ),
                }
            },
        }
    }
}

/// The charge and status of the first battery.
pub fn battery(supplies: &Vec<PowerSupply>) -> (r: Option<String>)
    ensures
        match battery_scan(supply_views(supplies@)) {
            Some(t) => r matches Some(x) && x@ == t,
            None => r is None,
        },
{
    let ghost all = supply_views(supplies@);
    let bat = chars_of("Battery");
    let mut i: usize = 0;
    proof {
        assert(all.subrange(0, all.len() as int) =~= all);
    }
    while i < supplies.len()
        invariant
            all == supply_views(supplies@),
            bat@ == "Battery"@,
            i <= supplies@.len(),
            battery_scan(all) == battery_scan(all.subrange(i as int, all.len() as int)),
        decreases supplies.len() - i,
    {
        proof {
            let t = all.subrange(i as int, all.len() as int);
            assert(t.drop_first() =~= all.subrange(i + 1, all.len() as int));
            assert(t[0] == supplies@[i as int].view());
        }
        let p = &supplies[i];
        match &p.kind {
            None => {
                return None;
            },
            Some(k) => {
                let kv = chars_of(k.as_str());
                let kt = trimmed(kv.as_slice());
                if same(kt.as_slice(), bat.as_slice()) {
                    match &p.capacity {
                        None => {
                            return None;
                        },
                        Some(c) => {
                            let mut r = trim_str(c.as_str());
                            r.append("% (");
                            let st = match &p.status {
                                Some(s) => trim_str(s.as_str()),
                                None => trim_str("Unknown"),
                            };
                            r.append(st.as_str());
                            r.append(")");
                            return Some(r);
                        },
                    }
                }
            },
        }
        i = i + 1;
    }
    None
}

/// The session type (`XDG_SESSION_TYPE`, ignored when empty) with the
/// compositor: `TTY` on a text console.
pub open spec fn session_text(kind: Option<Seq<char>>, compositor: Option<Seq<char>>) -> Option<Seq<char>> {
    let k = match kind {
        Some(x) => if x.len() > 0 {
            Some(x)
        } else {
            None
        },
        None => None,
    };
    match (k, compositor) {
        (Some(x), _) if x == "tty"@ => Some("TTY"@),
        (Some(x), Some(c)) => Some(tagged(x, c)),
        (Some(x), None) => Some(x),
        (None, Some(c)) => Some(c),
        (None, None) => None,
    }
}

/// The session type and its compositor (the window manager).
pub fn session_type(kind: Option<String>, compositor: Option<String>) -> (r: Option<String>)
    ensures
        match session_text(opt_view(kind), opt_view(compositor)) {
            Some(t) => r matches Some(x) && x@ == t,
            None => r is None,
        },
{
    let k = match kind {
        Some(x) => if x.unicode_len() > 0 {
            Some(x)
        } else {
            None
        },
        None => None,
    };
    let tty = chars_of("tty");
    match k {
        Some(x) => {
            let xv = chars_of(x.as_str());
            if same(xv.as_slice(), tty.as_slice()) {
                Some(String::from_str("TTY"))
            } else {
                match compositor {
                    Some(c) => Some(tag(x.as_str(), c.as_str())),
                    None => Some(x),
                }
            }
        },
        None => compositor,
    }
}

/// The sound server: none without a runtime directory; PipeWire, then
/// PulseAudio (socket present or process running), then ALSA (sound cards
/// present).
pub fn audio_server(has_runtime_dir: bool, pipewire: bool, pulseaudio: bool, alsa_cards: bool) -> (r: Option<String>)
    ensures
        !has_runtime_dir ==> r is None,
        has_runtime_dir && pipewire ==> (r matches Some(x) && x@ == "PipeWire"@),
        has_runtime_dir && !pipewire && pulseaudio ==> (r matches Some(x) && x@ == "PulseAudio"@),
        has_runtime_dir && !pipewire && !pulseaudio && alsa_cards ==> (r matches Some(x) && x@
            == "ALSA"@),
        has_runtime_dir && !pipewire && !pulseaudio && !alsa_cards ==> r is None,
{
    if !has_runtime_dir {
        None
    } else if pipewire {
        Some(String::from_str("PipeWire"))
    } else if pulseaudio {
        Some(String::from_str("PulseAudio"))
    } else if alsa_cards {
        Some(String::from_str("ALSA"))
    } else {
        None
    }
}


// ----- display resolution -----

/// An indented line: a mode line under an output in `xrandr` output.
pub open spec fn mode_line(l: Seq<char>) -> bool {
    l.len() > 0 && (l[0] == ' ' || l[0] == '\t')
}

/// The end of the run of mode lines that starts at `j`.
pub open spec fn run_end(ls: Seq<Seq<char>>, j: int) -> int
    decreases ls.len() - j,
{
    if 0 <= j < ls.len() && mode_line(ls[j]) {
        run_end(ls, j + 1)
    } else {
        j
    }
}

pub proof fn lemma_run_end(ls: Seq<Seq<char>>, j: int)
    requires
        0 <= j,
    ensures
        run_end(ls, j) >= j,
        j <= ls.len() ==> run_end(ls, j) <= ls.len(),
    decreases ls.len() - j,
{
    if 0 <= j < ls.len() && mode_line(ls[j]) {
        lemma_run_end(ls, j + 1);
    }
}

/// Number of trailing `*` and `+` marks of a mode token.
pub open spec fn trail_marks(t: Seq<char>) -> nat
    decreases t.len(),
{
    if t.len() > 0 && (t.last() == '*' || t.last() == '+') {
        1 + trail_marks(t.drop_last())
    } else {
        0
    }
}

/// A mode token without its trailing `*` / `+` marks.
pub open spec fn unmarked(t: Seq<char>) -> Seq<char> {
    t.subrange(0, t.len() - trail_marks(t))
}

/// The first token of a mode line that is a number once unmarked.
pub open spec fn token_rate(ws: Seq<Seq<char>>) -> Option<Seq<char>>
    decreases ws.len(),
{
    if ws.len() == 0 {
        None
    } else if crate::text::float_literal(unmarked(ws[0])) {
        Some(unmarked(ws[0]))
    } else {
        token_rate(ws.drop_first())
    }
}

/// The refresh rate after mode lines `j..e`, starting from `acc`: each line
/// with a `*` (the current mode) that has a rate replaces it.
pub open spec fn refresh_in(ls: Seq<Seq<char>>, j: int, e: int, acc: Seq<char>) -> Seq<char>
    decreases e - j,
{
    if j >= e {
        acc
    } else {
        let l = ls[j];
        let next = if first_index(l, '*') >= 0 {
            match token_rate(words(l)) {
                Some(t) => t + "Hz"@,
                None => acc,
            }
        } else {
            acc
        };
        refresh_in(ls, j + 1, e, next)
    }
}

/// The text between the first and second ` connected` of a line (to its end
/// when there is no second).
pub open spec fn after_connected(line: Seq<char>) -> Seq<char> {
    let k = crate::text::first_occurrence(line, " connected"@);
    let rest = line.subrange(k + 10, line.len() as int);
    let k2 = crate::text::first_occurrence(rest, " connected"@);
    if k2 >= 0 {
        rest.subrange(0, k2)
    } else {
        rest
    }
}

/// `t` up to its first `+` (the geometry offsets go).
pub open spec fn before_plus(t: Seq<char>) -> Seq<char> {
    let k = first_index(t, '+');
    if k >= 0 {
        t.subrange(0, k)
    } else {
        t
    }
}

/// The first word that starts with a digit and holds an `x` (`WxH+X+Y`),
/// without its offsets; empty when there is none.
pub open spec fn active_mode(ws: Seq<Seq<char>>) -> Seq<char>
    decreases ws.len(),
{
    if ws.len() == 0 {
        Seq::empty()
    } else if first_index(ws[0], 'x') >= 0 && ws[0].len() > 0 && crate::text::is_digit(ws[0][0]) {
        before_plus(ws[0])
    } else {
        active_mode(ws.drop_first())
    }
}

/// `"{name}: {mode}"`, with ` @ {rate}` when a rate is known.
pub open spec fn output_text(name: Seq<char>, mode: Seq<char>, rate: Seq<char>) -> Seq<char> {
    if rate.len() == 0 {
        name + ": "@ + mode
    } else {
        name + ": "@ + mode + " @ "@ + rate
    }
}

/// The connected outputs of `xrandr --current` from line `i` on: each output
/// line with ` connected`, its active mode and the refresh rate from the mode
/// lines under it; an output without an active mode is left out.
pub open spec fn xrandr_from(ls: Seq<Seq<char>>, i: int) -> Seq<Seq<char>>
    decreases ls.len() - i,
{
    if i < 0 || i >= ls.len() {
        Seq::empty()
    } else if !contains(ls[i], " connected"@) {
        xrandr_from(ls, i + 1)
    } else {
        let e = run_end(ls, i + 1);
        proof {
            lemma_run_end(ls, i + 1);
        }
        let line = ls[i];
        let name = if words(line).len() > 0 {
            words(line)[0]
        } else {
            Seq::empty()
        };
        let mode = active_mode(words(after_connected(line)));
        let rate = refresh_in(ls, i + 1, e, Seq::empty());
        let rest = xrandr_from(ls, e);
        if mode.len() == 0 {
            rest
        } else {
            seq![output_text(name, mode, rate)] + rest
        }
    }
}

/// [`token_rate`] of a line's words.
fn token_rate_of(ws: &Vec<Vec<char>>) -> (r: Option<Vec<char>>)
    ensures
        match r {
            Some(t) => token_rate(views(ws@)) == Some(t@),
            None => token_rate(views(ws@)) is None,
        },
{
    let ghost all = views(ws@);
    let mut i: usize = 0;
    proof {
        assert(all.subrange(0, all.len() as int) =~= all);
    }
    while i < ws.len()
        invariant
            all == views(ws@),
            i <= ws@.len(),
            token_rate(all) == token_rate(all.subrange(i as int, all.len() as int)),
        decreases ws.len() - i,
    {
        proof {
            let t = all.subrange(i as int, all.len() as int);
            assert(t.drop_first() =~= all.subrange(i + 1, all.len() as int));
            assert(t[0] == ws@[i as int]@);
        }
        let w = ws[i].as_slice();
        let n = w.len();
        let mut j: usize = n;
        proof {
            assert(w@.subrange(0, n as int) =~= w@);
        }
        while j > 0 && (w[j - 1] == '*' || w[j - 1] == '+')
            invariant
                j <= n == w@.len(),
                trail_marks(w@) == (n - j) + trail_marks(w@.subrange(0, j as int)),
            decreases j,
        {
            proof {
                assert(w@.subrange(0, j as int).drop_last() =~= w@.subrange(0, j - 1));
            }
            j = j - 1;
        }
        let t = slice_of(w, 0, j);
        if crate::text::is_float_literal(t.as_slice()) {
            return Some(t);
        }
        i = i + 1;
    }
    None
}

/// [`active_mode`] of a list of words.
fn active_mode_of(ws: &Vec<Vec<char>>) -> (r: Vec<char>)
    ensures
        r@ == active_mode(views(ws@)),
{
    let ghost all = views(ws@);
    let mut i: usize = 0;
    proof {
        assert(all.subrange(0, all.len() as int) =~= all);
    }
    while i < ws.len()
        invariant
            all == views(ws@),
            i <= ws@.len(),
            active_mode(all) == active_mode(all.subrange(i as int, all.len() as int)),
        decreases ws.len() - i,
    {
        proof {
            let t = all.subrange(i as int, all.len() as int);
            assert(t.drop_first() =~= all.subrange(i + 1, all.len() as int));
            assert(t[0] == ws@[i as int]@);
        }
        let w = ws[i].as_slice();
        if find_char(w, 'x').is_some() && w.len() > 0 && '0' <= w[0] && w[0] <= '9' {
            match find_char(w, '+') {
                Some(k) => {
                    proof {
                        crate::text::lemma_first_index(w@, '+');
                    }
                    return slice_of(w, 0, k);
                },
                None => {
                    proof {
                        assert(w@.subrange(0, w@.len() as int) =~= w@);
                    }
                    return slice_of(w, 0, w.len());
                },
            }
        }
        i = i + 1;
    }
    Vec::new()
}

/// [`after_connected`] of a line that holds ` connected`.
fn after_connected_of(line: &[char]) -> (r: Vec<char>)
    requires
        contains(line@, " connected"@),
    ensures
        r@ == after_connected(line@),
{
    let pat = chars_of(" connected");
    proof {
        reveal_strlit(" connected");
        crate::text::lemma_first_occurrence(line@, " connected"@);
    }
    let k = find_seq(line, pat.as_slice()).unwrap();
    let n = line.len();
    assert(k + 10 <= n);
    let rest = slice_of(line, k + 10, n);
    match find_seq(rest.as_slice(), pat.as_slice()) {
        Some(k2) => {
            proof {
                crate::text::lemma_first_occurrence(rest@, " connected"@);
            }
            slice_of(rest.as_slice(), 0, k2)
        },
        None => rest,
    }
}

/// The outputs that `xrandr --current` shows connected, each as
/// `"{name}: {mode}"` or `"{name}: {mode} @ {rate}Hz"`.
pub fn parse_xrandr(out: &str) -> (r: Vec<String>)
    ensures
        string_views(r@) == xrandr_from(lines(out@), 0),
{
    let v = chars_of(out);
    let ls = lines_of(v.as_slice());
    let ghost all = views(ls@);
    let pat = chars_of(" connected");
    let mut res: Vec<String> = Vec::new();
    let mut i: usize = 0;
    proof {
        assert(string_views(res@) =~= Seq::<Seq<char>>::empty());
    }
    while i < ls.len()
        invariant
            all == views(ls@),
            all == lines(out@),
            pat@ == " connected"@,
            i <= ls@.len(),
            xrandr_from(all, 0) == string_views(res@) + xrandr_from(all, i as int),
        decreases ls.len() - i,
    {
        let line = ls[i].as_slice();
        proof {
            assert(all[i as int] == line@);
        }
        if !contains_seq(line, pat.as_slice()) {
            i = i + 1;
            continue;
        }
        let ws = words_of(line);
        proof {
            assert(views(ws@).len() == ws@.len());
            if ws@.len() > 0 {
                assert(views(ws@)[0] == ws@[0]@);
            }
        }
        let name: Vec<char> = if ws.len() > 0 {
            slice_of(ws[0].as_slice(), 0, ws[0].len())
        } else {
            Vec::new()
        };
        proof {
            if ws@.len() > 0 {
                assert(ws@[0]@.subrange(0, ws@[0]@.len() as int) =~= ws@[0]@);
            }
        }
        let after = after_connected_of(line);
        let aw = words_of(after.as_slice());
        let mode = active_mode_of(&aw);
        let ghost e = run_end(all, i + 1);
        proof {
            lemma_run_end(all, i + 1);
        }
        let mut rate: Vec<char> = Vec::new();
        let mut j: usize = i + 1;
        proof {
            assert(rate@ =~= Seq::<char>::empty());
        }
        while j < ls.len() && ls[j].len() > 0 && (ls[j][0] == ' ' || ls[j][0] == '\t')
            invariant
                all == views(ls@),
                i < j <= ls@.len(),
                e == run_end(all, i + 1),
                run_end(all, j as int) == e,
                refresh_in(all, i + 1, e, Seq::empty()) == refresh_in(all, j as int, e, rate@),
            decreases ls.len() - j,
        {
            proof {
                assert(all[j as int] == ls@[j as int]@);
                lemma_run_end(all, j + 1);
            }
            let l = ls[j].as_slice();
            if find_char(l, '*').is_some() {
                let lw = words_of(l);
                match token_rate_of(&lw) {
                    Some(t) => {
                        let mut nr = t;
                        nr.push('H');
                        nr.push('z');
                        proof {
                            reveal_strlit("Hz");
                            assert(nr@ =~= t@ + "Hz"@);
                        }
                        rate = nr;
                    },
                    None => {},
                }
            }
            j = j + 1;
        }
        proof {
            if j < ls@.len() {
                assert(all[j as int] == ls@[j as int]@);
            }
            assert(run_end(all, j as int) == j);
        }
        if mode.len() > 0 {
            let mut t = string_of(&name);
            t.append(": ");
            let ms = string_of(&mode);
            t.append(ms.as_str());
            if rate.len() > 0 {
                t.append(" @ ");
                let rs = string_of(&rate);
                t.append(rs.as_str());
            }
            let ghost before = res@;
            res.push(t);
            proof {
                assert(string_views(res@) =~= string_views(before).push(t@));
            }
        }
        i = j;
    }
    res
}

/// A DRM connector's line: `"{connector}: {mode}"` with the card prefix
/// (`cardN-`) cut from the directory name and the first listed mode; only
/// for a connector whose status reads `connected`.
pub open spec fn drm_text(dir: Seq<char>, status: Option<Seq<char>>, modes: Option<Seq<char>>) -> Option<Seq<char>> {
    let st = match status {
        Some(s) => trim(s),
        None => Seq::empty(),
    };
    if st != "connected"@ {
        None
    } else {
        match modes {
            None => None,
            Some(m) => match first_nonempty(lines(m)) {
                None => None,
                Some(first) => Some(connector_name(dir) + ": "@ + first),
            },
        }
    }
}

/// A DRM directory name without its card prefix (up to the first `-`).
pub open spec fn connector_name(dir: Seq<char>) -> Seq<char> {
    let k = first_index(dir, '-');
    if k >= 0 {
        dir.subrange(k + 1, dir.len() as int)
    } else {
        dir
    }
}

/// The first line that is not empty.
pub open spec fn first_nonempty(ls: Seq<Seq<char>>) -> Option<Seq<char>>
    decreases ls.len(),
{
    if ls.len() == 0 {
        None
    } else if ls[0].len() > 0 {
        Some(ls[0])
    } else {
        first_nonempty(ls.drop_first())
    }
}

/// One `/sys/class/drm` connector (see [`drm_text`]).
pub fn drm_entry(dir: &str, status: Option<String>, modes: Option<String>) -> (r: Option<String>)
    ensures
        match drm_text(dir@, opt_view(status), opt_view(modes)) {
            Some(t) => r matches Some(x) && x@ == t,
            None => r is None,
        },
{
    let st = match &status {
        Some(s) => trim_str(s.as_str()),
        None => String::new(),
    };
    let sv = chars_of(st.as_str());
    let connected = chars_of("connected");
    if !same(sv.as_slice(), connected.as_slice()) {
        return None;
    }
    let m = match modes {
        Some(m) => m,
        None => {
            return None;
        },
    };
    let mv = chars_of(m.as_str());
    let ls = lines_of(mv.as_slice());
    let ghost all = views(ls@);
    let ghost expected = drm_text(dir@, opt_view(status), opt_view(modes));
    let mut i: usize = 0;
    proof {
        assert(all.subrange(0, all.len() as int) =~= all);
        assert(expected == match first_nonempty(all) {
            None => None,
            Some(first) => Some(connector_name(dir@) + ": "@ + first),
        });
    }
    while i < ls.len()
        invariant
            all == views(ls@),
            i <= ls@.len(),
            first_nonempty(all) == first_nonempty(all.subrange(i as int, all.len() as int)),
            expected == drm_text(dir@, opt_view(status), opt_view(modes)),
            expected == match first_nonempty(all) {
                None => None,
                Some(first) => Some(connector_name(dir@) + ": "@ + first),
            },
        decreases ls.len() - i,
    {
        proof {
            let t = all.subrange(i as int, all.len() as int);
            assert(t.drop_first() =~= all.subrange(i + 1, all.len() as int));
            assert(t[0] == ls@[i as int]@);
        }
        if ls[i].len() > 0 {
            let dv = chars_of(dir);
            let name = match find_char(dv.as_slice(), '-') {
                Some(k) => {
                    proof {
                        crate::text::lemma_first_index(dv@, '-');
                    }
                    let n = dv.len();
                    assert(k < n);
                    slice_of(dv.as_slice(), k + 1, n)
                },
                None => dv,
            };
            let mut r = string_of(&name);
            r.append(": ");
            let f = string_of(&ls[i]);
            r.append(f.as_str());
            return Some(r);
        }
        i = i + 1;
    }
    None
}

/// The outputs from `xrandr` when it lists any, else the DRM connectors'
/// lines; joined with `, `.
pub open spec fn resolution_text(xrandr: Option<Seq<char>>, drm: Seq<Seq<char>>) -> Option<Seq<char>> {
    let xs = match xrandr {
        Some(s) => xrandr_from(lines(s), 0),
        None => Seq::empty(),
    };
    if xs.len() > 0 {
        super::comma_joined(xs)
    } else {
        super::comma_joined(drm)
    }
}

/// The display resolutions, from `xrandr --current` or else from the DRM
/// connectors' lines ([`drm_entry`]).
pub fn resolution(xrandr: Option<String>, drm: &Vec<String>) -> (r: Option<String>)
    ensures
        match resolution_text(opt_view(xrandr), string_views(drm@)) {
            Some(t) => r matches Some(x) && x@ == t,
            None => r is None,
        },
{
    match &xrandr {
        Some(s) => {
            let parts = parse_xrandr(s.as_str());
            if parts.len() > 0 {
                return super::join_commas(&parts);
            }
        },
        None => {},
    }
    super::join_commas(drm)
}


// ----- desktop environment and window manager -----

/// The processes whose presence names a desktop environment, in the order
/// they are tried, with the name shown for each.
pub open spec fn de_processes() -> Seq<(Seq<char>, Seq<char>)> {
    seq![
        ("gnome-shell"@, "GNOME"@),
        ("plasmashell"@, "KDE Plasma"@),
        ("xfce4-session"@, "XFCE"@),
        ("mate-session"@, "MATE"@),
        ("cinnamon-session"@, "Cinnamon"@),
        ("lxqt-session"@, "LXQt"@),
        ("lxsession"@, "LXDE"@),
        ("budgie-panel"@, "Budgie"@),
    ]
}

/// The processes whose presence names an X11 window manager, in order.
pub open spec fn x11_wm_processes() -> Seq<(Seq<char>, Seq<char>)> {
    seq![
        ("i3"@, "i3"@),
        ("bspwm"@, "bspwm"@),
        ("dwm"@, "dwm"@),
        ("openbox"@, "Openbox"@),
        ("xfwm4"@, "Xfwm4"@),
        ("kwin_x11"@, "KWin"@),
        ("mutter"@, "Mutter"@),
        ("awesome"@, "awesome"@),
    ]
}

/// The Wayland compositors tried by process name after Sway and Hyprland,
/// in order.
pub open spec fn wayland_processes() -> Seq<(Seq<char>, Seq<char>)> {
    seq![
        ("river"@, "river"@),
        ("niri"@, "niri"@),
        ("gnome-shell"@, "Mutter (Wayland)"@),
        ("kwin_wayland"@, "KWin (Wayland)"@),
    ]
}

/// Process names and labels as strings.
fn pairs_of(v: Vec<(&'static str, &'static str)>) -> (r: Vec<(String, String)>)
    ensures
        r@.len() == v@.len(),
        forall|i: int|
            0 <= i < v@.len() ==> (#[trigger] r@[i]).0@ == v@[i].0@ && r@[i].1@ == v@[i].1@,
{
    let mut r: Vec<(String, String)> = Vec::new();
    let mut i: usize = 0;
    while i < v.len()
        invariant
            i <= v@.len(),
            r@.len() == i,
            forall|j: int| 0 <= j < i ==> (#[trigger] r@[j]).0@ == v@[j].0@ && r@[j].1@ == v@[j].1@,
        decreases v.len() - i,
    {
        r.push((String::from_str(v[i].0), String::from_str(v[i].1)));
        i = i + 1;
    }
    r
}

/// The desktop-environment processes and their labels ([`de_processes`]).
pub fn de_process_list() -> (r: Vec<(String, String)>)
    ensures
        r@.len() == de_processes().len(),
        forall|i: int|
            0 <= i < r@.len() ==> (#[trigger] r@[i]).0@ == de_processes()[i].0 && r@[i].1@
                == de_processes()[i].1,
{
    pairs_of(
        vec![
            ("gnome-shell", "GNOME"),
            ("plasmashell", "KDE Plasma"),
            ("xfce4-session", "XFCE"),
            ("mate-session", "MATE"),
            ("cinnamon-session", "Cinnamon"),
            ("lxqt-session", "LXQt"),
            ("lxsession", "LXDE"),
            ("budgie-panel", "Budgie"),
        ],
    )
}

/// The X11 window-manager processes and their labels ([`x11_wm_processes`]).
pub fn x11_wm_process_list() -> (r: Vec<(String, String)>)
    ensures
        r@.len() == x11_wm_processes().len(),
        forall|i: int|
            0 <= i < r@.len() ==> (#[trigger] r@[i]).0@ == x11_wm_processes()[i].0 && r@[i].1@
                == x11_wm_processes()[i].1,
{
    pairs_of(
        vec![
            ("i3", "i3"),
            ("bspwm", "bspwm"),
            ("dwm", "dwm"),
            ("openbox", "Openbox"),
            ("xfwm4", "Xfwm4"),
            ("kwin_x11", "KWin"),
            ("mutter", "Mutter"),
            ("awesome", "awesome"),
        ],
    )
}

/// The Wayland compositor processes and their labels ([`wayland_processes`]).
pub fn wayland_process_list() -> (r: Vec<(String, String)>)
    ensures
        r@.len() == wayland_processes().len(),
        forall|i: int|
            0 <= i < r@.len() ==> (#[trigger] r@[i]).0@ == wayland_processes()[i].0 && r@[i].1@
                == wayland_processes()[i].1,
{
    pairs_of(
        vec![
            ("river", "river"),
            ("niri", "niri"),
            ("gnome-shell", "Mutter (Wayland)"),
            ("kwin_wayland", "KWin (Wayland)"),
        ],
    )
}

/// The label of the first listed process that runs (`running[i]` for the
/// `i`-th; a missing entry counts as not running).
pub open spec fn first_running(procs: Seq<(Seq<char>, Seq<char>)>, running: Seq<bool>, i: int) -> Option<Seq<char>>
    decreases procs.len() - i,
{
    if i < 0 || i >= procs.len() {
        None
    } else if i < running.len() && running[i] {
        Some(procs[i].1)
    } else {
        first_running(procs, running, i + 1)
    }
}

/// [`first_running`] from 0, over the labels of a process list.
fn first_running_of(procs: &Vec<(String, String)>, running: &Vec<bool>) -> (r: Option<String>)
    ensures
        match r {
            Some(x) => first_running(pair_views(procs@), running@, 0) == Some(x@),
            None => first_running(pair_views(procs@), running@, 0) is None,
        },
{
    let ghost ps = pair_views(procs@);
    let mut i: usize = 0;
    while i < procs.len()
        invariant
            ps == pair_views(procs@),
            i <= procs@.len(),
            first_running(ps, running@, 0) == first_running(ps, running@, i as int),
        decreases procs.len() - i,
    {
        if i < running.len() && running[i] {
            proof {
                assert(ps[i as int].1 == procs@[i as int].1@);
            }
            return Some(procs[i].1.clone());
        }
        i = i + 1;
    }
    None
}

/// A list of string pairs as text.
pub open spec fn pair_views(v: Seq<(String, String)>) -> Seq<(Seq<char>, Seq<char>)> {
    v.map_values(|p: (String, String)| (p.0@, p.1@))
}

/// A non-empty value.
pub open spec fn nonempty(o: Option<Seq<char>>) -> Option<Seq<char>> {
    match o {
        Some(x) => if x.len() > 0 {
            Some(x)
        } else {
            None
        },
        None => None,
    }
}

/// The desktop environment: `XDG_CURRENT_DESKTOP`, else `DESKTOP_SESSION`
/// (each when not empty); on a text console nothing more; else the first
/// running desktop process ([`de_processes`]).
pub open spec fn de_text(current: Option<Seq<char>>, session: Option<Seq<char>>, session_type: Option<Seq<char>>, running: Seq<bool>) -> Option<Seq<char>> {
    match nonempty(current) {
        Some(x) => Some(x),
        None => match nonempty(session) {
            Some(x) => Some(x),
            None => if session_type == Some("tty"@) {
                None
            } else {
                first_running(de_processes(), running, 0)
            },
        },
    }
}

/// The desktop environment from `XDG_CURRENT_DESKTOP`, `DESKTOP_SESSION`,
/// `XDG_SESSION_TYPE` and which of [`de_process_list`] run.
pub fn desktop_environment(current: Option<String>, session: Option<String>, session_type: Option<String>, running: &Vec<bool>) -> (r: Option<String>)
    ensures
        match de_text(opt_view(current), opt_view(session), opt_view(session_type), running@) {
            Some(t) => r matches Some(x) && x@ == t,
            None => r is None,
        },
{
    match current {
        Some(x) => {
            if x.unicode_len() > 0 {
                return Some(x);
            }
        },
        None => {},
    }
    match session {
        Some(x) => {
            if x.unicode_len() > 0 {
                return Some(x);
            }
        },
        None => {},
    }
    match &session_type {
        Some(t) => {
            let tv = chars_of(t.as_str());
            let tty = chars_of("tty");
            if same(tv.as_slice(), tty.as_slice()) {
                return None;
            }
        },
        None => {},
    }
    let procs = de_process_list();
    proof {
        assert(pair_views(procs@) =~= de_processes());
    }
    first_running_of(&procs, running)
}

/// What the window-manager probe found.
pub struct WmProbe {
    /// `WAYLAND_DISPLAY`, when set.
    pub wayland: Option<String>,
    /// `SWAYSOCK` is set.
    pub swaysock: bool,
    /// `HYPRLAND_INSTANCE_SIGNATURE` is set.
    pub hyprland_sig: bool,
    /// `sway` and `Hyprland` run.
    pub sway_running: bool,
    pub hyprland_running: bool,
    /// Which of [`wayland_process_list`] run.
    pub wayland_running: Vec<bool>,
    /// `DISPLAY` is set.
    pub display: bool,
    /// The name `xprop` gives the supporting window ([`xprop_wm_name`]).
    pub xprop_name: Option<String>,
    /// The `Name:` of `wmctrl -m` ([`wmctrl_name`]).
    pub wmctrl: Option<String>,
    /// Which of [`x11_wm_process_list`] run.
    pub x11_running: Vec<bool>,
}

/// The window manager: on Wayland, Sway, Hyprland, then the running
/// compositors, else `Wayland ({display})`; on X11, the `_NET_WM_NAME` that
/// `xprop` reports, `wmctrl`'s name, then the running window managers.
pub open spec fn wm_text(p: WmProbe) -> Option<Seq<char>> {
    match p.wayland {
        Some(w) => if p.swaysock || p.sway_running {
            Some("Sway"@)
        } else if p.hyprland_sig || p.hyprland_running {
            Some("Hyprland"@)
        } else {
            match first_running(wayland_processes(), p.wayland_running@, 0) {
                Some(x) => Some(x),
                None => Some("Wayland ("@ + w@ + ")"@),
            }
        },
        None => if p.display {
            match opt_view(p.xprop_name) {
                Some(x) => Some(x),
                None => match opt_view(p.wmctrl) {
                    Some(x) => Some(x),
                    None => first_running(x11_wm_processes(), p.x11_running@, 0),
                },
            }
        } else {
            None
        },
    }
}

/// The window manager (see [`wm_text`]).
pub fn window_manager(p: WmProbe) -> (r: Option<String>)
    ensures
        match wm_text(p) {
            Some(t) => r matches Some(x) && x@ == t,
            None => r is None,
        },
{
    let ghost p0 = p;
    match p.wayland {
        Some(w) => {
            if p.swaysock || p.sway_running {
                Some(String::from_str("Sway"))
            } else if p.hyprland_sig || p.hyprland_running {
                Some(String::from_str("Hyprland"))
            } else {
                let procs = wayland_process_list();
                proof {
                    assert(pair_views(procs@) =~= wayland_processes());
                }
                match first_running_of(&procs, &p.wayland_running) {
                    Some(x) => Some(x),
                    None => {
                        let mut s = String::from_str("Wayland (");
                        s.append(w.as_str());
                        s.append(")");
                        Some(s)
                    },
                }
            }
        },
        None => {
            if p.display {
                match p.xprop_name {
                    Some(x) => Some(x),
                    None => match p.wmctrl {
                        Some(x) => Some(x),
                        None => {
                            let procs = x11_wm_process_list();
                            proof {
                                assert(pair_views(procs@) =~= x11_wm_processes());
                            }
                            first_running_of(&procs, &p.x11_running)
                        },
                    },
                }
            } else {
                None
            }
        },
    }
}

/// The window id at the end of `xprop -root -notype _NET_SUPPORTING_WM_CHECK`.
pub fn xprop_window_id(out: &str) -> (r: Option<String>)
    ensures
        match r {
            Some(x) => words(out@).len() > 0 && x@ == words(out@).last(),
            None => words(out@).len() == 0,
        },
{
    let v = chars_of(out);
    let ws = words_of(v.as_slice());
    proof {
        assert(views(ws@).len() == ws@.len());
    }
    if ws.len() == 0 {
        None
    } else {
        proof {
            assert(views(ws@).last() == ws@[ws@.len() - 1]@);
        }
        Some(string_of(&ws[ws.len() - 1]))
    }
}

/// The text between the first two `"` of `xprop -id <id> -notype
/// _NET_WM_NAME`, when there are two and it is not empty.
pub open spec fn quoted_name(s: Seq<char>) -> Option<Seq<char>> {
    let q1 = first_index(s, '"');
    if q1 < 0 {
        None
    } else {
        let rest = s.subrange(q1 + 1, s.len() as int);
        let q2 = first_index(rest, '"');
        if q2 < 0 || q2 == 0 {
            None
        } else {
            Some(rest.subrange(0, q2))
        }
    }
}

/// The window manager's name as `xprop` prints it ([`quoted_name`]).
pub fn xprop_wm_name(out: &str) -> (r: Option<String>)
    ensures
        match quoted_name(out@) {
            Some(t) => r matches Some(x) && x@ == t,
            None => r is None,
        },
{
    let v = chars_of(out);
    match find_char(v.as_slice(), '"') {
        Some(q1) => {
            proof {
                crate::text::lemma_first_index(v@, '"');
            }
            let n = v.len();
            assert(q1 < n);
            let rest = slice_of(v.as_slice(), q1 + 1, n);
            match find_char(rest.as_slice(), '"') {
                Some(q2) => {
                    if q2 == 0 {
                        None
                    } else {
                        proof {
                            crate::text::lemma_first_index(rest@, '"');
                        }
                        let name = slice_of(rest.as_slice(), 0, q2);
                        Some(string_of(&name))
                    }
                },
                None => None,
            }
        },
        None => None,
    }
}

/// The name after `Name:` on the first line of `wmctrl -m` that starts with
/// it, trimmed.
pub open spec fn wmctrl_text(ls: Seq<Seq<char>>) -> Option<Seq<char>>
    decreases ls.len(),
{
    if ls.len() == 0 {
        None
    } else if has_prefix(ls[0], "Name:"@) {
        Some(trim(ls[0].subrange(5, ls[0].len() as int)))
    } else {
        wmctrl_text(ls.drop_first())
    }
}

/// The window manager's name as `wmctrl -m` prints it.
pub fn wmctrl_name(out: &str) -> (r: Option<String>)
    ensures
        match wmctrl_text(lines(out@)) {
            Some(t) => r matches Some(x) && x@ == t,
            None => r is None,
        },
{
    let v = chars_of(out);
    let ls = lines_of(v.as_slice());
    let ghost all = views(ls@);
    let key = chars_of("Name:");
    proof {
        reveal_strlit("Name:");
        assert(all.subrange(0, all.len() as int) =~= all);
    }
    let mut i: usize = 0;
    while i < ls.len()
        invariant
            all == views(ls@),
            all == lines(out@),
            key@ == "Name:"@,
            "Name:"@.len() == 5,
            i <= ls@.len(),
            wmctrl_text(all) == wmctrl_text(all.subrange(i as int, all.len() as int)),
        decreases ls.len() - i,
    {
        proof {
            let t = all.subrange(i as int, all.len() as int);
            assert(t.drop_first() =~= all.subrange(i + 1, all.len() as int));
            assert(t[0] == ls@[i as int]@);
        }
        let l = ls[i].as_slice();
        if starts_with(l, key.as_slice()) {
            let rest = slice_of(l, 5, l.len());
            let t = trimmed(rest.as_slice());
            return Some(string_of(&t));
        }
        i = i + 1;
    }
    None
}

// ----- CPU temperature -----

/// One `temp*_input` of a hwmon chip: the chip's name, the input's label and
/// its reading (`None` when unreadable).
pub struct TempSensor {
    pub chip: String,
    pub label: String,
    pub reading: Option<String>,
}

/// A sensor as plain text.
pub type SensorView = (Seq<char>, Seq<char>, Option<Seq<char>>);

impl TempSensor {
    pub open spec fn view(&self) -> SensorView {
        (self.chip@, self.label@, opt_view(self.reading))
    }
}

/// The sensors' views.
pub open spec fn sensor_views(v: Seq<TempSensor>) -> Seq<SensorView> {
    v.map_values(|t: TempSensor| t.view())
}

/// How much a chip is preferred (lower first): the CPU package drivers,
/// then `cpu_thermal`, then any other, then ACPI.
pub open spec fn chip_rank(chip: Seq<char>) -> int {
    let c = trim(chip);
    if c == "coretemp"@ || c == "k10temp"@ || c == "zenpower"@ {
        0
    } else if c == "cpu_thermal"@ {
        1
    } else if c == "acpitz"@ {
        3
    } else {
        2
    }
}

/// 0 for a package or die label (`package`, `tctl`, `tdie` in any case),
/// else 1.
pub open spec fn label_rank(label: Seq<char>) -> int {
    let l = crate::text::lowercase_of(label);
    if contains(l, "package"@) || contains(l, "tctl"@) || contains(l, "tdie"@) {
        0
    } else {
        1
    }
}

/// A sensor's sort key and reading in millidegrees, when it reads a positive
/// integer.
pub open spec fn candidate(s: SensorView) -> Option<(int, int)> {
    match s.2 {
        None => None,
        Some(raw) => match crate::text::parse_signed(trim(raw)) {
            None => None,
            Some(v) => if v <= 0 {
                None
            } else {
                Some((chip_rank(s.0) * 2 + label_rank(s.1), v))
            },
        },
    }
}

/// The reading with the smallest key, the earliest among equal keys (the
/// first after a stable sort by key).
pub open spec fn best_reading(ss: Seq<SensorView>) -> Option<(int, int)>
    decreases ss.len(),
{
    if ss.len() == 0 {
        None
    } else {
        let prev = best_reading(ss.drop_last());
        match candidate(ss.last()) {
            None => prev,
            Some(c) => match prev {
                None => Some(c),
                Some(p) => if c.0 < p.0 {
                    Some(c)
                } else {
                    Some(p)
                },
            },
        }
    }
}

/// The number inside a sensor file name `temp{idx}_input`.
pub open spec fn temp_input_index(name: Seq<char>) -> Option<Seq<char>> {
    if has_prefix(name, "temp"@) && name.len() >= 10 && crate::text::has_suffix(name, "_input"@) {
        Some(name.subrange(4, name.len() - 6))
    } else {
        None
    }
}

/// The index of a `temp{idx}_input` file name, whose label file is
/// `temp{idx}_label`.
pub fn temp_input_index_of(name: &str) -> (r: Option<String>)
    ensures
        match temp_input_index(name@) {
            Some(t) => r matches Some(x) && x@ == t,
            None => r is None,
        },
{
    let v = chars_of(name);
    let pre = chars_of("temp");
    let suf = chars_of("_input");
    proof {
        reveal_strlit("temp");
        reveal_strlit("_input");
    }
    if starts_with(v.as_slice(), pre.as_slice()) && v.len() >= 10 && crate::text::ends_with(
        v.as_slice(),
        suf.as_slice(),
    ) {
        let mid = slice_of(v.as_slice(), 4, v.len() - 6);
        Some(string_of(&mid))
    } else {
        None
    }
}

/// [`chip_rank`].
fn chip_rank_of(chip: &str) -> (r: u8)
    ensures
        r as int == chip_rank(chip@),
{
    let c = trim_str(chip);
    let cv = chars_of(c.as_str());
    let a = chars_of("coretemp");
    let b = chars_of("k10temp");
    let z = chars_of("zenpower");
    let t = chars_of("cpu_thermal");
    let acpi = chars_of("acpitz");
    if same(cv.as_slice(), a.as_slice()) || same(cv.as_slice(), b.as_slice()) || same(
        cv.as_slice(),
        z.as_slice(),
    ) {
        0
    } else if same(cv.as_slice(), t.as_slice()) {
        1
    } else if same(cv.as_slice(), acpi.as_slice()) {
        3
    } else {
        2
    }
}

/// [`label_rank`].
fn label_rank_of(label: &str) -> (r: u8)
    ensures
        r as int == label_rank(label@),
{
    let l = crate::text::to_lower(label);
    let lv = chars_of(l.as_str());
    let p = chars_of("package");
    let a = chars_of("tctl");
    let b = chars_of("tdie");
    if contains_seq(lv.as_slice(), p.as_slice()) || contains_seq(lv.as_slice(), a.as_slice())
        || contains_seq(lv.as_slice(), b.as_slice()) {
        0
    } else {
        1
    }
}

/// The CPU temperature in millidegrees Celsius: the preferred positive
/// reading ([`best_reading`]).
pub fn cpu_temp_milli(sensors: &Vec<TempSensor>) -> (r: Option<i64>)
    ensures
        match best_reading(sensor_views(sensors@)) {
            Some(b) => r == Some(b.1 as i64) && b.1 == r.unwrap() as int,
            None => r is None,
        },
{
    let ghost all = sensor_views(sensors@);
    let mut best: Option<(u8, i64)> = None;
    let mut i: usize = 0;
    while i < sensors.len()
        invariant
            all == sensor_views(sensors@),
            i <= sensors@.len(),
            match best_reading(all.subrange(0, i as int)) {
                Some(b) => best matches Some(x) && x.0 as int == b.0 && x.1 as int == b.1,
                None => best is None,
            },
        decreases sensors.len() - i,
    {
        proof {
            assert(all.subrange(0, i + 1).drop_last() =~= all.subrange(0, i as int));
            assert(all.subrange(0, i + 1).last() == sensors@[i as int].view());
        }
        let s = &sensors[i];
        match &s.reading {
            Some(raw) => {
                let rv = chars_of(raw.as_str());
                let rt = trimmed(rv.as_slice());
                match crate::text::parse_i64(rt.as_slice()) {
                    Some(v) => {
                        if v > 0 {
                            let key = chip_rank_of(s.chip.as_str()) * 2 + label_rank_of(
                                s.label.as_str(),
                            );
                            match best {
                                Some(b) => {
                                    if key < b.0 {
                                        best = Some((key, v));
                                    }
                                },
                                None => {
                                    best = Some((key, v));
                                },
                            }
                        }
                    },
                    None => {},
                }
            },
            None => {},
        }
        i = i + 1;
    }
    proof {
        assert(all.subrange(0, sensors@.len() as int) =~= all);
    }
    match best {
        Some(b) => Some(b.1),
        None => None,
    }
}

} // verus!
