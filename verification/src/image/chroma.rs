//! Removing a solid background colour from an image ("chroma keying").
use vstd::prelude::*;

use crate::image::loader::{Frame, ImageAsset};
use crate::text::{
    all_ascii, ascii_lower, chars_of, is_ascii_seq, lead_count, lemma_utf8_len_ascii,
    same, to_ascii_lower, trim, trim_start_char, trimmed, utf8_len, utf8_len_upto,
};


verus! {

/// Which colour, if any, to key out of the image.
#[derive(Clone, Copy, Debug, PartialEq, Eq, Structural)]
pub enum ChromaKey {
    Off,
    Auto,
    Color(u8, u8, u8),
}

/// Why a chroma specification was rejected.
#[derive(Clone, Copy, Debug, PartialEq, Eq, Structural)]
pub enum ChromaError {
    /// Not `none|auto|white|black|#RRGGBB`: the hex part is not six bytes long.
    Format,
    /// Six bytes long, but not three pairs of hex digits.
    Digits,
}

/// `|a - b| <= tol`.
pub open spec fn near(a: u8, b: u8, tol: u8) -> bool {
    (if a >= b { a - b } else { b - a }) <= tol
}

/// Pixel `p` of `s` matches `key` within `tol` on each of red, green and blue.
pub open spec fn pixel_matches(s: Seq<u8>, p: int, key: (u8, u8, u8), tol: u8) -> bool {
    &&& near(s[4 * p], key.0, tol)
    &&& near(s[4 * p + 1], key.1, tol)
    &&& near(s[4 * p + 2], key.2, tol)
}

/// Number of whole pixels in an RGBA buffer of `len` bytes.
pub open spec fn pixel_count(len: int) -> int {
    len / 4
}

/// `s` with the alpha of every whole pixel that matches `key` set to 0.
pub open spec fn keyed(s: Seq<u8>, key: (u8, u8, u8), tol: u8) -> Seq<u8> {
    Seq::new(
        s.len(),
        |i: int|
            if i % 4 == 3 && i / 4 < pixel_count(s.len() as int) && pixel_matches(s, i / 4, key, tol) {
                0u8
            } else {
                s[i]
            },
    )
}

/// Some whole pixel of `s` matches `key`.
pub open spec fn any_match(s: Seq<u8>, key: (u8, u8, u8), tol: u8) -> bool {
    exists|p: int| 0 <= p < pixel_count(s.len() as int) && pixel_matches(s, p, key, tol)
}

/// `s` after keying the pixels before pixel `upto` only.
pub open spec fn keyed_upto(s: Seq<u8>, key: (u8, u8, u8), tol: u8, upto: int) -> Seq<u8> {
    Seq::new(
        s.len(),
        |i: int|
            if i % 4 == 3 && i / 4 < upto && pixel_matches(s, i / 4, key, tol) {
                0u8
            } else {
                s[i]
            },
    )
}

fn near_exec(a: u8, b: u8, tol: u8) -> (r: bool)
    ensures
        r == near(a, b, tol),
{
    let d = if a >= b {
        a - b
    } else {
        b - a
    };
    d <= tol
}

/// Keys one frame: alpha 0 for every pixel within `tol` of `key` on each
/// channel. Returns whether any pixel matched.
pub fn apply_frame(frame: &mut Frame, key: (u8, u8, u8), tol: u8) -> (hit: bool)
    ensures
        final(frame).rgba@ == keyed(old(frame).rgba@, key, tol),
        final(frame).width == old(frame).width,
        final(frame).height == old(frame).height,
        final(frame).delay_ms == old(frame).delay_ms,
        hit == any_match(old(frame).rgba@, key, tol),
{
    let ghost orig = frame.rgba@;
    let n = frame.rgba.len() / 4;
    let mut hit = false;
    let mut p: usize = 0;
    proof {
        assert(frame.rgba@ =~= keyed_upto(orig, key, tol, 0));
    }
    while p < n
        invariant
            n == pixel_count(orig.len() as int),
            4 * n <= orig.len(),
            orig.len() <= usize::MAX,
            frame.rgba@.len() == orig.len(),
            p <= n,
            frame.rgba@ =~= keyed_upto(orig, key, tol, p as int),
            frame.width == old(frame).width,
            frame.height == old(frame).height,
            frame.delay_ms == old(frame).delay_ms,
            orig == old(frame).rgba@,
            hit == exists|q: int| 0 <= q < p && pixel_matches(orig, q, key, tol),
        decreases n - p,
    {
        let i = 4 * p;
        let r = frame.rgba[i];
        let g = frame.rgba[i + 1];
        let b = frame.rgba[i + 2];
        proof {
            assert(r == orig[4 * p as int]);
            assert(g == orig[4 * p + 1]);
            assert(b == orig[4 * p + 2]);
        }
        let m = near_exec(r, key.0, tol) && near_exec(g, key.1, tol) && near_exec(b, key.2, tol);
        if m {
            frame.rgba.set(i + 3, 0);
            hit = true;
        }
        proof {
            assert(frame.rgba@ =~= keyed_upto(orig, key, tol, p + 1));
            if m {
                assert(pixel_matches(orig, p as int, key, tol));
            }
        }
        p = p + 1;
    }
    proof {
        assert(keyed_upto(orig, key, tol, n as int) =~= keyed(orig, key, tol));
    }
    hit
}

/// Number of corner samples taken when looking for a background colour.
pub open spec fn sample_total() -> int {
    64
}

/// Byte offset of corner sample `k` (0..64) in a `w` x `h` RGBA buffer: the
/// four 4x4 corner blocks, top-left, top-right, bottom-left, bottom-right,
/// each walked row by row.
pub open spec fn sample_index(w: int, h: int, k: int) -> int {
    let corner = k / 16;
    let within = k % 16;
    let cx = if corner == 1 || corner == 3 {
        w - 4
    } else {
        0
    };
    let cy = if corner >= 2 {
        h - 4
    } else {
        0
    };
    ((cy + within / 4) * w + cx + within % 4) * 4
}

/// Colour bucket of the pixel at byte offset `i`: each channel with its low
/// three bits cleared.
pub open spec fn bucket(s: Seq<u8>, i: int) -> (u8, u8, u8) {
    (s[i] & 0xF8u8, s[i + 1] & 0xF8u8, s[i + 2] & 0xF8u8)
}

/// The pixel at byte offset `i` is at least half opaque.
pub open spec fn opaque(s: Seq<u8>, i: int) -> bool {
    s[i + 3] >= 128
}

/// Number of the first `n` corner samples that are opaque and fall in bucket `c`.
pub open spec fn votes(s: Seq<u8>, w: int, h: int, c: (u8, u8, u8), n: int) -> int
    decreases n,
{
    if n <= 0 {
        0
    } else {
        votes(s, w, h, c, n - 1) + if opaque(s, sample_index(w, h, n - 1)) && bucket(
            s,
            sample_index(w, h, n - 1),
        ) == c {
            1int
        } else {
            0int
        }
    }
}

/// Number of the first `n` corner samples that are opaque.
pub open spec fn opaque_count(s: Seq<u8>, w: int, h: int, n: int) -> int
    decreases n,
{
    if n <= 0 {
        0
    } else {
        opaque_count(s, w, h, n - 1) + if opaque(s, sample_index(w, h, n - 1)) {
            1int
        } else {
            0int
        }
    }
}

/// Bucket `c` holds more than 60% of the opaque corner samples.
pub open spec fn dominates(s: Seq<u8>, w: int, h: int, c: (u8, u8, u8)) -> bool {
    votes(s, w, h, c, sample_total()) * 100 > opaque_count(s, w, h, sample_total()) * 60
}

/// The background colour of a frame: the bucket that dominates its corners,
/// when the frame is at least 4x4 and one does.
pub open spec fn background(f: Frame) -> Option<(u8, u8, u8)> {
    let w = f.width as int;
    let h = f.height as int;
    if w >= 4 && h >= 4 && exists|c: (u8, u8, u8)| dominates(f.rgba@, w, h, c) {
        Some(choose|c: (u8, u8, u8)| dominates(f.rgba@, w, h, c))
    } else {
        None
    }
}

pub proof fn lemma_votes_bounds(s: Seq<u8>, w: int, h: int, c: (u8, u8, u8), n: int)
    requires
        n >= 0,
    ensures
        0 <= votes(s, w, h, c, n) <= n,
        0 <= opaque_count(s, w, h, n) <= n,
    decreases n,
{
    if n > 0 {
        lemma_votes_bounds(s, w, h, c, n - 1);
    }
}

/// Two different buckets share the opaque samples: their votes add up to at
/// most the number of those.
pub proof fn lemma_votes_disjoint(
    s: Seq<u8>,
    w: int,
    h: int,
    c1: (u8, u8, u8),
    c2: (u8, u8, u8),
    n: int,
)
    requires
        n >= 0,
        c1 != c2,
    ensures
        votes(s, w, h, c1, n) + votes(s, w, h, c2, n) <= opaque_count(s, w, h, n),
    decreases n,
{
    if n > 0 {
        lemma_votes_disjoint(s, w, h, c1, c2, n - 1);
    }
}

/// At most one bucket dominates.
pub proof fn lemma_dominant_unique(s: Seq<u8>, w: int, h: int, c1: (u8, u8, u8), c2: (u8, u8, u8))
    requires
        dominates(s, w, h, c1),
        dominates(s, w, h, c2),
    ensures
        c1 == c2,
{
    if c1 != c2 {
        lemma_votes_disjoint(s, w, h, c1, c2, sample_total());
        lemma_votes_bounds(s, w, h, c1, sample_total());
        lemma_votes_bounds(s, w, h, c2, sample_total());
    }
}

/// Every corner sample lies inside a `w` x `h` buffer.
pub proof fn lemma_sample_in_bounds(w: int, h: int, k: int)
    requires
        w >= 4,
        h >= 4,
        0 <= k < 64,
    ensures
        0 <= sample_index(w, h, k),
        sample_index(w, h, k) + 3 < w * h * 4,
        sample_index(w, h, k) % 4 == 0,
{
    let corner = k / 16;
    let within = k % 16;
    let cx = if corner == 1 || corner == 3 {
        w - 4
    } else {
        0
    };
    let cy = if corner >= 2 {
        h - 4
    } else {
        0
    };
    let y = cy + within / 4;
    let x = cx + within % 4;
    assert(0 <= y <= h - 1);
    assert(0 <= x <= w - 1);
    assert(0 <= (y * w + x) * 4 && (y * w + x) * 4 + 3 < w * h * 4) by (nonlinear_arith)
        requires
            0 <= y <= h - 1,
            0 <= x <= w - 1,
            w >= 4,
    ;
}

/// Byte offset of corner sample `k`, computed without overflow.
fn sample_offset(w: usize, h: usize, k: usize, len: usize) -> (i: usize)
    requires
        w >= 4,
        h >= 4,
        k < 64,
        len == w * h * 4,
    ensures
        i == sample_index(w as int, h as int, k as int),
        i + 3 < len,
{
    proof {
        lemma_sample_in_bounds(w as int, h as int, k as int);
    }
    let corner = k / 16;
    let within = k % 16;
    let cx = if corner == 1 || corner == 3 {
        w - 4
    } else {
        0
    };
    let cy = if corner >= 2 {
        h - 4
    } else {
        0
    };
    let y = cy + within / 4;
    let x = cx + within % 4;
    proof {
        assert(y * w + x <= w * h) by (nonlinear_arith)
            requires
                y <= h - 1,
                x <= w - 1,
        ;
        assert(y * w <= w * h) by (nonlinear_arith)
            requires
                y <= h - 1,
        ;
    }
    (y * w + x) * 4
}

/// Sample the four corners of the first frame; if a single colour bucket holds
/// more than 60% of the opaque samples, it is the background.
pub fn detect_background(frame: &Frame) -> (r: Option<(u8, u8, u8)>)
    requires
        frame.wf(),
    ensures
        r == background(*frame),
{
    let w = frame.width as usize;
    let h = frame.height as usize;
    if w < 4 || h < 4 {
        return None;
    }
    let ghost s = frame.rgba@;
    let len = frame.rgba.len();
    let mut op: u32 = 0;
    let mut q: usize = 0;
    while q < 64
        invariant
            w == frame.width,
            h == frame.height,
            w >= 4,
            h >= 4,
            len == w * h * 4,
            s == frame.rgba@,
            len == s.len(),
            q <= 64,
            op == opaque_count(s, w as int, h as int, q as int),
            op <= q,
        decreases 64 - q,
    {
        let i = sample_offset(w, h, q, len);
        if frame.rgba[i + 3] >= 128 {
            op = op + 1;
        }
        q = q + 1;
    }
    let mut k: usize = 0;
    while k < 64
        invariant
            op == opaque_count(s, w as int, h as int, 64),
            op <= 64,
            w == frame.width,
            h == frame.height,
            w >= 4,
            h >= 4,
            len == w * h * 4,
            s == frame.rgba@,
            len == s.len(),
            k <= 64,
            forall|j: int|
                0 <= j < k && opaque(s, sample_index(w as int, h as int, j)) ==> !dominates(
                    s,
                    w as int,
                    h as int,
                    #[trigger] bucket(s, sample_index(w as int, h as int, j)),
                ),
        decreases 64 - k,
    {
        let i = sample_offset(w, h, k, len);
        if frame.rgba[i + 3] >= 128 {
            let c = (frame.rgba[i] & 0xF8, frame.rgba[i + 1] & 0xF8, frame.rgba[i + 2] & 0xF8);
            proof {
                assert(c == bucket(s, i as int));
            }
            let mut count: u32 = 0;
            let mut j: usize = 0;
            while j < 64
                invariant
                    w == frame.width,
                    h == frame.height,
                    w >= 4,
                    h >= 4,
                    len == w * h * 4,
                    s == frame.rgba@,
                    len == s.len(),
                    j <= 64,
                    count == votes(s, w as int, h as int, c, j as int),
                    count <= j,
                    op == opaque_count(s, w as int, h as int, 64),
                    op <= 64,
                decreases 64 - j,
            {
                proof {
                    lemma_votes_bounds(s, w as int, h as int, c, j as int);
                }
                let t = sample_offset(w, h, j, len);
                if frame.rgba[t + 3] >= 128 && frame.rgba[t] & 0xF8 == c.0 && frame.rgba[t + 1]
                    & 0xF8 == c.1 && frame.rgba[t + 2] & 0xF8 == c.2 {
                    count = count + 1;
                }
                j = j + 1;
            }
            if count * 100 > op * 60 {
                proof {
                    assert(dominates(s, w as int, h as int, c));
                    let chosen = choose|c2: (u8, u8, u8)| dominates(s, w as int, h as int, c2);
                    lemma_dominant_unique(s, w as int, h as int, c, chosen);
                }
                return Some(c);
            }
        }
        k = k + 1;
    }
    proof {
        assert forall|c: (u8, u8, u8)| !dominates(s, w as int, h as int, c) by {
            lemma_no_sample_no_votes(s, w as int, h as int, c, 64);
        }
    }
    None
}

/// A bucket that no opaque sample falls in has no votes.
pub proof fn lemma_no_sample_no_votes(s: Seq<u8>, w: int, h: int, c: (u8, u8, u8), n: int)
    requires
        0 <= n <= 64,
        forall|j: int|
            0 <= j < n && opaque(s, sample_index(w, h, j)) ==> !dominates(
                s,
                w,
                h,
                #[trigger] bucket(s, sample_index(w, h, j)),
            ),
    ensures
        votes(s, w, h, c, n) > 0 ==> !dominates(s, w, h, c),
    decreases n,
{
    if n > 0 {
        lemma_no_sample_no_votes(s, w, h, c, n - 1);
        let i = sample_index(w, h, n - 1);
        if opaque(s, i) && bucket(s, i) == c {
            assert(!dominates(s, w, h, bucket(s, i)));
        }
    }
}


/// The value of a hexadecimal digit.
pub open spec fn hex_digit(c: char) -> Option<u8> {
    if '0' <= c && c <= '9' {
        Some(((c as u32) - 48) as u8)
    } else if 'a' <= c && c <= 'f' {
        Some(((c as u32) - 87) as u8)
    } else if 'A' <= c && c <= 'F' {
        Some(((c as u32) - 55) as u8)
    } else {
        None
    }
}

/// The byte that two hexadecimal digits `a b` spell, if both are digits.
pub open spec fn hex_pair(a: char, b: char) -> Option<u8> {
    match (hex_digit(a), hex_digit(b)) {
        (Some(x), Some(y)) => Some((x * 16 + y) as u8),
        _ => None,
    }
}

/// The text of a chroma specification after trimming and ASCII lowercasing.
pub open spec fn chroma_text(s: Seq<char>) -> Seq<char> {
    ascii_lower(trim(s))
}

/// The hex part of a chroma specification: the text without its leading `#`s.
pub open spec fn chroma_hex(s: Seq<char>) -> Seq<char> {
    let t = chroma_text(s);
    t.subrange(lead_count(t, '#') as int, t.len() as int)
}

/// The text names one of the words `none`, `auto`, `white`, `black` or is empty.
pub open spec fn chroma_is_word(t: Seq<char>) -> bool {
    t.len() == 0 || t == "none"@ || t == "auto"@ || t == "white"@ || t == "black"@
}

/// What `ChromaKey::parse` gives for `s`.
pub open spec fn chroma_parse(s: Seq<char>) -> Result<ChromaKey, ChromaError> {
    let t = chroma_text(s);
    let h = chroma_hex(s);
    if t.len() == 0 || t == "none"@ {
        Ok(ChromaKey::Off)
    } else if t == "auto"@ {
        Ok(ChromaKey::Auto)
    } else if t == "white"@ {
        Ok(ChromaKey::Color(255, 255, 255))
    } else if t == "black"@ {
        Ok(ChromaKey::Color(0, 0, 0))
    } else if utf8_len(h) != 6 {
        Err(ChromaError::Format)
    } else if !is_ascii_seq(h) {
        Err(ChromaError::Digits)
    } else {
        match (hex_pair(h[0], h[1]), hex_pair(h[2], h[3]), hex_pair(h[4], h[5])) {
            (Some(r), Some(g), Some(b)) => Ok(ChromaKey::Color(r, g, b)),
            _ => Err(ChromaError::Digits),
        }
    }
}

fn hex_digit_exec(c: char) -> (r: Option<u8>)
    ensures
        r == hex_digit(c),
{
    if '0' <= c && c <= '9' {
        Some((c as u8) - 48)
    } else if 'a' <= c && c <= 'f' {
        Some((c as u8) - 87)
    } else if 'A' <= c && c <= 'F' {
        Some((c as u8) - 55)
    } else {
        None
    }
}

fn hex_pair_exec(a: char, b: char) -> (r: Option<u8>)
    ensures
        r == hex_pair(a, b),
{
    match (hex_digit_exec(a), hex_digit_exec(b)) {
        (Some(x), Some(y)) => Some(x * 16 + y),
        _ => None,
    }
}

impl ChromaKey {
    /// Parses `none`, `auto`, `white`, `black` or `#RRGGBB` (any case, any
    /// number of leading `#`, surrounding white space ignored; empty means none).
    pub fn parse(s: &str) -> (r: Result<ChromaKey, ChromaError>)
        ensures
            r == chroma_parse(s@),
    {
        let raw = chars_of(s);
        let tt = trimmed(raw.as_slice());
        let t = to_ascii_lower(tt.as_slice());
        let none_w = chars_of("none");
        let auto_w = chars_of("auto");
        let white_w = chars_of("white");
        let black_w = chars_of("black");
        if t.len() == 0 || same(t.as_slice(), none_w.as_slice()) {
            return Ok(ChromaKey::Off);
        }
        if same(t.as_slice(), auto_w.as_slice()) {
            return Ok(ChromaKey::Auto);
        }
        if same(t.as_slice(), white_w.as_slice()) {
            return Ok(ChromaKey::Color(255, 255, 255));
        }
        if same(t.as_slice(), black_w.as_slice()) {
            return Ok(ChromaKey::Color(0, 0, 0));
        }
        let h = trim_start_char(t.as_slice(), '#');
        match utf8_len_upto(h.as_slice(), 6) {
            Some(n) => {
                if n != 6 {
                    return Err(ChromaError::Format);
                }
            },
            None => {
                return Err(ChromaError::Format);
            },
        }
        if !all_ascii(h.as_slice()) {
            return Err(ChromaError::Digits);
        }
        proof {
            lemma_utf8_len_ascii(h@);
        }
        match (
            hex_pair_exec(h[0], h[1]),
            hex_pair_exec(h[2], h[3]),
            hex_pair_exec(h[4], h[5]),
        ) {
            (Some(r), Some(g), Some(b)) => Ok(ChromaKey::Color(r, g, b)),
            _ => Err(ChromaError::Digits),
        }
    }
}

/// The colour keyed out of `asset` under `key`, if any.
pub open spec fn key_color(asset: &ImageAsset, key: ChromaKey) -> Option<(u8, u8, u8)> {
    match key {
        ChromaKey::Off => None,
        ChromaKey::Color(r, g, b) => Some((r, g, b)),
        ChromaKey::Auto => background(asset.frames@[0]),
    }
}

/// `after` is `before` with every frame keyed for `c` within `tol` (sizes
/// and delays kept), and `touched` tells whether some frame had a pixel
/// matching `c`.
pub open spec fn keyed_frames(
    before: Seq<Frame>,
    after: Seq<Frame>,
    c: (u8, u8, u8),
    tol: u8,
    touched: bool,
) -> bool {
    &&& after.len() == before.len()
    &&& touched == exists|i: int| 0 <= i < before.len() && any_match(#[trigger] before[i].rgba@, c, tol)
    &&& forall|i: int|
        0 <= i < before.len() ==> {
            let f0 = #[trigger] before[i];
            let f1 = after[i];
            &&& f1.rgba@ == keyed(f0.rgba@, c, tol)
            &&& f1.width == f0.width
            &&& f1.height == f0.height
            &&& f1.delay_ms == f0.delay_ms
        }
}

/// Mutates the asset in place: pixels matching the chroma colour (within
/// tolerance) get alpha 0 in every frame. Returns true if any frame changed.
pub fn apply(asset: &mut ImageAsset, key: ChromaKey, tol: u8) -> (touched: bool)
    requires
        key is Auto ==> old(asset).wf(),
    ensures
        final(asset).kind == old(asset).kind,
        final(asset).raw@ == old(asset).raw@,
        final(asset).frames@.len() == old(asset).frames@.len(),
        match key_color(old(asset), key) {
            None => !touched && final(asset).frames@ == old(asset).frames@,
            Some(c) => keyed_frames(old(asset).frames@, final(asset).frames@, c, tol, touched),
        },
{
    let color = match key {
        ChromaKey::Off => {
            return false;
        },
        ChromaKey::Color(r, g, b) => (r, g, b),
        ChromaKey::Auto => match detect_background(&asset.frames[0]) {
            Some(c) => c,
            None => {
                return false;
            },
        },
    };
    let ghost old_frames = asset.frames@;
    let mut rest: Vec<Frame> = Vec::new();
    std::mem::swap(&mut rest, &mut asset.frames);
    let n = rest.len();
    let mut out: Vec<Frame> = Vec::new();
    let mut touched = false;
    let mut k: usize = 0;
    while k < n
        invariant
            n == old_frames.len(),
            k <= n,
            rest@ == old_frames.subrange(k as int, n as int),
            out@.len() == k,
            touched == exists|i: int| 0 <= i < k && any_match(#[trigger] old_frames[i].rgba@, color, tol),
            forall|i: int|
                0 <= i < k ==> {
                    let f0 = #[trigger] old_frames[i];
                    let f1 = out@[i];
                    &&& f1.rgba@ == keyed(f0.rgba@, color, tol)
                    &&& f1.width == f0.width
                    &&& f1.height == f0.height
                    &&& f1.delay_ms == f0.delay_ms
                },
        decreases n - k,
    {
        let mut f = rest.remove(0);
        proof {
            assert(f == old_frames[k as int]);
        }
        let hit = apply_frame(&mut f, color, tol);
        touched = touched || hit;
        out.push(f);
        proof {
            assert(rest@ =~= old_frames.subrange(k + 1, n as int));
        }
        k = k + 1;
    }
    asset.frames = out;
    touched
}

/// Keying is idempotent: keying an already keyed buffer changes nothing.
pub proof fn keying_is_idempotent(s: Seq<u8>, key: (u8, u8, u8), tol: u8)
    ensures
        keyed(keyed(s, key, tol), key, tol) == keyed(s, key, tol),
{
    let k1 = keyed(s, key, tol);
    assert forall|p: int| 0 <= p < pixel_count(s.len() as int) implies pixel_matches(k1, p, key, tol)
        == pixel_matches(s, p, key, tol) by {
        assert(k1[4 * p] == s[4 * p]);
        assert(k1[4 * p + 1] == s[4 * p + 1]);
        assert(k1[4 * p + 2] == s[4 * p + 2]);
    }
    assert(keyed(k1, key, tol) =~= k1);
}

/// Keying keeps every colour channel, so a pixel matches the key after
/// keying exactly when it did before.
pub proof fn lemma_keyed_matches(s: Seq<u8>, key: (u8, u8, u8), tol: u8)
    ensures
        any_match(keyed(s, key, tol), key, tol) == any_match(s, key, tol),
        forall|p: int|
            0 <= p < pixel_count(s.len() as int) ==> pixel_matches(keyed(s, key, tol), p, key, tol)
                == pixel_matches(s, p, key, tol),
{
    let k1 = keyed(s, key, tol);
    assert forall|p: int| 0 <= p < pixel_count(s.len() as int) implies pixel_matches(k1, p, key, tol)
        == pixel_matches(s, p, key, tol) by {
        assert(k1[4 * p] == s[4 * p]);
        assert(k1[4 * p + 1] == s[4 * p + 1]);
        assert(k1[4 * p + 2] == s[4 * p + 2]);
    }
    if any_match(s, key, tol) {
        let p = choose|p: int| 0 <= p < pixel_count(s.len() as int) && pixel_matches(s, p, key, tol);
        assert(pixel_matches(k1, p, key, tol));
    }
    if any_match(k1, key, tol) {
        let p = choose|p: int| 0 <= p < pixel_count(k1.len() as int) && pixel_matches(k1, p, key, tol);
        assert(pixel_matches(s, p, key, tol));
    }
}

/// Applying the same colour key twice changes nothing more: the second pass
/// leaves every frame as the first left it, and reports a change exactly
/// when the first did.
pub proof fn keying_twice_changes_nothing(
    f0: Seq<Frame>,
    f1: Seq<Frame>,
    f2: Seq<Frame>,
    c: (u8, u8, u8),
    tol: u8,
    t1: bool,
    t2: bool,
)
    requires
        keyed_frames(f0, f1, c, tol, t1),
        keyed_frames(f1, f2, c, tol, t2),
    ensures
        t2 == t1,
        f2.len() == f1.len(),
        forall|i: int|
            0 <= i < f1.len() ==> {
                &&& (#[trigger] f2[i]).rgba@ == f1[i].rgba@
                &&& f2[i].width == f1[i].width
                &&& f2[i].height == f1[i].height
                &&& f2[i].delay_ms == f1[i].delay_ms
            },
{
    assert forall|i: int| 0 <= i < f1.len() implies (#[trigger] f2[i]).rgba@ == f1[i].rgba@ by {
        let a = f0[i];
        keying_is_idempotent(a.rgba@, c, tol);
    }
    assert forall|i: int| 0 <= i < f1.len() implies any_match(#[trigger] f1[i].rgba@, c, tol)
        == any_match(f0[i].rgba@, c, tol) by {
        let a = f0[i];
        lemma_keyed_matches(a.rgba@, c, tol);
    }
    if t1 {
        let i = choose|i: int| 0 <= i < f0.len() && any_match(#[trigger] f0[i].rgba@, c, tol);
        assert(any_match(f1[i].rgba@, c, tol));
    }
    if t2 {
        let i = choose|i: int| 0 <= i < f1.len() && any_match(#[trigger] f1[i].rgba@, c, tol);
        assert(any_match(f0[i].rgba@, c, tol));
    }
}

/// Keying only ever touches alpha bytes, and only sets them to 0.
pub proof fn keying_only_clears_alpha(s: Seq<u8>, key: (u8, u8, u8), tol: u8, i: int)
    requires
        0 <= i < s.len(),
    ensures
        keyed(s, key, tol).len() == s.len(),
        i % 4 != 3 ==> keyed(s, key, tol)[i] == s[i],
        keyed(s, key, tol)[i] == s[i] || keyed(s, key, tol)[i] == 0,
{
}


} // verus!
