//! Renderers: the escape sequences that draw one frame of the image.
//!
//! The caller has saved the cursor (DECSC, `ESC 7`) at the top-left of the
//! image area; a frame's drawing restores it (`ESC 8`) before positioning.
pub mod ansi;
pub mod iterm2;
pub mod kitty;

use vstd::prelude::*;

use crate::image::{Frame, ImageAsset};
use crate::terminal::detect::Protocol;
use crate::text::is_ascii_seq;

pub use ansi::AnsiRenderer;
pub use iterm2::Iterm2Renderer;
pub use kitty::KittyRenderer;



verus! {

/// The character of the standard base64 alphabet (RFC 4648: `A-Z`, `a-z`,
/// `0-9`, `+`, `/`) for the six-bit value `v`.
pub open spec fn b64_char(v: int) -> char {
    if v < 26 {
        (65 + v) as char
    } else if v < 52 {
        (97 + v - 26) as char
    } else if v < 62 {
        (48 + v - 52) as char
    } else if v == 62 {
        '+'
    } else {
        '/'
    }
}

/// The standard base64 encoding of `bytes`: each group of three bytes
/// becomes four characters of six bits each; a last group of one or two
/// bytes is padded with zero bits and `=` to four characters. Opaque: proofs
/// that do not look inside the text need not unfold it.
#[verifier::opaque]
pub open spec fn base64_of(bytes: Seq<u8>) -> Seq<char>
    decreases bytes.len(),
{
    if bytes.len() == 0 {
        Seq::empty()
    } else if bytes.len() == 1 {
        let a = bytes[0] as int;
        seq![b64_char(a / 4), b64_char((a % 4) * 16), '=', '=']
    } else if bytes.len() == 2 {
        let a = bytes[0] as int;
        let b = bytes[1] as int;
        seq![b64_char(a / 4), b64_char((a % 4) * 16 + b / 16), b64_char((b % 16) * 4), '=']
    } else {
        let a = bytes[0] as int;
        let b = bytes[1] as int;
        let c = bytes[2] as int;
        seq![
            b64_char(a / 4),
            b64_char((a % 4) * 16 + b / 16),
            b64_char((b % 16) * 4 + c / 64),
            b64_char(c % 64),
        ] + base64_of(bytes.subrange(3, bytes.len() as int))
    }
}

/// Base64 text is ASCII, four characters per started group of three bytes.
pub proof fn lemma_base64_shape(bytes: Seq<u8>)
    ensures
        is_ascii_seq(base64_of(bytes)),
        base64_of(bytes).len() == ((bytes.len() + 2) / 3) * 4,
    decreases bytes.len(),
{
    reveal(base64_of);
    let t = base64_of(bytes);
    if bytes.len() >= 3 {
        let rest = bytes.subrange(3, bytes.len() as int);
        lemma_base64_shape(rest);
        let head = t.subrange(0, 4);
        assert(t.subrange(4, t.len() as int) =~= base64_of(rest));
        assert forall|i: int| 0 <= i < t.len() implies (#[trigger] t[i] as u32) < 128 by {
            if i >= 4 {
                assert(t[i] == base64_of(rest)[i - 4]);
            }
        }
    }
}

/// `base64::engine::general_purpose::STANDARD.encode`: the padded standard
/// base64 text of `bytes` ([`base64_of`]). The encoder panics when the
/// text's length does not fit in `usize`, which `requires` rules out.
#[verifier::external_body]
fn standard_encode(bytes: &[u8]) -> (r: String)
    requires
        (bytes@.len() / 3) * 4 + 4 <= usize::MAX,
    ensures
        r@ == base64_of(bytes@),
{
    base64::Engine::encode(&base64::engine::general_purpose::STANDARD, bytes)
}

/// The base64 text of `bytes`, which is ASCII and four characters long per
/// started group of three bytes.
pub(crate) fn base64_encode(bytes: &[u8]) -> (r: String)
    requires
        (bytes@.len() / 3) * 4 + 4 <= usize::MAX,
    ensures
        r@ == base64_of(bytes@),
        is_ascii_seq(r@),
        r@.len() == ((bytes@.len() + 2) / 3) * 4,
{
    let r = standard_encode(bytes);
    proof {
        lemma_base64_shape(bytes@);
    }
    r
}

/// Draws the frames of an animation.
pub trait Renderer: Sized {
    /// Number of frames the renderer can draw.
    spec fn frames_len(&self) -> nat;

    /// The renderer's state is well formed.
    spec fn ready(&self) -> bool;

    /// The text that draws frame `frame_idx`, and how long (ms) it should stay.
    fn render_frame(&mut self, frame_idx: usize) -> (r: (String, u64))
        requires
            old(self).ready(),
            frame_idx < old(self).frames_len(),
        ensures
            final(self).ready(),
            final(self).frames_len() == old(self).frames_len(),
    ;

    /// Number of frames.
    fn frame_count(&self) -> (n: usize)
        ensures
            n == self.frames_len(),
    ;

    /// Text that cleans up when the program is done (nothing by default).
    fn finish(&mut self) -> (s: String)
        requires
            old(self).ready(),
        ensures
            final(self).ready(),
            final(self).frames_len() == old(self).frames_len(),
        default_ensures
            s@ == Seq::<char>::empty(),
            *final(self) == *old(self),
    {
        String::new()
    }
}


/// The pixels of a `w` x `h` RGBA image resampled to `nw` x `nh` with the
/// triangle filter.
pub uninterp spec fn resized_of(w: u32, h: u32, rgba: Seq<u8>, nw: u32, nh: u32) -> Seq<u8>;

/// A frame whose buffer matches its size and fits in half the address
/// space, as every buffer that `Vec` can hold does.
pub open spec fn scaled_ok(f: Frame) -> bool {
    f.wf() && f.rgba@.len() <= isize::MAX
}

/// `image::imageops::resize(.., FilterType::Triangle)`: the frame's pixels
/// resampled to `nw` x `nh` (named [`resized_of`]); the new buffer holds
/// exactly `nw * nh` RGBA pixels. The vertical pass runs first, into a
/// `w` x `nh` buffer of `f32` channels, then the horizontal pass into the
/// `nw` x `nh` result; `ImageBuffer::new` panics where a buffer's length
/// overflows, so `requires` keeps both within what a buffer can hold: the
/// intermediate's `w * nh * 4` floats (`w * nh * 16` bytes) and the result's
/// `nw * nh * 4` bytes.
#[verifier::external_body]
fn resize_rgba(f: &Frame, nw: u32, nh: u32) -> (r: Vec<u8>)
    requires
        f.wf(),
        nw as int * nh as int * 4 <= isize::MAX,
        f.width as int * nh as int * 16 <= isize::MAX,
    ensures
        r@ == resized_of(f.width, f.height, f.rgba@, nw, nh),
        r@.len() == nw as int * nh as int * 4,
{
    let src = image::RgbaImage::from_raw(f.width, f.height, f.rgba.clone()).unwrap();
    image::imageops::resize(&src, nw, nh, image::imageops::FilterType::Triangle).into_raw()
}

/// Frame `f` resampled to `nw` x `nh`, keeping its delay.
pub fn scale_frame(f: &Frame, nw: u32, nh: u32) -> (r: Frame)
    requires
        f.wf(),
        nw as int * nh as int * 4 <= isize::MAX,
        f.width as int * nh as int * 16 <= isize::MAX,
    ensures
        r.width == nw,
        r.height == nh,
        r.rgba@ == resized_of(f.width, f.height, f.rgba@, nw, nh),
        r.delay_ms == f.delay_ms,
        scaled_ok(r),
{
    let rgba = resize_rgba(f, nw, nh);
    Frame { width: nw, height: nh, rgba, delay_ms: f.delay_ms }
}

/// A renderer for one of the protocols.
pub enum AnyRenderer {
    Kitty(KittyRenderer),
    Iterm2(Iterm2Renderer),
    Ansi(AnsiRenderer),
}

impl AnyRenderer {
    /// The text that drawing frame `idx` writes, as the chosen renderer draws it.
    pub open spec fn drawn_text(self, idx: int) -> Seq<char> {
        match self {
            AnyRenderer::Kitty(k) => kitty::draw_text(k, idx),
            AnyRenderer::Iterm2(t) => if t.emitted {
                Seq::empty()
            } else {
                iterm2::inline_text(t.bytes@, t.cols, t.rows)
            },
            AnyRenderer::Ansi(a) => ansi::frame_text(a.frames@[idx].img, a.frames@[idx].rows as nat),
        }
    }

    /// How long (ms) frame `idx` stays, as the chosen renderer says.
    pub open spec fn drawn_delay(self, idx: int) -> u64 {
        match self {
            AnyRenderer::Kitty(k) => k.frames@[idx].delay_ms,
            AnyRenderer::Iterm2(t) => 500,
            AnyRenderer::Ansi(a) => a.frames@[idx].img.delay_ms,
        }
    }

    /// `after` is this renderer once frame `idx` has been drawn: the same
    /// kind; Kitty has uploaded everything and placed the frame, iTerm2 has
    /// sent its image, ANSI is unchanged.
    pub open spec fn drawn_into(self, after: Self, idx: int) -> bool {
        match self {
            AnyRenderer::Kitty(k) => after matches AnyRenderer::Kitty(k2) && {
                &&& k2.frames@ == k.frames@
                &&& k2.base_id == k.base_id
                &&& k2.placement_id == k.placement_id
                &&& k2.cols == k.cols
                &&& k2.uploaded == kitty::drawn_state(k, idx).uploaded
                &&& k2.prev_placed == kitty::drawn_state(k, idx).prev_placed
            },
            AnyRenderer::Iterm2(t) => after matches AnyRenderer::Iterm2(t2) && {
                &&& t2.emitted
                &&& t2.bytes@ == t.bytes@
                &&& t2.cols == t.cols
                &&& t2.rows == t.rows
            },
            AnyRenderer::Ansi(a) => after == self,
        }
    }

    /// The clean-up text: Kitty deletes its uploaded images; the others write nothing.
    pub open spec fn finish_text(self) -> Seq<char> {
        match self {
            AnyRenderer::Kitty(k) => kitty::deletes_text(k.base_id, k.frames@.len()),
            _ => Seq::empty(),
        }
    }
}

impl Renderer for AnyRenderer {
    open spec fn frames_len(&self) -> nat {
        match self {
            AnyRenderer::Kitty(r) => r.frames_len(),
            AnyRenderer::Iterm2(r) => r.frames_len(),
            AnyRenderer::Ansi(r) => r.frames_len(),
        }
    }

    open spec fn ready(&self) -> bool {
        match self {
            AnyRenderer::Kitty(r) => r.ready(),
            AnyRenderer::Iterm2(r) => r.ready(),
            AnyRenderer::Ansi(r) => r.ready(),
        }
    }

    fn render_frame(&mut self, frame_idx: usize) -> (r: (String, u64))
        ensures
            r.0@ == old(self).drawn_text(frame_idx as int),
            r.1 == old(self).drawn_delay(frame_idx as int),
            old(self).drawn_into(*final(self), frame_idx as int),
    {
        match self {
            AnyRenderer::Kitty(r) => r.render_frame(frame_idx),
            AnyRenderer::Iterm2(r) => r.render_frame(frame_idx),
            AnyRenderer::Ansi(r) => r.render_frame(frame_idx),
        }
    }

    fn frame_count(&self) -> (n: usize) {
        match self {
            AnyRenderer::Kitty(r) => r.frame_count(),
            AnyRenderer::Iterm2(r) => r.frame_count(),
            AnyRenderer::Ansi(r) => r.frame_count(),
        }
    }

    fn finish(&mut self) -> (s: String)
        ensures
            s@ == old(self).finish_text(),
            *final(self) == *old(self),
    {
        match self {
            AnyRenderer::Kitty(r) => r.finish(),
            AnyRenderer::Iterm2(r) => r.finish(),
            AnyRenderer::Ansi(r) => r.finish(),
        }
    }
}

/// The renderer for protocol `proto` (ANSI also where images are off):
/// Kitty and ANSI draw the frames already resampled for the area
/// (`prepared`), iTerm2 sends the asset itself; Kitty's image ids start at
/// `base_id`.
pub fn build(proto: Protocol, asset: ImageAsset, prepared: Vec<Frame>, area_cells: (u16, u16), base_id: u32) -> (r: AnyRenderer)
    requires
        asset.wf(),
        forall|i: int| 0 <= i < prepared@.len() ==> scaled_ok(#[trigger] prepared@[i]),
    ensures
        proto == Protocol::Kitty ==> (r matches AnyRenderer::Kitty(k) && k.frames@ == prepared@
            && k.base_id == base_id && k.cols == area_cells.0 && k.placement_id == 1 && !k.uploaded
            && k.prev_placed is None),
        proto == Protocol::Iterm2 ==> (r matches AnyRenderer::Iterm2(t) && t.bytes@
            == iterm2::payload_of(asset) && t.cols == area_cells.0 && t.rows == area_cells.1
            && !t.emitted),
        (proto == Protocol::Ansi || proto == Protocol::Off) ==> (r matches AnyRenderer::Ansi(a)
            && a.frames@.len() == prepared@.len() && forall|i: int|
            0 <= i < prepared@.len() ==> (#[trigger] a.frames@[i]).img == prepared@[i]
                && a.frames@[i].rows == ((prepared@[i].height / 2) as u16)),
        proto != Protocol::Iterm2 ==> r.ready() && r.frames_len() == prepared@.len(),
{
    match proto {
        Protocol::Kitty => {
            proof {
                assert forall|i: int| 0 <= i < prepared@.len() implies kitty::encodable(
                    #[trigger] prepared@[i],
                ) by {
                    assert(scaled_ok(prepared@[i]));
                }
            }
            AnyRenderer::Kitty(KittyRenderer::new(prepared, area_cells.0, base_id))
        },
        Protocol::Iterm2 => AnyRenderer::Iterm2(Iterm2Renderer::new(asset, area_cells)),
        _ => {
            proof {
                assert forall|i: int| 0 <= i < prepared@.len() implies (#[trigger] prepared@[i]).wf() by {
                    assert(scaled_ok(prepared@[i]));
                }
            }
            AnyRenderer::Ansi(AnsiRenderer::new(prepared))
        },
    }
}

} // verus!
