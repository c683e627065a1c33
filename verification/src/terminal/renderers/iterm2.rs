//! iTerm2 inline images.
//!
//! iTerm2 animates inline GIFs by itself, so an opaque GIF is sent once as
//! it is and never redrawn. Where transparency matters (a chroma-keyed
//! image, or a WebP source) the decoded frames are re-encoded as an animated
//! GIF; a still image, or an animation that cannot be re-encoded, is sent as
//! one PNG.
use vstd::prelude::*;

use crate::image::loader::{Frame, ImageAsset, SourceKind};
use crate::text::{append_dec, dec};

use super::{base64_encode, base64_of, Renderer};

verus! {

/// The PNG file that `image` writes for a `w` x `h` RGBA image.
pub uninterp spec fn png_of(w: u32, h: u32, rgba: Seq<u8>) -> Seq<u8>;

/// The animated GIF (repeating forever, quantizer speed 10) that `image`
/// writes for the frames `(width, height, rgba)` shown for the given
/// milliseconds each, or `None` where it refuses them (a side over 65535).
pub uninterp spec fn animated_gif_of(frames: Seq<(u32, u32, Seq<u8>)>, delays_ms: Seq<u32>) -> Option<Seq<u8>>;

/// Frames as plain values.
pub open spec fn frame_parts(frames: Seq<Frame>) -> Seq<(u32, u32, Seq<u8>)> {
    frames.map_values(|f: Frame| (f.width, f.height, f.rgba@))
}

/// `image::DynamicImage::ImageRgba8(..).write_to(.., ImageFormat::Png)`: the
/// PNG encoding of the frame, named [`png_of`]. A write error leaves what was
/// written so far, which the name covers as well.
#[verifier::external_body]
fn png_encode(f: &Frame) -> (r: Vec<u8>)
    requires
        f.wf(),
    ensures
        r@ == png_of(f.width, f.height, f.rgba@),
{
    let img = image::RgbaImage::from_raw(f.width, f.height, f.rgba.clone()).unwrap();
    let mut buf = Vec::new();
    let _ = image::DynamicImage::ImageRgba8(img).write_to(
        &mut std::io::Cursor::new(&mut buf),
        image::ImageFormat::Png,
    );
    buf
}

/// `image::codecs::gif::GifEncoder` (speed 10, `Repeat::Infinite`,
/// `encode_frames`): the animated GIF of the frames with the given delays,
/// named [`animated_gif_of`]; `None` where the encoder returns an error.
#[verifier::external_body]
fn gif_encode(frames: &Vec<Frame>, delays_ms: &Vec<u32>) -> (r: Option<Vec<u8>>)
    requires
        frames@.len() == delays_ms@.len(),
        forall|i: int| 0 <= i < frames@.len() ==> (#[trigger] frames@[i]).wf(),
    ensures
        match r {
            Some(b) => animated_gif_of(frame_parts(frames@), delays_ms@) == Some(b@),
            None => animated_gif_of(frame_parts(frames@), delays_ms@) is None,
        },
{
    let mut buf = Vec::new();
    {
        let mut enc = image::codecs::gif::GifEncoder::new_with_speed(&mut buf, 10);
        enc.set_repeat(image::codecs::gif::Repeat::Infinite).ok()?;
        let parts = frames.iter().zip(delays_ms.iter()).map(|(f, ms)| image::Frame::from_parts(
            image::RgbaImage::from_raw(f.width, f.height, f.rgba.clone()).unwrap(),
            0,
            0,
            image::Delay::from_numer_denom_ms(*ms, 1),
        ));
        enc.encode_frames(parts).ok()?;
    }
    Some(buf)
}

/// Some pixel of some frame is not fully opaque.
pub open spec fn frames_alpha(frames: Seq<Frame>) -> bool {
    exists|i: int, k: int|
        0 <= i < frames.len() && 0 <= k < frames[i].rgba@.len() / 4 && #[trigger] frames[i].rgba@[4
            * k + 3] < 255
}

/// Whether some pixel (four bytes; a trailing partial pixel is ignored) of
/// some frame is not fully opaque.
pub fn frames_have_alpha(frames: &Vec<Frame>) -> (b: bool)
    ensures
        b == frames_alpha(frames@),
{
    let mut i: usize = 0;
    while i < frames.len()
        invariant
            i <= frames@.len(),
            forall|a: int, k: int|
                0 <= a < i && 0 <= k < frames@[a].rgba@.len() / 4 ==> !(#[trigger] frames@[a].rgba@[4
                    * k + 3] < 255),
        decreases frames.len() - i,
    {
        let px = &frames[i].rgba;
        let n = px.len() / 4;
        assert(n == px@.len() / 4);
        let mut k: usize = 0;
        while k < n
            invariant
                i < frames@.len(),
                px@ == frames@[i as int].rgba@,
                n == px@.len() / 4,
                k <= n,
                forall|j: int| 0 <= j < k ==> !(#[trigger] px@[4 * j + 3] < 255),
            decreases n - k,
        {
            let total = px.len();
            assert(4 * k + 3 < total) by (nonlinear_arith)
                requires
                    k < n,
                    n == total / 4,
            ;
            if px[4 * k + 3] < 255 {
                return true;
            }
            k = k + 1;
        }
        i = i + 1;
    }
    false
}

/// How long a frame stays in the re-encoded GIF: its delay, at least 20 ms,
/// in a `u32` (wrapping as `as u32` does).
pub open spec fn gif_delay(delay_ms: u64) -> u32 {
    (if delay_ms < 20 {
        20
    } else {
        delay_ms
    }) as u32
}

/// The delays of the re-encoded GIF.
pub fn gif_delays(frames: &Vec<Frame>) -> (r: Vec<u32>)
    ensures
        r@.len() == frames@.len(),
        forall|i: int| 0 <= i < frames@.len() ==> r@[i] == gif_delay(#[trigger] frames@[i].delay_ms),
{
    let mut r: Vec<u32> = Vec::new();
    let mut i: usize = 0;
    while i < frames.len()
        invariant
            i <= frames@.len(),
            r@.len() == i,
            forall|j: int| 0 <= j < i ==> r@[j] == gif_delay(#[trigger] frames@[j].delay_ms),
        decreases frames.len() - i,
    {
        let d = frames[i].delay_ms;
        let m: u64 = if d < 20 {
            20
        } else {
            d
        };
        r.push(m as u32);
        i = i + 1;
    }
    r
}

/// The bytes sent to iTerm2: the file itself for an opaque GIF, else an
/// animated GIF of the frames (a PNG of the first frame where that fails),
/// else a PNG of the only frame.
pub open spec fn payload_of(a: ImageAsset) -> Seq<u8> {
    let f0 = a.frames@[0];
    let png = png_of(f0.width, f0.height, f0.rgba@);
    if a.kind == SourceKind::Gif && !frames_alpha(a.frames@) {
        a.raw@
    } else if a.frames@.len() > 1 {
        match animated_gif_of(
            frame_parts(a.frames@),
            a.frames@.map_values(|f: Frame| gif_delay(f.delay_ms)),
        ) {
            Some(b) => b,
            None => png,
        }
    } else {
        png
    }
}

/// The re-encoding of the frames: an animated GIF of all of them (each
/// shown for its delay, at least 20 ms) where there are several and the
/// encoder takes them, else a PNG of the first.
pub open spec fn reencoded(frames: Seq<Frame>) -> Seq<u8> {
    let f0 = frames[0];
    let png = png_of(f0.width, f0.height, f0.rgba@);
    if frames.len() > 1 {
        match animated_gif_of(frame_parts(frames), frames.map_values(|f: Frame| gif_delay(f.delay_ms))) {
            Some(b) => b,
            None => png,
        }
    } else {
        png
    }
}

/// Transparency is never lost on iTerm2: where some pixel of some frame
/// (a chroma-keyed background, say) is not fully opaque, the payload is the
/// re-encoding of the frames, never the file's own bytes; only an opaque GIF
/// goes as the file itself.
pub proof fn transparent_images_are_reencoded(a: ImageAsset, i: int, k: int)
    requires
        0 <= i < a.frames@.len(),
        0 <= k < a.frames@[i].rgba@.len() / 4,
        a.frames@[i].rgba@[4 * k + 3] < 255,
    ensures
        payload_of(a) == reencoded(a.frames@),
{
    assert(frames_alpha(a.frames@));
}

/// The base64 text of `bytes` fits in memory.
pub open spec fn encodable(bytes: Seq<u8>) -> bool {
    (bytes.len() / 3) * 4 + 4 <= usize::MAX
}

/// Sends the image once; iTerm2 animates a GIF by itself.
pub struct Iterm2Renderer {
    pub bytes: Vec<u8>,
    pub cols: u16,
    pub rows: u16,
    pub emitted: bool,
}

impl Iterm2Renderer {
    /// A renderer for `asset` in an area `area_cells` (columns, rows) large.
    pub fn new(asset: ImageAsset, area_cells: (u16, u16)) -> (r: Iterm2Renderer)
        requires
            asset.wf(),
        ensures
            r.bytes@ == payload_of(asset),
            (exists|i: int, k: int|
                0 <= i < asset.frames@.len() && 0 <= k < asset.frames@[i].rgba@.len() / 4
                    && #[trigger] asset.frames@[i].rgba@[4 * k + 3] < 255) ==> r.bytes@ == reencoded(
                asset.frames@,
            ),
            asset.kind == SourceKind::Gif && (forall|i: int, k: int|
                0 <= i < asset.frames@.len() && 0 <= k < asset.frames@[i].rgba@.len() / 4
                    ==> #[trigger] asset.frames@[i].rgba@[4 * k + 3] == 255) ==> r.bytes@ == asset.raw@,
            asset.kind != SourceKind::Gif ==> r.bytes@ == reencoded(asset.frames@),
            r.cols == area_cells.0,
            r.rows == area_cells.1,
            !r.emitted,
    {
        let (cols, rows) = area_cells;
        let has_alpha = frames_have_alpha(&asset.frames);
        let bytes = if asset.kind == SourceKind::Gif && !has_alpha {
            asset.raw
        } else if asset.frames.len() > 1 {
            let delays = gif_delays(&asset.frames);
            proof {
                assert(delays@ =~= asset.frames@.map_values(|f: Frame| gif_delay(f.delay_ms)));
            }
            match gif_encode(&asset.frames, &delays) {
                Some(b) => b,
                None => png_encode(&asset.frames[0]),
            }
        } else {
            png_encode(&asset.frames[0])
        };
        Iterm2Renderer { bytes, cols, rows, emitted: false }
    }

    /// Whether the payload's base64 text fits in memory, so that it can be
    /// drawn.
    pub fn drawable(&self) -> (b: bool)
        ensures
            b == encodable(self.bytes@),
    {
        self.bytes.len() / 3 <= (usize::MAX - 4) / 4
    }
}

/// The inline-image escape: back to the anchor, then `OSC 1337 File=` with
/// the size in cells and the base64 payload.
pub open spec fn inline_text(bytes: Seq<u8>, cols: u16, rows: u16) -> Seq<char> {
    "\x1b8"@ + "\x1b]1337;File=inline=1;preserveAspectRatio=1;width="@ + dec(cols as nat)
        + ";height="@ + dec(rows as nat) + ":"@ + base64_of(bytes) + "\x07"@
}

impl Renderer for Iterm2Renderer {
    open spec fn frames_len(&self) -> nat {
        1
    }

    open spec fn ready(&self) -> bool {
        encodable(self.bytes@)
    }

    /// The first call sends the image; later calls send nothing. Each asks
    /// to be called again in 500 ms.
    fn render_frame(&mut self, frame_idx: usize) -> (r: (String, u64))
        ensures
            r.0@ == if old(self).emitted {
                Seq::empty()
            } else {
                inline_text(old(self).bytes@, old(self).cols, old(self).rows)
            },
            r.1 == 500,
            final(self).emitted,
            final(self).bytes@ == old(self).bytes@,
            final(self).cols == old(self).cols,
            final(self).rows == old(self).rows,
    {
        if self.emitted {
            return (String::new(), 500);
        }
        let mut out = String::new();
        out.append("\x1b8");
        out.append("\x1b]1337;File=inline=1;preserveAspectRatio=1;width=");
        append_dec(&mut out, self.cols as u64);
        out.append(";height=");
        append_dec(&mut out, self.rows as u64);
        out.append(":");
        let payload = base64_encode(self.bytes.as_slice());
        out.append(payload.as_str());
        out.append("\x07");
        self.emitted = true;
        (out, 500)
    }

    fn frame_count(&self) -> (n: usize) {
        1
    }
}

} // verus!
