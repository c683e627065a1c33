//! Image assets: the frames decoded from a gif / webp / png / jpg file.
use vstd::prelude::*;

use vstd::arithmetic::div_mod::{
    lemma_fundamental_div_mod, lemma_fundamental_div_mod_converse_div,
    lemma_fundamental_div_mod_converse_mod,
};

verus! {

/// A single frame in RGBA8 form, with the delay to wait before drawing the next.
pub struct Frame {
    pub width: u32,
    pub height: u32,
    pub rgba: Vec<u8>,
    /// Delay before the next frame, in milliseconds.
    pub delay_ms: u64,
}

impl Frame {
    /// The pixel buffer holds exactly `width * height` RGBA pixels.
    pub open spec fn wf(&self) -> bool {
        self.rgba@.len() == self.width * self.height * 4
    }
}

/// Which decoder produced the frames.
#[derive(Clone, Copy, PartialEq, Eq, Debug, Structural)]
pub enum SourceKind {
    Gif,
    Webp,
    Static,
}

/// A decoded image: its frames and the file's own bytes.
pub struct ImageAsset {
    pub kind: SourceKind,
    pub frames: Vec<Frame>,
    /// The file as read — useful for protocols that accept the file directly (iTerm2 gif).
    pub raw: Vec<u8>,
}

impl ImageAsset {
    /// At least one frame, and every frame well formed.
    pub open spec fn wf(&self) -> bool {
        &&& self.frames@.len() >= 1
        &&& forall|i: int| 0 <= i < self.frames@.len() ==> (#[trigger] self.frames@[i]).wf()
    }
}


/// Pixel `(x, y)` of a `w` x `h` RGBA buffer starts at byte `(y * w + x) * 4`,
/// which lies inside the buffer.
pub proof fn lemma_pixel_offset(w: int, h: int, x: int, y: int)
    requires
        0 <= x < w,
        0 <= y < h,
    ensures
        0 <= y * w <= (h - 1) * w,
        y * w + x < w * h,
        0 <= (y * w + x) * 4,
        (y * w + x) * 4 + 3 < w * h * 4,
{
    assert(0 <= y * w <= (h - 1) * w) by (nonlinear_arith)
        requires
            0 <= y < h,
            0 <= w,
    ;
    assert((h - 1) * w + w == w * h) by (nonlinear_arith);
}


/// How a GIF frame's area is treated once the frame has been shown.
#[derive(Clone, Copy, Debug, PartialEq, Eq, Structural)]
pub enum Dispose {
    /// No disposal specified.
    Any,
    /// Leave the frame in place.
    Keep,
    /// Clear the frame's area to transparent.
    Background,
    /// Restore the canvas as it was before the frame.
    Previous,
}

/// One decoded GIF frame: its rectangle on the canvas, RGBA pixels, delay
/// (in 10 ms units) and disposal.
pub struct GifFrame {
    pub left: u16,
    pub top: u16,
    pub width: u16,
    pub height: u16,
    pub delay: u16,
    pub dispose: Dispose,
    pub buffer: Vec<u8>,
}

/// A GIF frame as plain values.
pub struct GifFrameV {
    pub left: int,
    pub top: int,
    pub width: int,
    pub height: int,
    pub delay: u16,
    pub dispose: Dispose,
    pub buffer: Seq<u8>,
}

impl GifFrame {
    pub open spec fn view(&self) -> GifFrameV {
        GifFrameV {
            left: self.left as int,
            top: self.top as int,
            width: self.width as int,
            height: self.height as int,
            delay: self.delay,
            dispose: self.dispose,
            buffer: self.buffer@,
        }
    }
}

/// The frames' views.
pub open spec fn gif_views(v: Seq<GifFrame>) -> Seq<GifFrameV> {
    v.map_values(|f: GifFrame| f.view())
}

/// The frame lies inside a `cw` x `ch` canvas, its buffer holds exactly its
/// pixels, and every byte offset of either fits in a `u32`.
pub open spec fn frame_fits(f: GifFrameV, cw: int, ch: int) -> bool {
    &&& f.left + f.width <= cw
    &&& f.top + f.height <= ch
    &&& f.buffer.len() == f.width * f.height * 4
    &&& cw * ch * 4 < 0x1_0000_0000
}

/// Canvas pixel `(x, y)` lies in the frame's rectangle.
pub open spec fn in_rect(f: GifFrameV, x: int, y: int) -> bool {
    f.left <= x < f.left + f.width && f.top <= y < f.top + f.height
}

/// Offset in the frame's buffer of canvas pixel `(x, y)`.
pub open spec fn src_offset(f: GifFrameV, x: int, y: int) -> int {
    ((y - f.top) * f.width + (x - f.left)) * 4
}

/// The pixel has been drawn once the frame's rows before `r`, and the first
/// `c` pixels of row `r`, are drawn.
pub open spec fn drawn(f: GifFrameV, x: int, y: int, r: int, c: int) -> bool {
    in_rect(f, x, y) && (y - f.top < r || (y - f.top == r && x - f.left < c))
}

/// The canvas with the frame's opaque pixels drawn up to row `r`, column
/// `c` (a pixel with alpha 0 leaves the canvas as it was).
pub open spec fn drawn_upto(old: Seq<u8>, cw: int, f: GifFrameV, r: int, c: int) -> Seq<u8> {
    Seq::new(
        old.len(),
        |i: int|
            {
                let x = (i / 4) % cw;
                let y = (i / 4) / cw;
                if drawn(f, x, y, r, c) && f.buffer[src_offset(f, x, y) + 3] != 0 {
                    f.buffer[src_offset(f, x, y) + i % 4]
                } else {
                    old[i]
                }
            },
    )
}

/// The canvas with the whole frame drawn over it.
pub open spec fn composited(old: Seq<u8>, cw: int, f: GifFrameV) -> Seq<u8> {
    drawn_upto(old, cw, f, f.height, 0)
}

/// The canvas with the frame's rows before `r` cleared to transparent black.
pub open spec fn cleared_upto(old: Seq<u8>, cw: int, f: GifFrameV, r: int) -> Seq<u8> {
    Seq::new(
        old.len(),
        |i: int|
            {
                let x = (i / 4) % cw;
                let y = (i / 4) / cw;
                if in_rect(f, x, y) && y - f.top < r {
                    0u8
                } else {
                    old[i]
                }
            },
    )
}

/// The canvas with the frame's rectangle cleared to transparent black.
pub open spec fn cleared(old: Seq<u8>, cw: int, f: GifFrameV) -> Seq<u8> {
    cleared_upto(old, cw, f, f.height)
}

/// Byte `k` of canvas pixel `(x, y)` is byte `(y * cw + x) * 4 + k`, and
/// that byte names the pixel back.
pub proof fn lemma_byte_pixel(cw: int, x: int, y: int, k: int)
    requires
        0 <= x < cw,
        0 <= y,
        0 <= k < 4,
    ensures
        ((y * cw + x) * 4 + k) / 4 == y * cw + x,
        ((y * cw + x) * 4 + k) % 4 == k,
        (y * cw + x) % cw == x,
        (y * cw + x) / cw == y,
{
    let p = y * cw + x;
    assert((y * cw + x) * 4 + k == p * 4 + k);
    lemma_fundamental_div_mod_converse_div(p * 4 + k, 4, p, k);
    lemma_fundamental_div_mod_converse_mod(p * 4 + k, 4, p, k);
    lemma_fundamental_div_mod_converse_div(p, cw, y, x);
    lemma_fundamental_div_mod_converse_mod(p, cw, y, x);
}

/// Every byte offset splits into its pixel's row, column and byte.
pub proof fn lemma_byte_split(cw: int, i: int)
    requires
        cw > 0,
        i >= 0,
    ensures
        i == ((i / 4) / cw * cw + (i / 4) % cw) * 4 + i % 4,
        0 <= (i / 4) % cw < cw,
        0 <= (i / 4) / cw,
        0 <= i % 4 < 4,
{
    lemma_fundamental_div_mod(i, 4);
    lemma_fundamental_div_mod(i / 4, cw);
    assert(i / 4 == cw * ((i / 4) / cw) + (i / 4) % cw);
    assert((i / 4) / cw * cw == cw * ((i / 4) / cw)) by (nonlinear_arith);
    assert(0 <= (i / 4) / cw) by (nonlinear_arith)
        requires
            cw > 0,
            i / 4 >= 0,
    ;
}

/// Draws the frame's opaque pixels onto the canvas (GIF alpha is all or
/// nothing, so an opaque pixel replaces what is below it).
pub fn composite(canvas: &mut Vec<u8>, canvas_w: u32, canvas_h: u32, frame: &GifFrame)
    requires
        frame_fits(frame.view(), canvas_w as int, canvas_h as int),
        old(canvas)@.len() == canvas_w * canvas_h * 4,
    ensures
        final(canvas)@ == composited(old(canvas)@, canvas_w as int, frame.view()),
{
    let ghost f = frame.view();
    let ghost orig = canvas@;
    let ghost cw = canvas_w as int;
    let fx = frame.left as u32;
    let fy = frame.top as u32;
    let fw = frame.width as u32;
    let fh = frame.height as u32;
    proof {
        assert(canvas@ =~= drawn_upto(orig, cw, f, 0, 0));
        assert(fw as int * fh as int * 4 < 0x1_0000_0000) by (nonlinear_arith)
            requires
                fx + fw <= canvas_w,
                fy + fh <= canvas_h,
                canvas_w as int * canvas_h as int * 4 < 0x1_0000_0000,
        ;
    }
    let mut row: u32 = 0;
    while row < fh
        invariant
            f == frame.view(),
            cw == canvas_w as int,
            fx == f.left,
            fy == f.top,
            fw == f.width,
            fh == f.height,
            frame_fits(f, cw, canvas_h as int),
            orig.len() == canvas_w * canvas_h * 4,
            fw as int * fh as int * 4 < 0x1_0000_0000,
            row <= fh,
            canvas@ == drawn_upto(orig, cw, f, row as int, 0),
        decreases fh - row,
    {
        let mut col: u32 = 0;
        while col < fw
            invariant
                f == frame.view(),
                cw == canvas_w as int,
                fx == f.left,
                fy == f.top,
                fw == f.width,
                fh == f.height,
                frame_fits(f, cw, canvas_h as int),
                orig.len() == canvas_w * canvas_h * 4,
                fw as int * fh as int * 4 < 0x1_0000_0000,
                row < fh,
                col <= fw,
                canvas@ == drawn_upto(orig, cw, f, row as int, col as int),
            decreases fw - col,
        {
            assert((row as int * fw as int + col as int) * 4 + 4 <= fw as int * fh as int * 4)
                by (nonlinear_arith)
                requires
                    row < fh,
                    col < fw,
            ;
            let x = fx + col;
            let y = fy + row;
            assert((y as int * canvas_w as int + x as int) * 4 + 4 <= canvas_w as int * canvas_h as int * 4)
                by (nonlinear_arith)
                requires
                    y < canvas_h,
                    x < canvas_w,
            ;
            let src = ((row * fw + col) * 4) as usize;
            let dst = ((y * canvas_w + x) * 4) as usize;
            let a = frame.buffer[src + 3];
            let ghost before = canvas@;
            if a != 0 {
                let mut k: usize = 0;
                while k < 4
                    invariant
                        k <= 4,
                        dst + 4 <= canvas@.len(),
                        canvas@.len() < 0x1_0000_0000,
                        frame.buffer@.len() < 0x1_0000_0000,
                        src + 4 <= frame.buffer@.len(),
                        canvas@.len() == before.len(),
                        forall|i: int|
                            0 <= i < canvas@.len() ==> #[trigger] canvas@[i] == if dst <= i < dst + k {
                                frame.buffer@[src + (i - dst)]
                            } else {
                                before[i]
                            },
                    decreases 4 - k,
                {
                    let b = frame.buffer[src + k];
                    canvas.set(dst + k, b);
                    k = k + 1;
                }
            }
            proof {
                let next = drawn_upto(orig, cw, f, row as int, col + 1);
                assert forall|i: int| 0 <= i < canvas@.len() implies #[trigger] canvas@[i] == next[i] by {
                    lemma_byte_split(cw, i);
                    let px = (i / 4) % cw;
                    let py = (i / 4) / cw;
                    if px == x && py == y {
                        lemma_byte_pixel(cw, x as int, y as int, i % 4);
                        assert(src_offset(f, px, py) == src);
                    } else {
                        lemma_byte_pixel(cw, px, py, i % 4);
                        lemma_byte_pixel(cw, x as int, y as int, 0);
                        if dst <= i < dst + 4 {
                            lemma_byte_pixel(cw, x as int, y as int, i - dst);
                        }
                    }
                }
                assert(canvas@ =~= next);
            }
            col = col + 1;
        }
        proof {
            assert(drawn_upto(orig, cw, f, row as int, fw as int) =~= drawn_upto(
                orig,
                cw,
                f,
                row + 1,
                0,
            ));
        }
        row = row + 1;
    }
}

/// Clears the frame's rectangle to transparent black.
pub fn clear_rect(canvas: &mut Vec<u8>, canvas_w: u32, canvas_h: u32, frame: &GifFrame)
    requires
        frame_fits(frame.view(), canvas_w as int, canvas_h as int),
        old(canvas)@.len() == canvas_w * canvas_h * 4,
    ensures
        final(canvas)@ == cleared(old(canvas)@, canvas_w as int, frame.view()),
{
    let ghost f = frame.view();
    let ghost orig = canvas@;
    let ghost cw = canvas_w as int;
    let fx = frame.left as u32;
    let fy = frame.top as u32;
    let fw = frame.width as u32;
    let fh = frame.height as u32;
    proof {
        assert(canvas@ =~= cleared_upto(orig, cw, f, 0));
    }
    let mut row: u32 = 0;
    while row < fh
        invariant
            f == frame.view(),
            cw == canvas_w as int,
            fx == f.left,
            fy == f.top,
            fw == f.width,
            fh == f.height,
            frame_fits(f, cw, canvas_h as int),
            orig.len() == canvas_w * canvas_h * 4,
            row <= fh,
            canvas@ == cleared_upto(orig, cw, f, row as int),
        decreases fh - row,
    {
        let y = fy + row;
        assert((y as int * canvas_w as int + fx as int + fw as int) * 4 <= canvas_w as int
            * canvas_h as int * 4) by (nonlinear_arith)
            requires
                y < canvas_h,
                fx + fw <= canvas_w,
        ;
        let start = ((y * canvas_w + fx) * 4) as usize;
        let end = start + (fw * 4) as usize;
        let ghost before = canvas@;
        let mut b = start;
        while b < end
            invariant
                start <= b <= end,
                end <= canvas@.len(),
                canvas@.len() == before.len(),
                forall|i: int|
                    0 <= i < canvas@.len() ==> #[trigger] canvas@[i] == if start <= i < b {
                        0u8
                    } else {
                        before[i]
                    },
            decreases end - b,
        {
            canvas.set(b, 0);
            b = b + 1;
        }
        proof {
            let next = cleared_upto(orig, cw, f, row + 1);
            assert forall|i: int| 0 <= i < canvas@.len() implies #[trigger] canvas@[i] == next[i] by {
                lemma_byte_split(cw, i);
                let px = (i / 4) % cw;
                let py = (i / 4) / cw;
                if py == y && fx <= px < fx + fw {
                    assert(i == (py * cw + px) * 4 + i % 4);
                    assert(start == (py * cw + fx) * 4);
                    assert(start <= i < end) by (nonlinear_arith)
                        requires
                            i == (py * cw + px) * 4 + i % 4,
                            start == (py * cw + fx) * 4,
                            end == start + fw * 4,
                            fx <= px < fx + fw,
                            0 <= i % 4 < 4,
                    ;
                } else if start <= i < end {
                    let m = i - start;
                    let q = m / 4;
                    lemma_fundamental_div_mod(m, 4);
                    assert(0 <= q < fw) by (nonlinear_arith)
                        requires
                            m == 4 * q + m % 4,
                            0 <= m % 4 < 4,
                            0 <= m < fw * 4,
                    ;
                    assert(i == (y * cw + (fx + q)) * 4 + m % 4);
                    lemma_byte_pixel(cw, fx + q, y as int, m % 4);
                }
            }
            assert(canvas@ =~= next);
        }
        row = row + 1;
    }
}


/// A frame as plain values: width, height, RGBA bytes, delay in ms.
pub type FrameV = (u32, u32, Seq<u8>, u64);

impl Frame {
    pub open spec fn fv(&self) -> FrameV {
        (self.width, self.height, self.rgba@, self.delay_ms)
    }
}

/// The frames' plain values.
pub open spec fn frame_views(v: Seq<Frame>) -> Seq<FrameV> {
    v.map_values(|f: Frame| f.fv())
}

/// A frame's values describe a well-formed frame.
pub open spec fn fv_wf(f: FrameV) -> bool {
    f.2.len() == f.0 * f.1 * 4
}

/// Why an image could not be loaded.
#[derive(Clone, Copy, Debug, PartialEq, Eq, Structural)]
pub enum LoadError {
    /// The GIF decoder refused the file.
    Gif,
    /// A GIF frame reaches outside the canvas, its buffer does not match its
    /// size, or the canvas is too large to address with 32-bit offsets.
    GifGeometry,
    /// The WebP decoder refused the file.
    Webp,
    /// Two WebP timestamps are too far apart for a 32-bit difference.
    WebpTiming,
    /// The still-image decoder refused the file.
    Still,
    /// The file decoded to no frames.
    NoFrames,
    /// A decoded frame's buffer does not match its size.
    BadFrame,
}

// ----- GIF -----

/// A decoded GIF: the canvas size and the frames in order.
pub struct GifStream {
    pub width: u16,
    pub height: u16,
    pub frames: Vec<GifFrame>,
}

/// What the `gif` crate (RGBA output, default limits) decodes from `bytes`:
/// the canvas size and every frame, or `None` where it reports an error.
pub uninterp spec fn gif_stream_of(bytes: Seq<u8>) -> Option<(u16, u16, Seq<GifFrameV>)>;

/// `gif::DecodeOptions::read_info` with `ColorOutput::RGBA`, then
/// `read_next_frame` until the end: the canvas size and each frame's
/// rectangle, delay, disposal and pixels, named [`gif_stream_of`]; `None` at
/// the first error.
#[verifier::external_body]
fn gif_stream(bytes: &[u8]) -> (r: Option<GifStream>)
    ensures
        match r {
            Some(st) => gif_stream_of(bytes@) == Some((st.width, st.height, gif_views(st.frames@))),
            None => gif_stream_of(bytes@) is None,
        },
{
    let mut opts = gif::DecodeOptions::new();
    opts.set_color_output(gif::ColorOutput::RGBA);
    let mut dec = opts.read_info(bytes).ok()?;
    let (width, height) = (dec.width(), dec.height());
    let mut frames = Vec::new();
    while let Some(f) = dec.read_next_frame().ok()? {
        let dispose = match f.dispose {
            gif::DisposalMethod::Any => Dispose::Any,
            gif::DisposalMethod::Keep => Dispose::Keep,
            gif::DisposalMethod::Background => Dispose::Background,
            gif::DisposalMethod::Previous => Dispose::Previous,
        };
        frames.push(GifFrame { left: f.left, top: f.top, width: f.width, height: f.height, delay: f.delay, dispose, buffer: f.buffer.to_vec() });
    }
    Some(GifStream { width, height, frames })
}

/// A GIF frame's delay in milliseconds: at least 2 units of 10 ms.
pub open spec fn gif_delay_ms(delay: u16) -> u64 {
    ((if delay < 2 {
        2
    } else {
        delay
    }) * 10) as u64
}

/// The canvases shown for the frames, starting from `canvas`: each frame is
/// drawn over the canvas; afterwards its area is cleared (`Background`), the
/// canvas restored (`Previous`) or kept as drawn.
pub open spec fn gif_shown(cw: int, canvas: Seq<u8>, frames: Seq<GifFrameV>) -> Seq<Seq<u8>>
    decreases frames.len(),
{
    if frames.len() == 0 {
        Seq::empty()
    } else {
        let f = frames[0];
        let shown = composited(canvas, cw, f);
        let next = match f.dispose {
            Dispose::Background => cleared(shown, cw, f),
            Dispose::Previous => canvas,
            _ => shown,
        };
        seq![shown] + gif_shown(cw, next, frames.drop_first())
    }
}

/// The frames of a `w` x `h` GIF: the canvases shown, starting from a
/// transparent canvas, with each frame's delay.
pub open spec fn gif_frames(w: u16, h: u16, frames: Seq<GifFrameV>) -> Seq<FrameV> {
    let shown = gif_shown(w as int, Seq::new((w * h * 4) as nat, |i: int| 0u8), frames);
    Seq::new(frames.len(), |i: int| (w as u32, h as u32, shown[i], gif_delay_ms(frames[i].delay)))
}

/// Every frame fits the canvas.
pub open spec fn all_fit(w: u16, h: u16, frames: Seq<GifFrameV>) -> bool {
    forall|i: int| 0 <= i < frames.len() ==> frame_fits(#[trigger] frames[i], w as int, h as int)
}

pub proof fn lemma_gif_shown_len(cw: int, canvas: Seq<u8>, frames: Seq<GifFrameV>)
    ensures
        gif_shown(cw, canvas, frames).len() == frames.len(),
    decreases frames.len(),
{
    if frames.len() > 0 {
        let f = frames[0];
        let shown = composited(canvas, cw, f);
        let next = match f.dispose {
            Dispose::Background => cleared(shown, cw, f),
            Dispose::Previous => canvas,
            _ => shown,
        };
        lemma_gif_shown_len(cw, next, frames.drop_first());
    }
}

/// A transparent canvas of `n` bytes.
fn zeros(n: usize) -> (r: Vec<u8>)
    ensures
        r@ == Seq::new(n as nat, |i: int| 0u8),
{
    let mut v: Vec<u8> = Vec::new();
    let mut i: usize = 0;
    while i < n
        invariant
            i <= n,
            v@ =~= Seq::new(i as nat, |j: int| 0u8),
        decreases n - i,
    {
        v.push(0);
        i = i + 1;
    }
    v
}

/// A copy of the canvas.
fn copy_bytes(v: &Vec<u8>) -> (r: Vec<u8>)
    ensures
        r@ == v@,
{
    let mut r: Vec<u8> = Vec::new();
    let mut i: usize = 0;
    while i < v.len()
        invariant
            i <= v@.len(),
            r@ =~= v@.subrange(0, i as int),
        decreases v.len() - i,
    {
        r.push(v[i]);
        i = i + 1;
    }
    proof {
        assert(v@.subrange(0, v@.len() as int) =~= v@);
    }
    r
}

/// Plays the frames of a `width` x `height` GIF over a persistent canvas,
/// honouring each frame's disposal, and returns the canvas shown at each.
pub fn composite_frames(width: u16, height: u16, frames: &Vec<GifFrame>) -> (r: Vec<Frame>)
    requires
        all_fit(width, height, gif_views(frames@)),
        width as int * height as int * 4 < 0x1_0000_0000,
    ensures
        frame_views(r@) == gif_frames(width, height, gif_views(frames@)),
        forall|i: int| 0 <= i < r@.len() ==> (#[trigger] r@[i]).wf(),
{
    let ghost all = gif_views(frames@);
    let w = width as u32;
    let h = height as u32;
    let n = (w * h * 4) as usize;
    let mut canvas = zeros(n);
    let ghost start = canvas@;
    let mut out: Vec<Frame> = Vec::new();
    let mut i: usize = 0;
    proof {
        lemma_gif_shown_len(w as int, start, all);
        assert(all.subrange(0, all.len() as int) =~= all);
    }
    while i < frames.len()
        invariant
            all == gif_views(frames@),
            all_fit(width, height, all),
            w == width,
            h == height,
            w as int * h as int * 4 < 0x1_0000_0000,
            start == Seq::new((w * h * 4) as nat, |j: int| 0u8),
            gif_shown(w as int, start, all).len() == all.len(),
            i <= frames@.len(),
            out@.len() == i,
            canvas@.len() == w * h * 4,
            gif_shown(w as int, start, all).subrange(i as int, all.len() as int) == gif_shown(
                w as int,
                canvas@,
                all.subrange(i as int, all.len() as int),
            ),
            forall|j: int|
                0 <= j < i ==> (#[trigger] out@[j]).fv() == (
                    w,
                    h,
                    gif_shown(w as int, start, all)[j],
                    gif_delay_ms(all[j].delay),
                ) && out@[j].wf(),
        decreases frames.len() - i,
    {
        let f = &frames[i];
        proof {
            assert(all[i as int] == f.view());
            assert(frame_fits(all[i as int], width as int, height as int));
        }
        let ghost before = canvas@;
        let ghost rest = all.subrange(i as int, all.len() as int);
        let prev = match f.dispose {
            Dispose::Previous => Some(copy_bytes(&canvas)),
            _ => None,
        };
        composite(&mut canvas, w, h, f);
        let ghost shown = canvas@;
        let d = f.delay as u64;
        let delay_ms = (if d < 2 {
            2
        } else {
            d
        }) * 10;
        let snap = copy_bytes(&canvas);
        out.push(Frame { width: w, height: h, rgba: snap, delay_ms });
        match f.dispose {
            Dispose::Background => {
                clear_rect(&mut canvas, w, h, f);
            },
            Dispose::Previous => {
                match prev {
                    Some(p) => {
                        canvas = p;
                    },
                    None => {},
                }
            },
            _ => {},
        }
        proof {
            assert(rest[0] == f.view());
            assert(rest.drop_first() =~= all.subrange(i + 1, all.len() as int));
            let g = gif_shown(w as int, start, all);
            assert(g.subrange(i as int, all.len() as int)[0] == g[i as int]);
            assert(g.subrange(i + 1, all.len() as int) =~= g.subrange(i as int, all.len() as int).drop_first());
            assert(shown.len() == before.len());
        }
        i = i + 1;
    }
    proof {
        let g = gif_shown(w as int, start, all);
        assert(frame_views(out@) =~= gif_frames(width, height, all));
    }
    out
}

/// What decoding a GIF gives: its frames, or why there are none.
pub open spec fn gif_decoded(bytes: Seq<u8>) -> Result<Seq<FrameV>, LoadError> {
    match gif_stream_of(bytes) {
        None => Err(LoadError::Gif),
        Some((w, h, fs)) => if all_fit(w, h, fs) && (w as int) * (h as int) * 4 < 0x1_0000_0000 {
            Ok(gif_frames(w, h, fs))
        } else {
            Err(LoadError::GifGeometry)
        },
    }
}

/// Whether every frame fits the canvas.
fn all_fit_of(width: u16, height: u16, frames: &Vec<GifFrame>) -> (b: bool)
    requires
        width as int * height as int * 4 < 0x1_0000_0000,
    ensures
        b == all_fit(width, height, gif_views(frames@)),
{
    let ghost all = gif_views(frames@);
    let w = width as u32;
    let h = height as u32;
    let mut i: usize = 0;
    while i < frames.len()
        invariant
            all == gif_views(frames@),
            w == width,
            h == height,
            w as int * h as int * 4 < 0x1_0000_0000,
            i <= frames@.len(),
            forall|j: int| 0 <= j < i ==> frame_fits(#[trigger] all[j], w as int, h as int),
        decreases frames.len() - i,
    {
        let f = &frames[i];
        proof {
            assert(all[i as int] == f.view());
        }
        let fits_w = f.left as u32 + f.width as u32 <= w;
        let fits_h = f.top as u32 + f.height as u32 <= h;
        assert(f.width as int * f.height as int <= 0xffff * 0xffff) by (nonlinear_arith)
            requires
                f.width <= 0xffff,
                f.height <= 0xffff,
        ;
        let size = f.width as u64 * f.height as u64 * 4;
        if !(fits_w && fits_h && f.buffer.len() as u64 == size) {
            return false;
        }
        i = i + 1;
    }
    true
}

/// The frames of a GIF file, composited as the file's disposal methods ask.
pub fn decode_gif(bytes: &[u8]) -> (r: Result<Vec<Frame>, LoadError>)
    ensures
        match r {
            Ok(v) => gif_decoded(bytes@) == Ok::<Seq<FrameV>, LoadError>(frame_views(v@)) && forall|
                i: int,
            | 0 <= i < v@.len() ==> (#[trigger] v@[i]).wf(),
            Err(e) => gif_decoded(bytes@) == Err::<Seq<FrameV>, LoadError>(e),
        },
{
    let st = match gif_stream(bytes) {
        Some(st) => st,
        None => {
            return Err(LoadError::Gif);
        },
    };
    assert(st.width as int * st.height as int <= 0xffff * 0xffff) by (nonlinear_arith)
        requires
            st.width <= 0xffff,
            st.height <= 0xffff,
    ;
    if !(st.width as u64 * st.height as u64 * 4 < 0x1_0000_0000u64) {
        return Err(LoadError::GifGeometry);
    }
    if !all_fit_of(st.width, st.height, &st.frames) {
        return Err(LoadError::GifGeometry);
    }
    Ok(composite_frames(st.width, st.height, &st.frames))
}


// ----- WebP and still images -----

/// One decoded WebP frame: its size, timestamp (ms) and RGBA pixels.
pub struct WebpFrame {
    pub width: u32,
    pub height: u32,
    pub timestamp: i32,
    pub rgba: Vec<u8>,
}

/// A WebP frame as plain values.
pub type WebpV = (u32, u32, i32, Seq<u8>);

impl WebpFrame {
    pub open spec fn view(&self) -> WebpV {
        (self.width, self.height, self.timestamp, self.rgba@)
    }
}

/// The frames' views.
pub open spec fn webp_views(v: Seq<WebpFrame>) -> Seq<WebpV> {
    v.map_values(|f: WebpFrame| f.view())
}

/// What `webp_animation` (RGBA) decodes from `bytes`: the frames in order,
/// or `None` where the decoder cannot be created.
pub uninterp spec fn webp_frames_of(bytes: Seq<u8>) -> Option<Seq<WebpV>>;

/// `webp_animation::Decoder::new` and its frame iterator: the frames' sizes,
/// timestamps and pixels, named [`webp_frames_of`]. Each frame's data is
/// `width * height * 4` bytes, as the crate documents.
#[verifier::external_body]
fn webp_frames(bytes: &[u8]) -> (r: Option<Vec<WebpFrame>>)
    ensures
        match r {
            Some(v) => webp_frames_of(bytes@) == Some(webp_views(v@)) && forall|i: int|
                0 <= i < v@.len() ==> (#[trigger] v@[i]).rgba@.len() == v@[i].width as int
                    * v@[i].height as int * 4,
            None => webp_frames_of(bytes@) is None,
        },
{
    let dec = webp_animation::Decoder::new(bytes).ok()?;
    let mut out = Vec::new();
    for f in dec {
        let (width, height) = f.dimensions();
        out.push(WebpFrame { width, height, timestamp: f.timestamp(), rgba: f.data().to_vec() });
    }
    Some(out)
}

/// What `image::load_from_memory(..).to_rgba8()` decodes from `bytes`: the
/// size and RGBA pixels, or `None` where it reports an error.
pub uninterp spec fn still_of(bytes: Seq<u8>) -> Option<(u32, u32, Seq<u8>)>;

/// `image::load_from_memory`, converted with `to_rgba8`: named [`still_of`].
#[verifier::external_body]
fn decode_still(bytes: &[u8]) -> (r: Option<(u32, u32, Vec<u8>)>)
    ensures
        match r {
            Some((w, h, px)) => still_of(bytes@) == Some((w, h, px@)),
            None => still_of(bytes@) is None,
        },
{
    let img = image::load_from_memory(bytes).ok()?.to_rgba8();
    let (w, h) = img.dimensions();
    Some((w, h, img.into_raw()))
}

/// A still image: one frame shown for 100 ms.
pub open spec fn still_decoded(bytes: Seq<u8>) -> Result<Seq<FrameV>, LoadError> {
    match still_of(bytes) {
        Some((w, h, px)) => Ok(seq![(w, h, px, 100u64)]),
        None => Err(LoadError::Still),
    }
}

/// The single frame of a still image (PNG, JPEG, ...).
pub fn decode_static(bytes: &[u8]) -> (r: Result<Vec<Frame>, LoadError>)
    ensures
        match r {
            Ok(v) => still_decoded(bytes@) == Ok::<Seq<FrameV>, LoadError>(frame_views(v@)),
            Err(e) => still_decoded(bytes@) == Err::<Seq<FrameV>, LoadError>(e),
        },
{
    match decode_still(bytes) {
        Some((w, h, px)) => {
            let mut v: Vec<Frame> = Vec::new();
            v.push(Frame { width: w, height: h, rgba: px, delay_ms: 100 });
            proof {
                assert(frame_views(v@) =~= seq![(w, h, v@[0].rgba@, 100u64)]);
            }
            Ok(v)
        },
        None => Err(LoadError::Still),
    }
}

/// The delays of WebP frames: the time to the next timestamp from the
/// previous one (0 before the first), at least 20 ms; `None` where a
/// difference does not fit an `i32`.
pub open spec fn webp_delays(fs: Seq<WebpV>, last: int) -> Option<Seq<u64>>
    decreases fs.len(),
{
    if fs.len() == 0 {
        Some(Seq::empty())
    } else {
        let d = fs[0].2 - last;
        if d < i32::MIN || d > i32::MAX {
            None
        } else {
            match webp_delays(fs.drop_first(), fs[0].2 as int) {
                None => None,
                Some(rest) => Some(seq![(if d < 20 {
                    20
                } else {
                    d
                }) as u64] + rest),
            }
        }
    }
}

/// What decoding a WebP gives: its frames with their delays; a file with no
/// animation frames is decoded as a still image.
pub open spec fn webp_decoded(bytes: Seq<u8>) -> Result<Seq<FrameV>, LoadError> {
    match webp_frames_of(bytes) {
        None => Err(LoadError::Webp),
        Some(fs) => if fs.len() == 0 {
            still_decoded(bytes)
        } else {
            match webp_delays(fs, 0) {
                None => Err(LoadError::WebpTiming),
                Some(ds) => Ok(
                    Seq::new(fs.len(), |i: int| (fs[i].0, fs[i].1, fs[i].3, ds[i])),
                ),
            }
        },
    }
}

pub proof fn lemma_webp_delays_len(fs: Seq<WebpV>, last: int)
    ensures
        webp_delays(fs, last) matches Some(ds) ==> ds.len() == fs.len(),
    decreases fs.len(),
{
    if fs.len() > 0 {
        lemma_webp_delays_len(fs.drop_first(), fs[0].2 as int);
    }
}

/// The timestamp that frame `i` is timed from: the one before it, or
/// `start` for the first.
pub open spec fn previous_timestamp(fs: Seq<WebpV>, start: int, i: int) -> int {
    if i == 0 {
        start
    } else {
        fs[i - 1].2 as int
    }
}

/// Each WebP frame stays for the time from the previous frame's timestamp to
/// its own, at least 20 ms; delays are given exactly when every such
/// difference fits an `i32`.
pub proof fn webp_delay_is_time_since_previous(fs: Seq<WebpV>, start: int)
    ensures
        webp_delays(fs, start) is Some <==> forall|i: int|
            0 <= i < fs.len() ==> i32::MIN <= #[trigger] fs[i].2 - previous_timestamp(fs, start, i)
                <= i32::MAX,
        webp_delays(fs, start) matches Some(ds) ==> ds.len() == fs.len() && forall|i: int|
            0 <= i < fs.len() ==> {
                let d = fs[i].2 - previous_timestamp(fs, start, i);
                #[trigger] ds[i] == if d < 20 {
                    20
                } else {
                    d
                }
            },
    decreases fs.len(),
{
    if fs.len() > 0 {
        let rest = fs.drop_first();
        webp_delay_is_time_since_previous(rest, fs[0].2 as int);
        lemma_webp_delays_len(rest, fs[0].2 as int);
        assert forall|i: int| 0 < i < fs.len() implies fs[i].2 - previous_timestamp(fs, start, i)
            == rest[i - 1].2 - previous_timestamp(rest, fs[0].2 as int, i - 1) by {
            assert(rest[i - 1] == fs[i]);
            if i > 1 {
                assert(rest[i - 2] == fs[i - 1]);
            }
        }
        if webp_delays(fs, start) is Some {
            let ds = webp_delays(fs, start)->0;
            let rs = webp_delays(rest, fs[0].2 as int)->0;
            assert forall|i: int| 0 <= i < fs.len() implies {
                let d = fs[i].2 - previous_timestamp(fs, start, i);
                #[trigger] ds[i] == if d < 20 {
                    20
                } else {
                    d
                }
            } by {
                if i > 0 {
                    assert(ds[i] == rs[i - 1]);
                }
            }
        }
        if forall|i: int|
            0 <= i < fs.len() ==> i32::MIN <= #[trigger] fs[i].2 - previous_timestamp(fs, start, i)
                <= i32::MAX {
            assert forall|i: int| 0 <= i < rest.len() implies i32::MIN <= #[trigger] rest[i].2
                - previous_timestamp(rest, fs[0].2 as int, i) <= i32::MAX by {
                assert(fs[i + 1].2 - previous_timestamp(fs, start, i + 1) == rest[i].2
                    - previous_timestamp(rest, fs[0].2 as int, i));
            }
            assert(fs[0].2 - previous_timestamp(fs, start, 0) <= i32::MAX);
        }
        if webp_delays(rest, fs[0].2 as int) is None {
            let j = choose|j: int|
                0 <= j < rest.len() && !(i32::MIN <= #[trigger] rest[j].2 - previous_timestamp(
                    rest,
                    fs[0].2 as int,
                    j,
                ) <= i32::MAX);
            assert(fs[j + 1].2 - previous_timestamp(fs, start, j + 1) == rest[j].2
                - previous_timestamp(rest, fs[0].2 as int, j));
        }
    }
}

/// The frames of a WebP file, each shown until the next one's timestamp.
pub fn decode_webp(bytes: &[u8]) -> (r: Result<Vec<Frame>, LoadError>)
    ensures
        match r {
            Ok(v) => webp_decoded(bytes@) == Ok::<Seq<FrameV>, LoadError>(frame_views(v@)),
            Err(e) => webp_decoded(bytes@) == Err::<Seq<FrameV>, LoadError>(e),
        },
        match (r, webp_frames_of(bytes@)) {
            (Ok(v), Some(fs)) => fs.len() > 0 ==> {
                &&& v@.len() == fs.len()
                &&& forall|i: int|
                    0 <= i < fs.len() ==> {
                        let d = fs[i].2 - previous_timestamp(fs, 0, i);
                        (#[trigger] v@[i]).delay_ms == if d < 20 {
                            20
                        } else {
                            d
                        }
                    }
            },
            _ => true,
        },
{
    let fs = match webp_frames(bytes) {
        Some(fs) => fs,
        None => {
            return Err(LoadError::Webp);
        },
    };
    if fs.len() == 0 {
        return decode_static(bytes);
    }
    let ghost all = webp_views(fs@);
    let mut out: Vec<Frame> = Vec::new();
    let mut last: i32 = 0;
    let mut i: usize = 0;
    proof {
        lemma_webp_delays_len(all, 0);
        assert(all.subrange(0, all.len() as int) =~= all);
    }
    while i < fs.len()
        invariant
            all == webp_views(fs@),
            webp_frames_of(bytes@) == Some(all),
            all.len() > 0,
            webp_delays(all, 0) matches Some(ds) ==> ds.len() == all.len(),
            i <= fs@.len(),
            out@.len() == i,
            i > 0 ==> last == all[i - 1].2,
            i == 0 ==> last == 0,
            match webp_delays(all, 0) {
                Some(ds) => webp_delays(all.subrange(i as int, all.len() as int), last as int) == Some(
                    ds.subrange(i as int, all.len() as int),
                ) && forall|j: int|
                    0 <= j < i ==> (#[trigger] out@[j]).fv() == (all[j].0, all[j].1, all[j].3, ds[j]),
                None => webp_delays(all.subrange(i as int, all.len() as int), last as int) is None,
            },
        decreases fs.len() - i,
    {
        let f = &fs[i];
        let ghost rest = all.subrange(i as int, all.len() as int);
        proof {
            assert(rest[0] == f.view());
            assert(rest.drop_first() =~= all.subrange(i + 1, all.len() as int));
        }
        let d: i64 = f.timestamp as i64 - last as i64;
        if d < i32::MIN as i64 || d > i32::MAX as i64 {
            proof {
                assert(webp_delays(rest, last as int) is None);
            }
            return Err(LoadError::WebpTiming);
        }
        let delta: i64 = if d < 20 {
            20
        } else {
            d
        };
        let ghost prev_out = out@;
        let ghost last_old = last as int;
        let px = copy_bytes(&f.rgba);
        let fr = Frame { width: f.width, height: f.height, rgba: px, delay_ms: delta as u64 };
        proof {
            assert(fr.fv() == (rest[0].0, rest[0].1, rest[0].3, delta as u64));
        }
        out.push(fr);
        last = f.timestamp;
        proof {
            assert(webp_delays(rest, last_old) == match webp_delays(rest.drop_first(), last as int) {
                None => None,
                Some(t) => Some(seq![delta as u64] + t),
            });
            match webp_delays(all, 0) {
                Some(ds) => {
                    let tail = ds.subrange(i as int, all.len() as int);
                    assert(tail[0] == delta as u64);
                    assert(tail.drop_first() =~= ds.subrange(i + 1, all.len() as int));
                    match webp_delays(rest.drop_first(), last as int) {
                        Some(t) => {
                            assert(seq![delta as u64] + t == tail);
                            assert(t =~= tail.drop_first());
                        },
                        None => {},
                    }
                    assert forall|j: int| 0 <= j < i + 1 implies (#[trigger] out@[j]).fv() == (
                        all[j].0,
                        all[j].1,
                        all[j].3,
                        ds[j],
                    ) by {
                        if j < i {
                            assert(out@[j] == prev_out[j]);
                        } else {
                            assert(all[j] == rest[0]);
                            assert(ds[j] == tail[0]);
                        }
                    }
                },
                None => {},
            }
        }
        i = i + 1;
    }
    proof {
        lemma_webp_delays_len(all, 0);
        match webp_delays(all, 0) {
            Some(ds) => {
                assert(frame_views(out@) =~= Seq::new(
                    all.len(),
                    |k: int| (all[k].0, all[k].1, all[k].3, ds[k]),
                ));
            },
            None => {
                assert(all.subrange(all.len() as int, all.len() as int) =~= Seq::<WebpV>::empty());
            },
        }
        webp_delay_is_time_since_previous(all, 0);
        let ds = webp_delays(all, 0)->0;
        assert forall|k: int| 0 <= k < all.len() implies (#[trigger] out@[k]).delay_ms == ds[k] by {
            assert(frame_views(out@)[k] == out@[k].fv());
        }
    }
    Ok(out)
}

// ----- choosing a decoder -----

/// `bytes` start with `p`.
pub open spec fn bytes_start(bytes: Seq<u8>, p: Seq<u8>) -> bool {
    p.len() <= bytes.len() && bytes.subrange(0, p.len() as int) == p
}

/// Which decoder a file needs: GIF and WebP by their signatures, else by the
/// file extension (any ASCII case), else a still image.
pub open spec fn sniff_of(bytes: Seq<u8>, ext: Option<Seq<char>>) -> SourceKind {
    if bytes_start(bytes, seq![71u8, 73, 70, 56, 55, 97]) || bytes_start(
        bytes,
        seq![71u8, 73, 70, 56, 57, 97],
    ) {
        SourceKind::Gif
    } else if bytes.len() >= 12 && bytes.subrange(0, 4) == seq![82u8, 73, 70, 70] && bytes.subrange(
        8,
        12,
    ) == seq![87u8, 69, 66, 80] {
        SourceKind::Webp
    } else {
        match ext {
            Some(e) => if crate::text::ascii_lower(e) == "gif"@ {
                SourceKind::Gif
            } else if crate::text::ascii_lower(e) == "webp"@ {
                SourceKind::Webp
            } else {
                SourceKind::Static
            },
            None => SourceKind::Static,
        }
    }
}

/// Whether `bytes[at..]` starts with `p`.
fn bytes_at(bytes: &[u8], at: usize, p: &[u8]) -> (b: bool)
    requires
        at <= bytes@.len(),
    ensures
        b == (at + p@.len() <= bytes@.len() && bytes@.subrange(at as int, at + p@.len()) == p@),
{
    if p.len() > bytes.len() - at {
        return false;
    }
    let mut k: usize = 0;
    while k < p.len()
        invariant
            at + p@.len() <= bytes@.len(),
            bytes@.len() == bytes.len(),
            k <= p@.len(),
            forall|j: int| 0 <= j < k ==> bytes@[at + j] == p@[j],
        decreases p.len() - k,
    {
        if bytes[at + k] != p[k] {
            proof {
                assert(bytes@.subrange(at as int, at + p@.len())[k as int] != p@[k as int]);
            }
            return false;
        }
        k = k + 1;
    }
    proof {
        assert(bytes@.subrange(at as int, at + p@.len()) =~= p@);
    }
    true
}

/// Which decoder the file needs (see [`sniff_of`]); `ext` is the file
/// name's extension, if it has one.
pub fn sniff(bytes: &[u8], ext: Option<&str>) -> (k: SourceKind)
    ensures
        k == sniff_of(bytes@, match ext {
            Some(e) => Some(e@),
            None => None,
        }),
{
    let gif87: [u8; 6] = [71, 73, 70, 56, 55, 97];
    let gif89: [u8; 6] = [71, 73, 70, 56, 57, 97];
    let riff: [u8; 4] = [82, 73, 70, 70];
    let webp: [u8; 4] = [87, 69, 66, 80];
    proof {
        assert(gif87@ =~= seq![71u8, 73, 70, 56, 55, 97]);
        assert(gif89@ =~= seq![71u8, 73, 70, 56, 57, 97]);
        assert(riff@ =~= seq![82u8, 73, 70, 70]);
        assert(webp@ =~= seq![87u8, 69, 66, 80]);
    }
    if bytes_at(bytes, 0, gif87.as_slice()) || bytes_at(bytes, 0, gif89.as_slice()) {
        return SourceKind::Gif;
    }
    if bytes.len() >= 12 && bytes_at(bytes, 0, riff.as_slice()) && bytes_at(bytes, 8, webp.as_slice()) {
        return SourceKind::Webp;
    }
    match ext {
        Some(e) => {
            let v = crate::text::chars_of(e);
            let low = crate::text::to_ascii_lower(v.as_slice());
            let g = crate::text::chars_of("gif");
            let w = crate::text::chars_of("webp");
            if crate::text::same(low.as_slice(), g.as_slice()) {
                SourceKind::Gif
            } else if crate::text::same(low.as_slice(), w.as_slice()) {
                SourceKind::Webp
            } else {
                SourceKind::Static
            }
        },
        None => SourceKind::Static,
    }
}

/// What the decoder for `kind` gives.
pub open spec fn decoded(kind: SourceKind, bytes: Seq<u8>) -> Result<Seq<FrameV>, LoadError> {
    match kind {
        SourceKind::Gif => gif_decoded(bytes),
        SourceKind::Webp => webp_decoded(bytes),
        SourceKind::Static => still_decoded(bytes),
    }
}

/// Loading a file's bytes: the decoder's frames, none being an error, and
/// every frame's buffer matching its size.
pub open spec fn loaded(bytes: Seq<u8>, ext: Option<Seq<char>>) -> Result<(SourceKind, Seq<FrameV>), LoadError> {
    let kind = sniff_of(bytes, ext);
    match decoded(kind, bytes) {
        Err(e) => Err(e),
        Ok(fs) => if fs.len() == 0 {
            Err(LoadError::NoFrames)
        } else if exists|i: int| 0 <= i < fs.len() && !fv_wf(#[trigger] fs[i]) {
            Err(LoadError::BadFrame)
        } else {
            Ok((kind, fs))
        },
    }
}

/// Decodes an image file's bytes (`ext`: the file name's extension) into its
/// frames, keeping the bytes.
pub fn load(bytes: Vec<u8>, ext: Option<String>) -> (r: Result<ImageAsset, LoadError>)
    ensures
        match r {
            Ok(a) => loaded(bytes@, crate::config::opt_view(ext)) == Ok::<
                (SourceKind, Seq<FrameV>),
                LoadError,
            >((a.kind, frame_views(a.frames@))) && a.raw@ == bytes@ && a.wf(),
            Err(e) => loaded(bytes@, crate::config::opt_view(ext)) == Err::<
                (SourceKind, Seq<FrameV>),
                LoadError,
            >(e),
        },
{
    let kind = match &ext {
        Some(e) => sniff(bytes.as_slice(), Some(e.as_str())),
        None => sniff(bytes.as_slice(), None),
    };
    let frames = match kind {
        SourceKind::Gif => decode_gif(bytes.as_slice()),
        SourceKind::Webp => decode_webp(bytes.as_slice()),
        SourceKind::Static => decode_static(bytes.as_slice()),
    };
    let frames = match frames {
        Ok(f) => f,
        Err(e) => {
            return Err(e);
        },
    };
    if frames.len() == 0 {
        return Err(LoadError::NoFrames);
    }
    let ghost fvs = frame_views(frames@);
    let mut i: usize = 0;
    while i < frames.len()
        invariant
            fvs == frame_views(frames@),
            kind == sniff_of(bytes@, crate::config::opt_view(ext)),
            decoded(kind, bytes@) == Ok::<Seq<FrameV>, LoadError>(fvs),
            fvs.len() > 0,
            i <= frames@.len(),
            forall|j: int| 0 <= j < i ==> fv_wf(#[trigger] fvs[j]),
        decreases frames.len() - i,
    {
        let f = &frames[i];
        assert(f.width as int * f.height as int <= 0xffff_ffff * 0xffff_ffff) by (nonlinear_arith)
            requires
                f.width <= 0xffff_ffff,
                f.height <= 0xffff_ffff,
        ;
        let size: u128 = f.width as u128 * f.height as u128 * 4;
        if f.rgba.len() as u128 != size {
            proof {
                assert(!fv_wf(fvs[i as int]));
            }
            return Err(LoadError::BadFrame);
        }
        i = i + 1;
    }
    proof {
        assert forall|j: int| 0 <= j < frames@.len() implies (#[trigger] frames@[j]).wf() by {
            assert(fv_wf(fvs[j]));
        }
    }
    Ok(ImageAsset { kind, frames, raw: bytes })
}


/// Drawing or clearing a frame touches only the bytes of the pixels in its
/// rectangle; every other byte of the canvas stays as it was.
pub proof fn frames_touch_only_their_rect(old: Seq<u8>, cw: int, f: GifFrameV, i: int)
    requires
        0 <= i < old.len(),
        !in_rect(f, (i / 4) % cw, (i / 4) / cw),
    ensures
        composited(old, cw, f)[i] == old[i],
        cleared(old, cw, f)[i] == old[i],
{
}

/// A frame whose pixels are all transparent leaves the canvas unchanged.
pub proof fn transparent_frame_draws_nothing(old: Seq<u8>, cw: int, f: GifFrameV)
    requires
        cw > 0,
        forall|k: int| 0 <= k < f.width * f.height ==> #[trigger] f.buffer[4 * k + 3] == 0,
        f.width >= 0,
    ensures
        composited(old, cw, f) == old,
{
    assert forall|i: int| 0 <= i < old.len() implies #[trigger] composited(old, cw, f)[i] == old[i] by {
        let x = (i / 4) % cw;
        let y = (i / 4) / cw;
        if drawn(f, x, y, f.height, 0) {
            let k = (y - f.top) * f.width + (x - f.left);
            assert(src_offset(f, x, y) == 4 * k);
            assert(0 <= k < f.width * f.height) by (nonlinear_arith)
                requires
                    0 <= y - f.top < f.height,
                    0 <= x - f.left < f.width,
                    k == (y - f.top) * f.width + (x - f.left),
            ;
            assert(f.buffer[4 * k + 3] == 0);
        }
    }
    assert(composited(old, cw, f) =~= old);
}

} // verus!
