//! Kitty graphics protocol rendering.
//!
//! Every frame is uploaded once, under its own image id, on the first draw;
//! afterwards a draw only places the frame's image (reusing one placement id)
//! and then removes the previous frame's placement, so the screen is never
//! blank between frames.
use vstd::prelude::*;

use crate::image::loader::Frame;
use crate::text::{append_dec, dec, is_ascii_seq};

use super::{base64_encode, base64_of, Renderer};

verus! {

/// Size of one payload chunk of a transmission.
pub open spec fn chunk_size() -> int {
    4096
}

/// `1` when more chunks follow, else `0`.
pub open spec fn more_flag(more: bool) -> Seq<char> {
    if more {
        "1"@
    } else {
        "0"@
    }
}

/// Chunk `j` of payload `p`, framed: the first carries the transmit command
/// (`a=t`, RGBA, direct, size, id, quiet), the others only the `m` flag.
pub open spec fn chunk_text(p: Seq<char>, w: u32, h: u32, id: u32, j: int) -> Seq<char> {
    let start = j * chunk_size();
    let end = if start + chunk_size() < p.len() {
        start + chunk_size()
    } else {
        p.len() as int
    };
    let more = end < p.len();
    let head = if j == 0 {
        "\x1b_Ga=t,f=32,t=d,s="@ + dec(w as nat) + ",v="@ + dec(h as nat) + ",i="@ + dec(
            id as nat,
        ) + ",q=2,m="@ + more_flag(more) + ";"@
    } else {
        "\x1b_Gm="@ + more_flag(more) + ",q=2;"@
    };
    head + p.subrange(start, end) + "\x1b\\"@
}

/// Chunks `0..upto` of payload `p`.
pub open spec fn chunks_text(p: Seq<char>, w: u32, h: u32, id: u32, upto: nat) -> Seq<char>
    decreases upto,
{
    if upto == 0 {
        Seq::empty()
    } else {
        chunks_text(p, w, h, id, (upto - 1) as nat) + chunk_text(p, w, h, id, upto - 1)
    }
}

/// Number of chunks payload `p` is sent in.
pub open spec fn chunk_count(p: Seq<char>) -> nat {
    ((p.len() + chunk_size() - 1) / chunk_size()) as nat
}

/// The text that uploads frame `f` under image id `id`: its base64 RGBA payload
/// in 4096-byte chunks.
pub open spec fn transmit_text(f: Frame, id: u32) -> Seq<char> {
    let p = base64_of(f.rgba@);
    chunks_text(p, f.width, f.height, id, chunk_count(p))
}

/// Image id of frame `i`: `base + i`, wrapping around `u32`.
pub open spec fn frame_id_of(base: u32, i: int) -> u32 {
    ((base as int + (i as u32) as int) % 0x1_0000_0000) as u32
}

/// The upload of frames `0..upto`.
pub open spec fn uploads_text(frames: Seq<Frame>, base: u32, upto: nat) -> Seq<char>
    decreases upto,
{
    if upto == 0 {
        Seq::empty()
    } else {
        uploads_text(frames, base, (upto - 1) as nat) + transmit_text(
            frames[upto - 1],
            frame_id_of(base, upto - 1),
        )
    }
}

/// Place image `id` at the cursor, `cols` cells wide.
pub open spec fn place_text(id: u32, placement: u32, cols: u16) -> Seq<char> {
    "\x1b_Ga=p,i="@ + dec(id as nat) + ",p="@ + dec(placement as nat) + ",c="@ + dec(
        cols as nat,
    ) + ",C=1,q=2;\x1b\\"@
}

/// Delete every placement of image `id`, keeping its data.
pub open spec fn unplace_text(id: u32) -> Seq<char> {
    "\x1b_Ga=d,d=i,i="@ + dec(id as nat) + ",q=2;\x1b\\"@
}

/// Delete image `id` and its data.
pub open spec fn delete_text(id: u32) -> Seq<char> {
    "\x1b_Ga=d,d=I,i="@ + dec(id as nat) + ",q=2;\x1b\\"@
}

/// Deletion of frames `0..upto`.
pub open spec fn deletes_text(base: u32, upto: nat) -> Seq<char>
    decreases upto,
{
    if upto == 0 {
        Seq::empty()
    } else {
        deletes_text(base, (upto - 1) as nat) + delete_text(frame_id_of(base, upto - 1))
    }
}

/// The Kitty renderer's state.
pub struct KittyRenderer {
    /// Frames already resized for the image area.
    pub frames: Vec<Frame>,
    /// Image ids are allocated sequentially: frame `i` uses `base_id + i`.
    pub base_id: u32,
    pub placement_id: u32,
    pub cols: u16,
    /// All frames have been sent to the terminal.
    pub uploaded: bool,
    /// The image id placed last, whose placement goes once the next is shown.
    pub prev_placed: Option<u32>,
}

/// A frame whose base64 payload length fits in `usize`.
pub open spec fn encodable(f: Frame) -> bool {
    (f.rgba@.len() / 3) * 4 + 4 <= usize::MAX
}

impl KittyRenderer {
    /// Every frame can be encoded.
    pub open spec fn wf(&self) -> bool {
        forall|i: int| 0 <= i < self.frames@.len() ==> encodable(#[trigger] self.frames@[i])
    }

    /// A renderer for frames already resized to the image area, `cols` cells
    /// wide, with image ids starting at `base_id`; nothing is uploaded yet.
    pub fn new(frames: Vec<Frame>, cols: u16, base_id: u32) -> (r: KittyRenderer)
        requires
            forall|i: int| 0 <= i < frames@.len() ==> encodable(#[trigger] frames@[i]),
        ensures
            r.wf(),
            r.frames@ == frames@,
            r.base_id == base_id,
            r.placement_id == 1,
            r.cols == cols,
            !r.uploaded,
            r.prev_placed is None,
    {
        KittyRenderer { frames, base_id, placement_id: 1, cols, uploaded: false, prev_placed: None }
    }

    /// Image id of frame `i`.
    pub fn frame_id(&self, i: usize) -> (id: u32)
        ensures
            id == frame_id_of(self.base_id, i as int),
    {
        self.base_id.wrapping_add(i as u32)
    }

    /// The text that uploads every frame.
    fn upload_all(&self) -> (s: String)
        requires
            self.wf(),
        ensures
            s@ == uploads_text(self.frames@, self.base_id, self.frames@.len()),
    {
        let mut out = String::new();
        let mut i: usize = 0;
        while i < self.frames.len()
            invariant
                self.wf(),
                i <= self.frames@.len(),
                out@ == uploads_text(self.frames@, self.base_id, i as nat),
            decreases self.frames.len() - i,
        {
            let id = self.frame_id(i);
            let t = transmit_data(id, &self.frames[i]);
            out.append(t.as_str());
            i = i + 1;
        }
        out
    }
}

/// The text that uploads frame `f` as image `id`.
pub fn transmit_data(id: u32, f: &Frame) -> (s: String)
    requires
        encodable(*f),
    ensures
        s@ == transmit_text(*f, id),
{
    let payload = base64_encode(f.rgba.as_slice());
    let p = crate::text::chars_of(payload.as_str());
    let n = p.len();
    let ghost ps = p@;
    let mut out = String::new();
    let mut start: usize = 0;
    let mut j: usize = 0;
    while start < n
        invariant
            ps == p@,
            n == ps.len(),
            start <= n,
            start < n ==> start == j * 4096 && j < chunk_count(ps),
            start == n ==> j == chunk_count(ps),
            out@ == chunks_text(ps, f.width, f.height, id, j as nat),
        decreases n - start,
    {
        let end = if n - start > 4096 {
            start + 4096
        } else {
            n
        };
        let more = end < n;
        if j == 0 {
            out.append("\x1b_Ga=t,f=32,t=d,s=");
            append_dec(&mut out, f.width as u64);
            out.append(",v=");
            append_dec(&mut out, f.height as u64);
            out.append(",i=");
            append_dec(&mut out, id as u64);
            out.append(",q=2,m=");
            out.append(if more {
                "1"
            } else {
                "0"
            });
            out.append(";");
        } else {
            out.append("\x1b_Gm=");
            out.append(if more {
                "1"
            } else {
                "0"
            });
            out.append(",q=2;");
        }
        let ghost before = out@;
        let mut k = start;
        while k < end
            invariant
                start <= k <= end <= n,
                n == p@.len(),
                ps == p@,
                out@ == before + ps.subrange(start as int, k as int),
            decreases end - k,
        {
            crate::text::push_char(&mut out, p[k]);
            proof {
                assert(ps.subrange(start as int, k + 1) =~= ps.subrange(start as int, k as int).push(
                    ps[k as int],
                ));
            }
            k = k + 1;
        }
        out.append("\x1b\\");
        start = end;
        j = j + 1;
    }
    out
}


/// What drawing frame `idx` adds after the optional upload: the placement of
/// its image, then the removal of the previous frame's placement when that was
/// another image.
pub open spec fn show_text(id: u32, placement: u32, cols: u16, prev: Option<u32>) -> Seq<char> {
    place_text(id, placement, cols) + match prev {
        Some(q) => if q != id {
            unplace_text(q)
        } else {
            Seq::empty()
        },
        None => Seq::empty(),
    }
}


/// The text that drawing frame `idx` writes from state `r`: back to the
/// anchor (`ESC 8`), the upload of every frame when nothing is uploaded yet
/// (uploads leave the cursor where it is), then [`show_text`].
pub open spec fn draw_text(r: KittyRenderer, idx: int) -> Seq<char> {
    "\x1b8"@ + (if r.uploaded {
        Seq::empty()
    } else {
        uploads_text(r.frames@, r.base_id, r.frames@.len())
    }) + show_text(frame_id_of(r.base_id, idx), r.placement_id, r.cols, r.prev_placed)
}

/// What changes when frame `idx` is drawn: everything is uploaded, and the
/// frame's image is the one placed.
pub struct DrawnState {
    pub uploaded: bool,
    pub prev_placed: Option<u32>,
}

/// The state after drawing frame `idx` from `r`.
pub open spec fn drawn_state(r: KittyRenderer, idx: int) -> DrawnState {
    DrawnState { uploaded: true, prev_placed: Some(frame_id_of(r.base_id, idx)) }
}

/// Frames are uploaded once: after any draw, drawing frame `j` writes only
/// the return to the anchor, its placement and the removal of the frame drawn
/// before, never image data.
pub proof fn uploads_only_once(r: KittyRenderer, i: int, j: int)
    ensures
        ({
            let d = drawn_state(r, i);
            let after = KittyRenderer {
                frames: r.frames,
                base_id: r.base_id,
                placement_id: r.placement_id,
                cols: r.cols,
                uploaded: d.uploaded,
                prev_placed: d.prev_placed,
            };
            draw_text(after, j) == "\x1b8"@ + show_text(
                frame_id_of(r.base_id, j),
                r.placement_id,
                r.cols,
                Some(frame_id_of(r.base_id, i)),
            )
        }),
{
    let after = KittyRenderer {
        frames: r.frames,
        base_id: r.base_id,
        placement_id: r.placement_id,
        cols: r.cols,
        uploaded: true,
        prev_placed: Some(frame_id_of(r.base_id, i)),
    };
    assert(draw_text(after, j) =~= "\x1b8"@ + show_text(
        frame_id_of(r.base_id, j),
        r.placement_id,
        r.cols,
        Some(frame_id_of(r.base_id, i)),
    ));
}

/// Over two successive draws, the second removes the placement of the first
/// exactly when it places a different image: after drawing frame `i`,
/// drawing frame `j` writes the return to the anchor, the placement of `j`'s
/// image, and the removal of `i`'s image only where the two ids differ.
pub proof fn next_draw_unplaces_only_another_image(r: KittyRenderer, i: int, j: int)
    ensures
        ({
            let d = drawn_state(r, i);
            let after = KittyRenderer {
                frames: r.frames,
                base_id: r.base_id,
                placement_id: r.placement_id,
                cols: r.cols,
                uploaded: d.uploaded,
                prev_placed: d.prev_placed,
            };
            let a = frame_id_of(r.base_id, i);
            let b = frame_id_of(r.base_id, j);
            draw_text(after, j) == "\x1b8"@ + place_text(b, r.placement_id, r.cols) + if a != b {
                unplace_text(a)
            } else {
                Seq::<char>::empty()
            }
        }),
{
    let a = frame_id_of(r.base_id, i);
    let b = frame_id_of(r.base_id, j);
    uploads_only_once(r, i, j);
    if a != b {
        assert(show_text(b, r.placement_id, r.cols, Some(a)) =~= place_text(b, r.placement_id, r.cols)
            + unplace_text(a));
    } else {
        assert(show_text(b, r.placement_id, r.cols, Some(a)) =~= place_text(b, r.placement_id, r.cols)
            + Seq::<char>::empty());
    }
}

/// Drawing the frame that is already placed removes no placement: the text
/// is the return to the anchor and the placement alone.
pub proof fn redraw_keeps_placement(r: KittyRenderer, i: int)
    requires
        r.uploaded,
        r.prev_placed == Some(frame_id_of(r.base_id, i)),
    ensures
        draw_text(r, i) == "\x1b8"@ + place_text(frame_id_of(r.base_id, i), r.placement_id, r.cols),
{
    assert(draw_text(r, i) =~= "\x1b8"@ + place_text(frame_id_of(r.base_id, i), r.placement_id, r.cols));
}

impl Renderer for KittyRenderer {
    open spec fn frames_len(&self) -> nat {
        self.frames@.len()
    }

    open spec fn ready(&self) -> bool {
        self.wf()
    }

    /// Returns to the anchor, uploads every frame on the first call, then
    /// places frame `frame_idx` and removes the previous placement; returns
    /// the frame's delay.
    #[verifier::spinoff_prover]
    fn render_frame(&mut self, frame_idx: usize) -> (r: (String, u64))
        ensures
            r.0@ == draw_text(*old(self), frame_idx as int),
            r.1 == old(self).frames@[frame_idx as int].delay_ms,
            final(self).frames@ == old(self).frames@,
            final(self).base_id == old(self).base_id,
            final(self).placement_id == old(self).placement_id,
            final(self).cols == old(self).cols,
            final(self).uploaded == drawn_state(*old(self), frame_idx as int).uploaded,
            final(self).prev_placed == drawn_state(*old(self), frame_idx as int).prev_placed,
    {
        let ghost start = *self;
        let mut out = String::new();
        out.append("\x1b8");
        let ghost head = out@;
        if !self.uploaded {
            let up = self.upload_all();
            out.append(up.as_str());
        }
        proof {
            assert(out@ =~= head + (if start.uploaded {
                Seq::empty()
            } else {
                uploads_text(start.frames@, start.base_id, start.frames@.len())
            }));
        }
        self.uploaded = true;
        let id = self.frame_id(frame_idx);
        let ghost before = out@;
        out.append("\x1b_Ga=p,i=");
        append_dec(&mut out, id as u64);
        out.append(",p=");
        append_dec(&mut out, self.placement_id as u64);
        out.append(",c=");
        append_dec(&mut out, self.cols as u64);
        out.append(",C=1,q=2;\x1b\\");
        let prev = self.prev_placed;
        self.prev_placed = Some(id);
        match prev {
            Some(q) => {
                if q != id {
                    out.append("\x1b_Ga=d,d=i,i=");
                    append_dec(&mut out, q as u64);
                    out.append(",q=2;\x1b\\");
                }
            },
            None => {},
        }
        proof {
            assert(out@ =~= before + show_text(id, self.placement_id, self.cols, prev));
            assert(out@ =~= draw_text(start, frame_idx as int));
        }
        (out, self.frames[frame_idx].delay_ms)
    }

    fn frame_count(&self) -> (n: usize) {
        self.frames.len()
    }

    /// Deletes every uploaded image, and its placements, from the terminal.
    fn finish(&mut self) -> (s: String)
        ensures
            s@ == deletes_text(old(self).base_id, old(self).frames@.len()),
            *final(self) == *old(self),
    {
        let mut out = String::new();
        let mut i: usize = 0;
        while i < self.frames.len()
            invariant
                i <= self.frames@.len(),
                out@ == deletes_text(self.base_id, i as nat),
            decreases self.frames.len() - i,
        {
            let id = self.frame_id(i);
            let ghost before = out@;
            out.append("\x1b_Ga=d,d=I,i=");
            append_dec(&mut out, id as u64);
            out.append(",q=2;\x1b\\");
            proof {
                assert(out@ =~= before + delete_text(id));
            }
            i = i + 1;
        }
        out
    }
}


/// The pixel size of a `cols` x `rows` area, with cells `cell_px` large
/// (8 x 16 when the terminal did not say).
pub open spec fn area_px_of(cols: u16, rows: u16, cell_px: Option<(u16, u16)>) -> (u32, u32) {
    let (cw, ch) = match cell_px {
        Some(c) => c,
        None => (8u16, 16u16),
    };
    ((cols as int * cw as int) as u32, (rows as int * ch as int) as u32)
}

/// The pixel size of the image area.
pub fn area_px(cols: u16, rows: u16, cell_px: Option<(u16, u16)>) -> (r: (u32, u32))
    ensures
        r == area_px_of(cols, rows, cell_px),
{
    let (cw, ch) = match cell_px {
        Some(c) => c,
        None => (8u16, 16u16),
    };
    assert(cols as int * cw as int <= 0xffff * 0xffff) by (nonlinear_arith);
    assert(rows as int * ch as int <= 0xffff * 0xffff) by (nonlinear_arith);
    (cols as u32 * cw as u32, rows as u32 * ch as u32)
}

/// The size (width, height) a frame is resampled to for an area of
/// `max_w` x `max_h` pixels: the full width at the frame's aspect, or where
/// that is too high, the full height and the width at that height.
/// `h_for_w` is the height at the full width and `w_for_h` the width at the
/// full height, each rounded from the aspect ratio. At least 1 x 1.
pub open spec fn kitty_size_of(max_w: u32, max_h: u32, h_for_w: u32, w_for_h: u32) -> (u32, u32) {
    let (w, h) = if h_for_w > max_h {
        (w_for_h, max_h)
    } else {
        (max_w, h_for_w)
    };
    (if w < 1 {
        1
    } else {
        w
    }, if h < 1 {
        1
    } else {
        h
    })
}

/// The size a frame is resampled to (see [`kitty_size_of`]).
pub fn kitty_size(max_w: u32, max_h: u32, h_for_w: u32, w_for_h: u32) -> (r: (u32, u32))
    ensures
        r == kitty_size_of(max_w, max_h, h_for_w, w_for_h),
{
    let mut new_w = max_w;
    let mut new_h = h_for_w;
    if new_h > max_h {
        new_h = max_h;
        new_w = w_for_h;
    }
    (if new_w < 1 {
        1
    } else {
        new_w
    }, if new_h < 1 {
        1
    } else {
        new_h
    })
}

/// The clock reading (nanoseconds, or `0xC0FEBEEF` when the clock is
/// unusable) scrambled by a multiplicative hash and made odd.
pub open spec fn id_hash_of(nanos: Option<u32>) -> u32 {
    let n: u32 = match nanos {
        Some(x) => x,
        None => 0xC0FE_BEEFu32,
    };
    ((n as int * 2654435761int) % 0x1_0000_0000) as u32 | 1u32
}

/// The first image id of a range of `count`: the clock hash
/// ([`id_hash_of`]), or 1 where the range from the hash would run past
/// `u32::MAX`.
pub open spec fn id_base_of(nanos: Option<u32>, count: u32) -> u32 {
    let h = id_hash_of(nanos);
    if h as int + count as int - 1 > u32::MAX as int {
        1
    } else {
        h
    }
}

/// The low 32 bits of the nanoseconds since the Unix epoch
/// (`SystemTime::now().duration_since(UNIX_EPOCH)`, `as_nanos() as u32`);
/// `None` when the clock is before the epoch. It changes from call to call,
/// so nothing is claimed of it.
#[verifier::external_body]
fn clock_nanos() -> (r: Option<u32>) {
    std::time::SystemTime::now().duration_since(std::time::UNIX_EPOCH).ok().map(|d| d.as_nanos() as u32)
}

/// The first id of a range of `count` image ids for a given clock reading:
/// odd, so never 0, and the whole range `r ..= r + count - 1` stays within
/// `u32` without wrapping.
pub fn id_base(count: u32, nanos: Option<u32>) -> (r: u32)
    ensures
        r == id_base_of(nanos, count),
        r % 2 == 1,
        r as int + count as int - 1 <= u32::MAX as int,
{
    let n: u32 = match nanos {
        Some(x) => x,
        None => 0xC0FE_BEEFu32,
    };
    let m = n.wrapping_mul(2654435761u32);
    let b = m | 1;
    assert(b & 1 == 1) by (bit_vector)
        requires
            b == m | 1,
    ;
    assert(b % 2 == 1) by (bit_vector)
        requires
            b & 1 == 1,
    ;
    if count > 0 && b > u32::MAX - (count - 1) {
        1
    } else {
        b
    }
}

/// Reserves `count` consecutive image ids and returns the first: a base
/// taken from the clock ([`id_base`]); the result is odd, so never 0, and the
/// range of `count` ids from it never wraps past `u32::MAX`.
pub fn alloc_id_range(count: u32) -> (r: u32)
    ensures
        r % 2 == 1,
        r as int + count as int - 1 <= u32::MAX as int,
        exists|n: Option<u32>| r == id_base_of(n, count),
{
    let nanos = clock_nanos();
    id_base(count, nanos)
}

} // verus!
