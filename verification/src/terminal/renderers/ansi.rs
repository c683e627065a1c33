//! ANSI half-block rendering: each cell shows two pixels stacked vertically,
//! the top one as the foreground of `▀`, the bottom one as the background.
use vstd::prelude::*;

use crate::image::loader::{lemma_pixel_offset, Frame};
use crate::text::{append_dec, dec};

use super::Renderer;

verus! {

/// `(red, green, blue, opaque)`.
pub type Pixel = (u8, u8, u8, bool);

/// Pixel `(x, y)` of `f`; below the image it is transparent. Anything under
/// half alpha counts as transparent (terminal cells are all or nothing).
pub open spec fn pixel_at(f: Frame, x: int, y: int) -> Pixel {
    if y >= f.height {
        (0u8, 0u8, 0u8, false)
    } else {
        let i = (y * f.width + x) * 4;
        (f.rgba@[i], f.rgba@[i + 1], f.rgba@[i + 2], f.rgba@[i + 3] >= 128)
    }
}

/// `r;g;b` in decimal.
pub open spec fn rgb_text(p: Pixel) -> Seq<char> {
    dec(p.0 as nat) + ";"@ + dec(p.1 as nat) + ";"@ + dec(p.2 as nat)
}

/// The text of one cell with pixel `top` above pixel `bot`.
pub open spec fn cell_text(top: Pixel, bot: Pixel) -> Seq<char> {
    match (top.3, bot.3) {
        (false, false) => "\x1b[0m "@,
        (true, false) => "\x1b[49m\x1b[38;2;"@ + rgb_text(top) + "m▀"@,
        (false, true) => "\x1b[49m\x1b[38;2;"@ + rgb_text(bot) + "m▄"@,
        (true, true) => "\x1b[38;2;"@ + rgb_text(top) + "m\x1b[48;2;"@ + rgb_text(bot) + "m▀"@,
    }
}

/// The cells `0..upto` of text row `row` (pixel rows `2 row` and `2 row + 1`).
pub open spec fn row_cells(f: Frame, row: int, upto: nat) -> Seq<char>
    decreases upto,
{
    if upto == 0 {
        Seq::empty()
    } else {
        row_cells(f, row, (upto - 1) as nat) + cell_text(
            pixel_at(f, upto - 1, 2 * row),
            pixel_at(f, upto - 1, 2 * row + 1),
        )
    }
}

/// Text row `row`: back to the anchor, down `row` lines, attributes reset,
/// the cells, attributes reset.
pub open spec fn row_text(f: Frame, row: nat) -> Seq<char> {
    "\x1b8"@ + (if row > 0 {
        "\x1b["@ + dec(row) + "B"@
    } else {
        Seq::empty()
    }) + "\x1b[0m"@ + row_cells(f, row as int, f.width as nat) + "\x1b[0m"@
}

/// Text rows `0..upto` of a frame.
pub open spec fn frame_text(f: Frame, upto: nat) -> Seq<char>
    decreases upto,
{
    if upto == 0 {
        Seq::empty()
    } else {
        frame_text(f, (upto - 1) as nat) + row_text(f, (upto - 1) as nat)
    }
}

/// A frame ready to draw: the resized image and its number of text rows.
pub struct PreparedFrame {
    pub img: Frame,
    pub rows: u16,
}

/// Renders each frame with `▀` cells: foreground colour = top pixel,
/// background colour = bottom pixel.
pub struct AnsiRenderer {
    pub frames: Vec<PreparedFrame>,
}

impl AnsiRenderer {
    /// Every frame's buffer matches its size, and its rows fit in its height.
    pub open spec fn wf(&self) -> bool {
        forall|i: int|
            0 <= i < self.frames@.len() ==> {
                let p = #[trigger] self.frames@[i];
                &&& p.img.wf()
                &&& p.rows * 2 <= p.img.height
            }
    }

    /// A renderer for frames already resized to the image area: `cols` wide
    /// and an even number of pixels high; each text row shows two pixel rows.
    pub fn new(frames: Vec<Frame>) -> (r: AnsiRenderer)
        requires
            forall|i: int| 0 <= i < frames@.len() ==> (#[trigger] frames@[i]).wf(),
        ensures
            r.wf(),
            r.frames@.len() == frames@.len(),
            forall|i: int|
                0 <= i < frames@.len() ==> (#[trigger] r.frames@[i]).img == frames@[i]
                    && r.frames@[i].rows == ((frames@[i].height / 2) as u16),
    {
        let ghost orig = frames@;
        let mut rest = frames;
        let n = rest.len();
        let mut out: Vec<PreparedFrame> = Vec::new();
        let mut k: usize = 0;
        while k < n
            invariant
                n == orig.len(),
                k <= n,
                rest@ == orig.subrange(k as int, n as int),
                out@.len() == k,
                forall|i: int| 0 <= i < orig.len() ==> (#[trigger] orig[i]).wf(),
                forall|i: int|
                    0 <= i < k ==> {
                        let p = #[trigger] out@[i];
                        &&& p.img == orig[i]
                        &&& p.rows == ((orig[i].height / 2) as u16)
                        &&& p.img.wf()
                        &&& p.rows * 2 <= p.img.height
                    },
            decreases n - k,
        {
            let f = rest.remove(0);
            proof {
                assert(f == orig[k as int]);
                assert(rest@ =~= orig.subrange(k + 1, n as int));
            }
            let rows = (f.height / 2) as u16;
            out.push(PreparedFrame { img: f, rows });
            k = k + 1;
        }
        AnsiRenderer { frames: out }
    }
}

/// Pixel `(x, y)` of `f`.
fn pixel(f: &Frame, x: u32, y: u32) -> (p: Pixel)
    requires
        f.wf(),
        x < f.width,
    ensures
        p == pixel_at(*f, x as int, y as int),
{
    if y >= f.height {
        return (0, 0, 0, false);
    }
    let n = f.rgba.len();
    proof {
        lemma_pixel_offset(f.width as int, f.height as int, x as int, y as int);
        assert(n == f.width * f.height * 4);
    }
    let i = ((y as usize) * (f.width as usize) + (x as usize)) * 4;
    (f.rgba[i], f.rgba[i + 1], f.rgba[i + 2], f.rgba[i + 3] >= 128)
}

fn append_rgb(s: &mut String, p: Pixel)
    ensures
        final(s)@ == old(s)@ + rgb_text(p),
{
    append_dec(s, p.0 as u64);
    s.append(";");
    append_dec(s, p.1 as u64);
    s.append(";");
    append_dec(s, p.2 as u64);
}

/// Appends the cell showing `top` above `bot`.
fn emit_cell(out: &mut String, top: Pixel, bot: Pixel)
    ensures
        final(out)@ == old(out)@ + cell_text(top, bot),
{
    let ghost start = out@;
    match (top.3, bot.3) {
        (false, false) => {
            out.append("\x1b[0m ");
        },
        (true, false) => {
            out.append("\x1b[49m\x1b[38;2;");
            append_rgb(out, top);
            out.append("m▀");
        },
        (false, true) => {
            out.append("\x1b[49m\x1b[38;2;");
            append_rgb(out, bot);
            out.append("m▄");
        },
        (true, true) => {
            out.append("\x1b[38;2;");
            append_rgb(out, top);
            out.append("m\x1b[48;2;");
            append_rgb(out, bot);
            out.append("m▀");
        },
    }
}

/// The text that draws prepared frame `p`.
fn draw(p: &PreparedFrame) -> (s: String)
    requires
        p.img.wf(),
        p.rows * 2 <= p.img.height,
    ensures
        s@ == frame_text(p.img, p.rows as nat),
{
    let f = &p.img;
    let w = f.width;
    let mut out = String::new();
    let mut row: u16 = 0;
    while row < p.rows
        invariant
            row <= p.rows,
            p.rows * 2 <= f.height,
            f.wf(),
            w == f.width,
            out@ == frame_text(*f, row as nat),
        decreases p.rows - row,
    {
        let ghost before = out@;
        out.append("\x1b8");
        if row > 0 {
            out.append("\x1b[");
            append_dec(&mut out, row as u64);
            out.append("B");
        }
        out.append("\x1b[0m");
        let ghost cells_start = out@;
        let y_top = (row as u32) * 2;
        let y_bot = y_top + 1;
        let mut x: u32 = 0;
        while x < w
            invariant
                x <= w,
                w == f.width,
                f.wf(),
                y_top == 2 * row,
                y_bot == 2 * row + 1,
                out@ == cells_start + row_cells(*f, row as int, x as nat),
            decreases w - x,
        {
            let top = pixel(f, x, y_top);
            let bot = pixel(f, x, y_bot);
            emit_cell(&mut out, top, bot);
            x = x + 1;
        }
        out.append("\x1b[0m");
        proof {
            assert(out@ =~= before + row_text(*f, row as nat));
        }
        row = row + 1;
    }
    out
}

impl Renderer for AnsiRenderer {
    open spec fn frames_len(&self) -> nat {
        self.frames@.len()
    }

    open spec fn ready(&self) -> bool {
        self.wf()
    }

    /// Draws frame `frame_idx` row by row from the anchor; returns its delay.
    fn render_frame(&mut self, frame_idx: usize) -> (r: (String, u64))
        ensures
            r.0@ == frame_text(
                old(self).frames@[frame_idx as int].img,
                old(self).frames@[frame_idx as int].rows as nat,
            ),
            r.1 == old(self).frames@[frame_idx as int].img.delay_ms,
            *final(self) == *old(self),
    {
        let p = &self.frames[frame_idx];
        let s = draw(p);
        (s, p.img.delay_ms)
    }

    fn frame_count(&self) -> (n: usize) {
        self.frames.len()
    }
}


/// The size (width, height) in pixels that a frame is resampled to for a
/// `cols`-wide area of `rows` text rows (two pixels per row): the full width
/// at the frame's aspect, the height rounded up to even; where that is too
/// high, the largest even height and the width at that height (no wider than
/// the area). `h_for_w` is the height at the full width and `w_for_h` the
/// width at the largest even height, each rounded from the aspect ratio. At
/// least 1 pixel wide and 2 high.
pub open spec fn ansi_size_of(cols: u16, rows: u16, h_for_w: u32, w_for_h: u32) -> (u32, u32) {
    let target_w = cols as u32;
    let max_h = (rows as u32 * 2) as u32;
    let h0 = if h_for_w % 2 != 0 {
        (h_for_w + 1) as u32
    } else {
        h_for_w
    };
    let (w, h) = if h0 > max_h {
        (
            if w_for_h > target_w {
                target_w
            } else {
                w_for_h
            },
            (max_h - max_h % 2) as u32,
        )
    } else {
        (target_w, h0)
    };
    (if w < 1 {
        1
    } else {
        w
    }, if h < 2 {
        2
    } else {
        h
    })
}

/// The size a frame is resampled to (see [`ansi_size_of`]).
pub fn ansi_size(cols: u16, rows: u16, h_for_w: u32, w_for_h: u32) -> (r: (u32, u32))
    requires
        h_for_w < u32::MAX,
    ensures
        r == ansi_size_of(cols, rows, h_for_w, w_for_h),
{
    let target_w = cols as u32;
    let max_h = rows as u32 * 2;
    let mut new_w = target_w;
    let mut new_h = h_for_w;
    if new_h % 2 != 0 {
        new_h = new_h + 1;
    }
    if new_h > max_h {
        new_h = max_h - (max_h % 2);
        new_w = w_for_h;
        if new_w > target_w {
            new_w = target_w;
        }
    }
    (if new_w < 1 {
        1
    } else {
        new_w
    }, if new_h < 2 {
        2
    } else {
        new_h
    })
}

} // verus!
