//! Laying out the image and the info column, and the text that paints them.
use vstd::prelude::*;

use crate::info::modules::{lines_view, InfoLine, LineKind, LineV};
use crate::text::{append_dec, append_repeat, dec, repeat_char, string_views};

verus! {

/// Bold cyan.
pub open spec fn accent() -> Seq<char> {
    "\x1b[1;36m"@
}

/// Attribute reset.
pub open spec fn reset() -> Seq<char> {
    "\x1b[0m"@
}

/// The first swatch row: the eight normal background colours.
pub open spec fn swatches(prefix: Seq<char>, upto: nat) -> Seq<char>
    decreases upto,
{
    if upto == 0 {
        Seq::empty()
    } else {
        swatches(prefix, (upto - 1) as nat) + prefix + dec((upto - 1) as nat) + "m   "@ + reset()
    }
}

/// The terminal lines one info line becomes.
pub open spec fn line_text(l: LineV) -> Seq<Seq<char>> {
    match l {
        LineV::Title(s) => seq![accent() + s + reset()],
        LineV::Separator(n) => seq!["\x1b[2m"@ + repeat_char('─', n) + reset()],
        LineV::Field(label, value) => seq![accent() + label + reset() + ": "@ + value],
        LineV::Break => seq![Seq::empty()],
        LineV::Colors => seq![swatches("\x1b[4"@, 8), swatches("\x1b[10"@, 8)],
    }
}

/// The terminal lines of a whole info column.
pub open spec fn info_text(ls: Seq<LineV>) -> Seq<Seq<char>>
    decreases ls.len(),
{
    if ls.len() == 0 {
        Seq::empty()
    } else {
        info_text(ls.drop_last()) + line_text(ls.last())
    }
}

fn swatch_row(prefix: &str) -> (r: String)
    ensures
        r@ == swatches(prefix@, 8),
{
    let mut s = String::new();
    let mut code: u64 = 0;
    while code < 8
        invariant
            code <= 8,
            s@ == swatches(prefix@, code as nat),
        decreases 8 - code,
    {
        s.append(prefix);
        append_dec(&mut s, code);
        s.append("m   ");
        s.append("\x1b[0m");
        code = code + 1;
    }
    s
}

/// Renders the info lines as terminal text: coloured titles and labels, a
/// dimmed divider, blank spacers and two rows of colour swatches.
pub fn format_info(info: &Vec<InfoLine>) -> (r: Vec<String>)
    ensures
        string_views(r@) == info_text(lines_view(info@)),
{
    let mut out: Vec<String> = Vec::new();
    let mut i: usize = 0;
    while i < info.len()
        invariant
            i <= info@.len(),
            string_views(out@) =~= info_text(lines_view(info@.subrange(0, i as int))),
        decreases info.len() - i,
    {
        proof {
            assert(lines_view(info@.subrange(0, i + 1)).drop_last() =~= lines_view(
                info@.subrange(0, i as int),
            ));
            assert(lines_view(info@.subrange(0, i + 1)).last() == info@[i as int]@);
        }
        let ghost before = out@;
        match &info[i].kind {
            LineKind::Title(s) => {
                let mut t = String::from_str("\x1b[1;36m");
                t.append(s.as_str());
                t.append("\x1b[0m");
                out.push(t);
            },
            LineKind::Separator(n) => {
                let mut t = String::from_str("\x1b[2m");
                append_repeat(&mut t, '─', *n);
                t.append("\x1b[0m");
                out.push(t);
            },
            LineKind::Field { label, value } => {
                let mut t = String::from_str("\x1b[1;36m");
                t.append(label.as_str());
                t.append("\x1b[0m");
                t.append(": ");
                t.append(value.as_str());
                out.push(t);
            },
            LineKind::Break => {
                out.push(String::new());
            },
            LineKind::Colors => {
                out.push(swatch_row("\x1b[4"));
                out.push(swatch_row("\x1b[10"));
            },
        }
        proof {
            assert(string_views(out@) =~= string_views(before) + line_text(info@[i as int]@));
        }
        i = i + 1;
    }
    proof {
        assert(info@.subrange(0, info@.len() as int) =~= info@);
    }
    out
}


/// Restore the saved cursor (DECRC).
pub open spec fn restore() -> Seq<char> {
    "\x1b8"@
}

/// The text for row `i` of the painted info column.
pub open spec fn paint_row(lines: Seq<Seq<char>>, col: nat, i: nat) -> Seq<char> {
    restore() + (if i > 0 {
        "\x1b["@ + dec(i) + "B"@
    } else {
        Seq::empty()
    }) + (if col > 0 {
        "\x1b["@ + dec(col) + "C"@
    } else {
        Seq::empty()
    }) + "\x1b[K"@ + (if i < lines.len() {
        lines[i as int]
    } else {
        Seq::empty()
    })
}

/// Rows `0..upto` of the painted info column.
pub open spec fn paint_rows(lines: Seq<Seq<char>>, col: nat, upto: nat) -> Seq<char>
    decreases upto,
{
    if upto == 0 {
        Seq::empty()
    } else {
        paint_rows(lines, col, (upto - 1) as nat) + paint_row(lines, col, (upto - 1) as nat)
    }
}

/// Paints `lines` starting at the saved anchor, indented `col` columns. Always
/// paints exactly `reserved` rows: shorter content is padded with erased rows,
/// longer content is cut. Each row erases to the end of the line first, so
/// stale text from a longer previous paint never stays. Ends back at the anchor.
#[verifier::spinoff_prover]
#[verifier::rlimit(50)]
pub fn paint_info(lines: &Vec<String>, col: u16, reserved: u16) -> (r: String)
    ensures
        r@ == paint_rows(string_views(lines@), col as nat, reserved as nat) + restore(),
{
    let mut out = String::new();
    let mut i: u16 = 0;
    while i < reserved
        invariant
            i <= reserved,
            out@ == paint_rows(string_views(lines@), col as nat, i as nat),
        decreases reserved - i,
    {
        let ghost before = out@;
        out.append("\x1b8");
        if i > 0 {
            out.append("\x1b[");
            append_dec(&mut out, i as u64);
            out.append("B");
        }
        if col > 0 {
            out.append("\x1b[");
            append_dec(&mut out, col as u64);
            out.append("C");
        }
        out.append("\x1b[K");
        if (i as usize) < lines.len() {
            out.append(lines[i as usize].as_str());
        }
        proof {
            assert(out@ =~= before + paint_row(string_views(lines@), col as nat, i as nat));
        }
        i = i + 1;
    }
    out.append("\x1b8");
    out
}

/// Hide the cursor, reserve `rows` lines below it, go back up and save the
/// top-left anchor (DECSC).
pub open spec fn opening_text(rows: nat) -> Seq<char> {
    "\x1b[?25l"@ + repeat_char('\n', rows) + "\x1b["@ + dec(rows) + "A"@ + "\x1b7"@
}

/// The text written before the first paint.
pub fn opening(rows: u16) -> (r: String)
    ensures
        r@ == opening_text(rows as nat),
{
    let mut s = String::from_str("\x1b[?25l");
    append_repeat(&mut s, '\n', rows as usize);
    s.append("\x1b[");
    append_dec(&mut s, rows as u64);
    s.append("A");
    s.append("\x1b7");
    s
}

/// Back to the anchor, below the reserved rows, to column 0, cursor shown.
pub open spec fn closing_text(rows: nat) -> Seq<char> {
    "\x1b8"@ + "\x1b["@ + dec(rows) + "B"@ + "\r"@ + "\x1b[?25h"@
}

/// The text written when the program is done.
pub fn closing(rows: u16) -> (r: String)
    ensures
        r@ == closing_text(rows as nat),
{
    let mut s = String::from_str("\x1b8");
    s.append("\x1b[");
    append_dec(&mut s, rows as u64);
    s.append("B");
    s.append("\r");
    s.append("\x1b[?25h");
    s
}

/// Where things go on screen.
#[derive(Clone, Copy, Debug, PartialEq, Eq, Structural)]
pub struct Placement {
    /// Columns given to the image (0: no image).
    pub image_cols: u16,
    /// Column where the info text starts.
    pub info_col: u16,
    /// Rows reserved for the whole output.
    pub total_rows: u16,
}

/// Columns for the image: the configured width, leaving at least 20 columns
/// of the terminal for text; none without an image or protocol.
pub open spec fn image_cols_for(shown: bool, wanted: u16, term_cols: u16) -> u16 {
    if shown {
        let room = if term_cols >= 20 {
            (term_cols - 20) as u16
        } else {
            0u16
        };
        if wanted < room {
            wanted
        } else {
            room
        }
    } else {
        0
    }
}

/// Places the image and the info column: a two-column gutter after a
/// non-empty image, and enough rows for the taller of the two (at least one).
pub fn place(
    has_image: bool,
    protocol_on: bool,
    wanted_cols: u16,
    term_cols: u16,
    info_rows: u16,
    image_rows: u16,
) -> (p: Placement)
    ensures
        p.image_cols == image_cols_for(has_image && protocol_on, wanted_cols, term_cols),
        p.info_col == p.image_cols + if p.image_cols > 0 {
            2int
        } else {
            0int
        },
        p.total_rows >= 1,
        p.total_rows >= info_rows,
        p.total_rows >= image_rows,
        p.total_rows == info_rows || p.total_rows == image_rows || p.total_rows == 1,
{
    let image_cols = if has_image && protocol_on {
        let room = term_cols.saturating_sub(20);
        if wanted_cols < room {
            wanted_cols
        } else {
            room
        }
    } else {
        0
    };
    let gutter: u16 = if image_cols > 0 {
        2
    } else {
        0
    };
    let mut total = if info_rows > image_rows {
        info_rows
    } else {
        image_rows
    };
    if total < 1 {
        total = 1;
    }
    Placement { image_cols, info_col: image_cols + gutter, total_rows: total }
}

/// The live loop's schedule, in milliseconds since start.
pub struct LiveLoop {
    /// Index of the frame on screen.
    pub frame_idx: usize,
    /// When the next animation frame is due, if animating.
    pub next_frame_at: Option<u64>,
    /// When the info column is next refreshed.
    pub next_info_at: u64,
    /// Refresh interval of the info column.
    pub refresh_ms: u64,
}

/// What one pass of the live loop does.
#[derive(Clone, Copy, Debug, PartialEq, Eq, Structural)]
pub enum Step {
    /// Ctrl-C was pressed: leave the loop.
    Stop,
    /// Render the given frame (if any) and refresh the info (if due).
    Work { frame: Option<usize>, refresh_info: bool },
}

impl LiveLoop {
    /// The schedule right after the first paint at time `now`: the next frame is
    /// due after `first_delay` only when animating several frames live.
    pub fn start(now: u64, refresh_ms: u64, animate: bool, frame_count: usize, first_delay: u64) -> (
        r: LiveLoop)
        requires
            now + refresh_ms <= u64::MAX,
            now + first_delay <= u64::MAX,
        ensures
            r.frame_idx == 0,
            r.next_frame_at == if animate && frame_count > 1 {
                Some((now + first_delay) as u64)
            } else {
                None::<u64>
            },
            r.next_info_at == now + refresh_ms,
            r.refresh_ms == refresh_ms,
    {
        LiveLoop {
            frame_idx: 0,
            next_frame_at: if animate && frame_count > 1 {
                Some(now + first_delay)
            } else {
                None
            },
            next_info_at: now + refresh_ms,
            refresh_ms,
        }
    }

    /// Decides one pass at time `now`: stop when asked; otherwise advance to
    /// the next frame (wrapping around) when it is due, and refresh the info
    /// when it is due.
    pub fn plan(&mut self, now: u64, stop: bool, frame_count: usize) -> (s: Step)
        requires
            old(self).frame_idx < usize::MAX,
        ensures
            stop ==> s == Step::Stop && *final(self) == *old(self),
            !stop ==> {
                let due = old(self).next_frame_at matches Some(d) && now >= d;
                let total = if frame_count > 1 {
                    frame_count as int
                } else {
                    1
                };
                let next = if due {
                    ((old(self).frame_idx + 1) % total) as usize
                } else {
                    old(self).frame_idx
                };
                &&& s == Step::Work {
                    frame: if due {
                        Some(next)
                    } else {
                        None
                    },
                    refresh_info: now >= old(self).next_info_at,
                }
                &&& final(self).frame_idx == next
                &&& final(self).next_frame_at == old(self).next_frame_at
                &&& final(self).next_info_at == old(self).next_info_at
                &&& final(self).refresh_ms == old(self).refresh_ms
            },
            old(self).frame_idx < frame_count ==> final(self).frame_idx < frame_count,
    {
        if stop {
            return Step::Stop;
        }
        let mut frame: Option<usize> = None;
        if let Some(deadline) = self.next_frame_at {
            if now >= deadline {
                let total = if frame_count > 1 {
                    frame_count
                } else {
                    1
                };
                let next = (self.frame_idx + 1) % total;
                self.frame_idx = next;
                frame = Some(next);
            }
        }
        Step::Work { frame, refresh_info: now >= self.next_info_at }
    }

    /// A frame was drawn at time `now` and asks to stay `delay` ms.
    pub fn frame_drawn(&mut self, now: u64, delay: u64)
        requires
            now + delay <= u64::MAX,
        ensures
            final(self).next_frame_at == Some((now + delay) as u64),
            final(self).frame_idx == old(self).frame_idx,
            final(self).next_info_at == old(self).next_info_at,
            final(self).refresh_ms == old(self).refresh_ms,
    {
        self.next_frame_at = Some(now + delay);
    }

    /// The info column was refreshed at time `now`.
    pub fn info_drawn(&mut self, now: u64)
        requires
            now + old(self).refresh_ms <= u64::MAX,
        ensures
            final(self).next_info_at == now + old(self).refresh_ms,
            final(self).frame_idx == old(self).frame_idx,
            final(self).next_frame_at == old(self).next_frame_at,
            final(self).refresh_ms == old(self).refresh_ms,
    {
        self.next_info_at = now + self.refresh_ms;
    }

    /// How long to sleep at time `now`: until the earlier deadline, at most 50 ms.
    pub fn wait(&self, now: u64) -> (ms: u64)
        ensures
            ({
                let next = match self.next_frame_at {
                    Some(f) => if f < self.next_info_at {
                        f
                    } else {
                        self.next_info_at
                    },
                    None => self.next_info_at,
                };
                let left = if next > now {
                    next - now
                } else {
                    0
                };
                ms == if left < 50 {
                    left
                } else {
                    50
                }
            }),
    {
        let next = match self.next_frame_at {
            Some(f) => if f < self.next_info_at {
                f
            } else {
                self.next_info_at
            },
            None => self.next_info_at,
        };
        let left = if next > now {
            next - now
        } else {
            0
        };
        if left < 50 {
            left
        } else {
            50
        }
    }
}

} // verus!
