//! The terminal's size in cells, and the pixel size of one cell.
use vstd::prelude::*;

use vstd::utf8::{decode_utf8, valid_utf8};

use crate::text::{
    chars_of, find_char, find_seq, first_index, first_occurrence, parse_unsigned,
    parse_unsigned_upto, same, slice_of, split_char, split_on, views,
};

verus! {

/// The terminal's size.
#[derive(Clone, Copy, Debug)]
pub struct CellSize {
    pub cols: u16,
    pub rows: u16,
    /// Pixel size `(width, height)` of one cell, if the terminal answered CSI 16t.
    pub cell_px: Option<(u16, u16)>,
}

/// `std::str::from_utf8`, giving an owned copy of the text.
#[verifier::external_body]
fn utf8_text(b: &[u8]) -> (r: Option<String>)
    ensures
        r is Some <==> valid_utf8(b@),
        r matches Some(s) ==> s@ == decode_utf8(b@),
{
    std::str::from_utf8(b).ok().map(|s| s.to_string())
}

/// The cell size in the body `6;H;W` of a reply, as `(W, H)`: exactly three
/// `;`-separated fields, `6` first, then two non-zero `u16`s.
pub open spec fn body_cell_size(body: Seq<char>) -> Option<(u16, u16)> {
    let parts = split_on(body, ';');
    if parts.len() != 3 || parts[0] != "6"@ {
        None
    } else {
        match (parse_unsigned(parts[1], 0xffff), parse_unsigned(parts[2], 0xffff)) {
            (Some(h), Some(w)) => if w == 0 || h == 0 {
                None
            } else {
                Some((w as u16, h as u16))
            },
            _ => None,
        }
    }
}

/// The cell size a `CSI 6 ; H ; W t` reply reports: the body is looked for
/// after the first `ESC [`, up to the next `t`.
pub open spec fn reply_cell_size(s: Seq<char>) -> Option<(u16, u16)> {
    let start = first_occurrence(s, "\x1b["@);
    if start < 0 {
        None
    } else {
        let tail = s.subrange(start + 2, s.len() as int);
        let end = first_index(tail, 't');
        if end < 0 {
            None
        } else {
            body_cell_size(tail.subrange(0, end))
        }
    }
}

fn body_size(body: &Vec<char>) -> (r: Option<(u16, u16)>)
    ensures
        r == body_cell_size(body@),
{
    let parts = split_char(body.as_slice(), ';');
    if parts.len() != 3 {
        return None;
    }
    proof {
        assert(views(parts@)[0] == parts@[0]@);
        assert(views(parts@)[1] == parts@[1]@);
        assert(views(parts@)[2] == parts@[2]@);
    }
    if !same(parts[0].as_slice(), chars_of("6").as_slice()) {
        return None;
    }
    let h = parse_unsigned_upto(parts[1].as_slice(), 0xffff);
    let w = parse_unsigned_upto(parts[2].as_slice(), 0xffff);
    match (h, w) {
        (Some(h), Some(w)) => {
            if w == 0 || h == 0 {
                None
            } else {
                Some((w as u16, h as u16))
            }
        },
        _ => None,
    }
}

fn reply_size(s: &Vec<char>) -> (r: Option<(u16, u16)>)
    ensures
        r == reply_cell_size(s@),
{
    let csi = chars_of("\x1b[");
    let start = match find_seq(s.as_slice(), csi.as_slice()) {
        Some(k) => k,
        None => {
            return None;
        },
    };
    proof {
        reveal_strlit("\x1b[");
        assert(csi@.len() == 2);
    }
    let n = s.len();
    assert(start + csi@.len() <= n);
    let tail = slice_of(s.as_slice(), start + csi.len(), n);
    let end = match find_char(tail.as_slice(), 't') {
        Some(k) => k,
        None => {
            return None;
        },
    };
    proof {
        crate::text::lemma_first_index(tail@, 't');
    }
    let body = slice_of(tail.as_slice(), 0, end);
    body_size(&body)
}

/// Parses the terminal's reply to `CSI 16 t` (see [`reply_cell_size`]); bytes
/// that are not UTF-8 give `None`.
pub fn parse_16t(buf: &[u8]) -> (r: Option<(u16, u16)>)
    ensures
        r == if valid_utf8(buf@) {
            reply_cell_size(decode_utf8(buf@))
        } else {
            None
        },
{
    match utf8_text(buf) {
        Some(t) => reply_size(&chars_of(t.as_str())),
        None => None,
    }
}

/// A reply in the `CSI ... t` form is complete once a `t` (byte 116) has arrived.
pub fn response_complete(buf: &[u8]) -> (b: bool)
    ensures
        b == buf@.contains(116u8),
{
    let mut i: usize = 0;
    while i < buf.len()
        invariant
            i <= buf@.len(),
            forall|j: int| 0 <= j < i ==> buf@[j] != 116u8,
        decreases buf.len() - i,
    {
        if buf[i] == 116u8 {
            proof {
                assert(buf@[i as int] == 116u8);
            }
            return true;
        }
        i = i + 1;
    }
    false
}

} // verus!
