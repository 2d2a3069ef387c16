//! The editor's modal: its height, the rows of its input, and how far the
//! input scrolls to keep the cursor in view.
use vstd::prelude::*;

use crate::text::chars_of;

verus! {

/// The width of the editor's modal, borders included.
pub const EDITOR_MODAL_WIDTH: u16 = 68;

/// `t` with a newline before every character whose index is a positive
/// multiple of `w`; unchanged when `w` is zero.
pub open spec fn char_wrapped(t: Seq<char>, w: int) -> Seq<char>
    decreases t.len(),
{
    if w <= 0 || t.len() == 0 {
        t
    } else {
        let pre = char_wrapped(t.drop_last(), w);
        let i = t.len() - 1;
        if i > 0 && i % w == 0 {
            pre.push('\n').push(t.last())
        } else {
            pre.push(t.last())
        }
    }
}

/// The text cut into rows of `width` characters, one row to a line.
pub fn char_wrap_text(text: &str, width: usize) -> (r: String)
    ensures
        r@ == char_wrapped(text@, width as int),
{
    let chars = chars_of(text);
    if width == 0 || chars.len() == 0 {
        return crate::text::owned(text);
    }
    let mut out: Vec<char> = Vec::new();
    let mut i: usize = 0;
    assert(chars@.subrange(0, 0) =~= Seq::<char>::empty());
    while i < chars.len()
        invariant
            width > 0,
            i <= chars.len(),
            out@ == char_wrapped(chars@.subrange(0, i as int), width as int),
        decreases chars.len() - i,
    {
        assert(chars@.subrange(0, i + 1).drop_last() =~= chars@.subrange(0, i as int));
        if i > 0 && i % width == 0 {
            out.push('\n');
        }
        out.push(chars[i]);
        i = i + 1;
    }
    assert(chars@.subrange(0, chars.len() as int) =~= chars@);
    crate::text::string_of(&out)
}

/// The number of rows the input takes: one more than whole rows of the
/// modal's inner width, as a `u16` (wrapping), kept between one and ten.
pub open spec fn input_rows(char_count: int) -> int {
    let rows = ((char_count / (EDITOR_MODAL_WIDTH - 2) as int + 1) as u16) as int;
    if rows < 1 {
        1
    } else if rows > 10 {
        10
    } else {
        rows
    }
}

/// The modal's height: the input's rows, the helper lines, the borders and
/// a blank line, at least nine and at most two less than the screen, one
/// more when that centres it evenly.
pub open spec fn modal_height(char_count: int, helper_lines: int, area_height: int) -> int {
    let desired = input_rows(char_count) + helper_lines + 3;
    let max_height = if area_height >= 2 { area_height - 2 } else { 0 };
    let h0 = if desired > 9 { desired } else { 9 };
    let h = if h0 < max_height { h0 } else { max_height };
    let remainder = if area_height >= h { area_height - h } else { 0 };
    if remainder % 2 != 0 {
        if h + 1 < max_height { h + 1 } else { max_height }
    } else {
        h
    }
}

/// The height of the editor's modal (see `modal_height`).
pub fn editor_modal_height(char_count: usize, helper_lines: u16, area_height: u16) -> (r: u16)
    requires
        helper_lines + 13 <= u16::MAX,
    ensures
        r as int == modal_height(char_count as int, helper_lines as int, area_height as int),
{
    let inner_width: usize = (EDITOR_MODAL_WIDTH - 2) as usize;
    let raw_rows: u16 = (char_count / inner_width + 1) as u16;
    let rows: u16 = if raw_rows < 1 {
        1
    } else if raw_rows > 10 {
        10
    } else {
        raw_rows
    };
    let desired: u16 = rows + helper_lines + 3;
    let max_height: u16 = if area_height >= 2 { area_height - 2 } else { 0 };
    let h0: u16 = if desired > 9 { desired } else { 9 };
    let h: u16 = if h0 < max_height { h0 } else { max_height };
    let remainder: u16 = if area_height >= h { area_height - h } else { 0 };
    if remainder % 2 != 0 {
        if h + 1 < max_height { h + 1 } else { max_height }
    } else {
        h
    }
}

/// How many rows the input scrolls so that the cursor's row is the last
/// one shown when it is below the input's height.
pub open spec fn input_scroll(cursor_pos: int, inner_width: int, input_height: int) -> int {
    let cursor_row = if inner_width > 0 { cursor_pos / inner_width } else { 0 };
    if input_height > 0 && cursor_row >= input_height {
        cursor_row - input_height + 1
    } else {
        0
    }
}

/// The scroll of the editor's input (see `input_scroll`).
pub fn editor_input_scroll(cursor_pos: usize, inner_width: usize, input_height: usize) -> (r: usize)
    ensures
        r as int == input_scroll(cursor_pos as int, inner_width as int, input_height as int),
{
    let cursor_row = if inner_width > 0 { cursor_pos / inner_width } else { 0 };
    if input_height > 0 && cursor_row >= input_height {
        cursor_row - input_height + 1
    } else {
        0
    }
}

} // verus!
