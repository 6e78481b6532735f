use vstd::prelude::*;
use vstd::utf8::{encode_scalar, encode_utf8};

use crate::buffer::{Buffer, BufferModel};
use crate::state::{mode_status, InputState};
use crate::util::ClosedInterval;
use crate::util::{digits, push_char_to_vec_u8, push_itoa_usize_to_vec_u8, push_str_to_vec_u8};

verus! {

pub const DIM: &'static str = "\x1b[2m";

pub const CURSOR: &'static str = "\x1b[7m";

pub const RESET: &'static str = "\x1b[0m";

pub const STATUS: &'static str = "\x1b[97m\x1b[44m";

pub const CLEAR_ALL: &'static str = "\x1b[2J";

pub const CLEAR_CUR_LINE: &'static str = "\x1b[2K";

pub const CURSOR_SHOW: &'static str = "\x1b[?25h";

pub const CURSOR_HIDE: &'static str = "\x1b[?25l";

/// Cells of the marks drawn for a clipped row end.
pub const SYMB_CHAR_W: usize = 1;

/// Cells of a character drawn as an escape (`\t`, `\?`).
pub const REPLACED_CHAR_W: usize = 2;

/// Horizontal room (in half-width cells) kept around the cursor before scrolling.
pub const SCROLL_MARGIN: usize = 8;

pub const MIN_TERM_H: usize = 2;

/// Terminal cells that `c` takes: `None` for a character that is drawn as an escape instead
/// (control characters, combining marks, emoji and the like).
pub open spec fn width_of(c: char) -> Option<usize> {
    let v = c as u32;
    if 0x20 <= v <= 0x7E {
        Some(1)
    } else if 0x3040 <= v <= 0x309F || 0x30A0 <= v <= 0x30FF || 0x2E80 <= v <= 0xD7A3 || 0xF900
        <= v <= 0xFAFF || 0x20000 <= v <= 0x3FFFF {
        Some(2)
    } else if 0xFF61 <= v <= 0xFF9F {
        Some(1)
    } else if 0xFF01 <= v <= 0xFF60 || 0xFFE0 <= v <= 0xFFE6 || 0x1100 <= v <= 0x11FF {
        Some(2)
    } else if v <= 0x1F || 0x7F <= v <= 0x9F || 0x200B <= v <= 0x200F || 0x0300 <= v <= 0x036F
        || 0x1AB0 <= v <= 0x1AFF || 0x1DC0 <= v <= 0x1DFF || 0x20D0 <= v <= 0x20FF || 0xFE20 <= v
        <= 0xFE2F || 0xFE00 <= v <= 0xFE0F || 0x202A <= v <= 0x202E || 0x2066 <= v <= 0x2069
        || 0x1F300 <= v <= 0x1FAFF || 0xE0100 <= v <= 0xE01EF || 0xE0000 <= v <= 0xE007F {
        None
    } else {
        Some(1)
    }
}

/// Cells that `c` takes once drawn, escapes included.
pub open spec fn cells_of(c: char) -> int {
    match width_of(c) {
        Some(w) => w as int,
        None => REPLACED_CHAR_W as int,
    }
}

/// Cells of the first `k` characters of `line`.
pub open spec fn prefix_cells(line: Seq<char>, k: int) -> int
    decreases k,
{
    if k <= 0 || line.len() == 0 {
        0
    } else if k > line.len() {
        prefix_cells(line, line.len() as int)
    } else {
        prefix_cells(line, k - 1) + cells_of(line[k - 1])
    }
}

pub fn char_width(c: char) -> (r: Option<usize>)
    ensures
        r == width_of(c),
{
    let v = c as u32;
    if 0x20 <= v && v <= 0x7E {
        Some(1)
    } else if (0x3040 <= v && v <= 0x309F) || (0x30A0 <= v && v <= 0x30FF) || (0x2E80 <= v && v
        <= 0xD7A3) || (0xF900 <= v && v <= 0xFAFF) || (0x20000 <= v && v <= 0x3FFFF) {
        Some(2)
    } else if 0xFF61 <= v && v <= 0xFF9F {
        Some(1)
    } else if (0xFF01 <= v && v <= 0xFF60) || (0xFFE0 <= v && v <= 0xFFE6) || (0x1100 <= v && v
        <= 0x11FF) {
        Some(2)
    } else if v <= 0x1F || (0x7F <= v && v <= 0x9F) || (0x200B <= v && v <= 0x200F) || (0x0300
        <= v && v <= 0x036F) || (0x1AB0 <= v && v <= 0x1AFF) || (0x1DC0 <= v && v <= 0x1DFF) || (
    0x20D0 <= v && v <= 0x20FF) || (0xFE20 <= v && v <= 0xFE2F) || (0xFE00 <= v && v <= 0xFE0F)
        || (0x202A <= v && v <= 0x202E) || (0x2066 <= v && v <= 0x2069) || (0x1F300 <= v && v
        <= 0x1FAFF) || (0xE0100 <= v && v <= 0xE01EF) || (0xE0000 <= v && v <= 0xE007F) {
        None
    } else {
        Some(1)
    }
}

fn cells(c: char) -> (r: usize)
    ensures
        r == cells_of(c),
        1 <= r <= 2,
{
    match char_width(c) {
        Some(w) => w,
        None => REPLACED_CHAR_W,
    }
}

proof fn lemma_prefix_cells_step(line: Seq<char>, k: int)
    requires
        0 <= k < line.len(),
    ensures
        prefix_cells(line, k + 1) == prefix_cells(line, k) + cells_of(line[k]),
{
}

proof fn lemma_prefix_cells_bounds(line: Seq<char>, k: int)
    requires
        0 <= k <= line.len(),
    ensures
        k <= prefix_cells(line, k) <= 2 * k,
    decreases k,
{
    if k > 0 {
        lemma_prefix_cells_bounds(line, k - 1);
    }
}

/// Scanning from character `k` with `acc` cells taken: the index of the first character that
/// no longer fits in `left` cells (or the length of the line).
pub open spec fn fit_from(line: Seq<char>, k: int, acc: int, left: int) -> int
    decreases line.len() - k,
{
    if k < 0 || k >= line.len() || acc + cells_of(line[k]) > left {
        k
    } else {
        fit_from(line, k + 1, acc + cells_of(line[k]), left)
    }
}

/// How many leading characters of `line` fit in `left` cells.
pub open spec fn fit_count(line: Seq<char>, left: int) -> int {
    fit_from(line, 0, 0, left)
}

/// How many leading characters of `line` fit in `left_cells` cells: those hidden by a
/// horizontal scroll of that many cells.
pub fn calc_offset(line: &[char], left_cells: usize) -> (r: usize)
    ensures
        r == fit_count(line@, left_cells as int),
        r <= line@.len(),
        prefix_cells(line@, r as int) <= left_cells,
        r < line@.len() ==> prefix_cells(line@, r + 1) > left_cells,
{
    let mut ignored_cells: usize = 0;
    let mut offset: usize = 0;
    while offset < line.len()
        invariant
            offset <= line@.len(),
            ignored_cells == prefix_cells(line@, offset as int),
            ignored_cells <= left_cells,
            fit_from(line@, offset as int, ignored_cells as int, left_cells as int) == fit_count(
                line@,
                left_cells as int,
            ),
        decreases line@.len() - offset,
    {
        let w = cells(line[offset]);
        proof {
            lemma_prefix_cells_step(line@, offset as int);
        }
        if w > left_cells - ignored_cells {
            return offset;
        }
        ignored_cells = ignored_cells + w;
        offset = offset + 1;
    }
    offset
}

/// Cells before the cursor column.
fn cells_before(line: &[char], cursor_col: usize) -> (r: usize)
    requires
        line@.len() <= usize::MAX / 2,
    ensures
        r == prefix_cells(line@, cursor_col as int),
{
    let n = if cursor_col < line.len() {
        cursor_col
    } else {
        line.len()
    };
    let mut sum: usize = 0;
    let mut i: usize = 0;
    while i < n
        invariant
            i <= n <= line@.len(),
            line@.len() <= usize::MAX / 2,
            sum == prefix_cells(line@, i as int),
        decreases n - i,
    {
        proof {
            lemma_prefix_cells_step(line@, i as int);
            lemma_prefix_cells_bounds(line@, i as int);
        }
        sum = sum + cells(line[i]);
        i = i + 1;
    }
    sum
}

/// The scroll (in cells) that keeps the cursor in view: kept while the cursor's cell lies
/// within the margins of the current view, else re-centred on the cursor.
pub open spec fn left_cells_for(old_left: int, term_w: int, line: Seq<char>, cursor_col: int) -> int {
    let cur = prefix_cells(line, cursor_col);
    let hi = old_left + if term_w >= SCROLL_MARGIN {
        term_w - SCROLL_MARGIN
    } else {
        0
    };
    if old_left + SCROLL_MARGIN <= cur <= hi {
        old_left
    } else if cur >= term_w / 2 {
        cur - term_w / 2
    } else {
        0
    }
}

/// The escape sequence that moves the terminal cursor to (`row`, `col`).
pub open spec fn goto_bytes(row: nat, col: nat) -> Seq<u8> {
    encode_utf8("\x1b["@) + digits(row, 10) + encode_scalar(';' as u32) + digits(col, 10)
        + encode_scalar('H' as u32)
}

/// Appends the escape sequence that moves the terminal cursor to (`row`, `col`), 1-based.
pub fn push_cursor_goto(out: &mut Vec<u8>, row: usize, col: usize)
    ensures
        final(out)@ == old(out)@ + goto_bytes(row as nat, col as nat),
{
    push_str_to_vec_u8(out, "\x1b[");
    push_itoa_usize_to_vec_u8(out, row, 10);
    push_char_to_vec_u8(out, ';');
    push_itoa_usize_to_vec_u8(out, col, 10);
    push_char_to_vec_u8(out, 'H');
    proof {
        assert(final(out)@ =~= old(out)@ + goto_bytes(row as nat, col as nat));
    }
}

/// The bytes drawn for `c`: the character itself, or an escape (`\t` for a tab, `\?`
/// otherwise) when it is not drawn as is.
pub open spec fn drawn_bytes(c: char, replace: bool) -> Seq<u8> {
    if replace {
        if c == '\t' {
            encode_utf8("\\t"@)
        } else {
            encode_utf8("\\?"@)
        }
    } else {
        encode_scalar(c as u32)
    }
}

pub fn push_replaced_char(out: &mut Vec<u8>, c: char, replace: bool)
    ensures
        final(out)@ == old(out)@ + drawn_bytes(c, replace),
{
    if replace {
        let replaced = if c == '\t' {
            "\\t"
        } else {
            "\\?"
        };
        push_str_to_vec_u8(out, replaced);
    } else {
        push_char_to_vec_u8(out, c);
    }
}

/// Appends `c` wrapped in the attribute `fmt` and a reset.
pub fn push_fmt_ch(out: &mut Vec<u8>, fmt: &str, c: char)
    ensures
        final(out)@ == old(out)@ + encode_utf8(fmt@) + encode_scalar(c as u32) + encode_utf8(
            RESET@,
        ),
{
    push_str_to_vec_u8(out, fmt);
    push_char_to_vec_u8(out, c);
    push_str_to_vec_u8(out, RESET);
    proof {
        assert(final(out)@ =~= old(out)@ + encode_utf8(fmt@) + encode_scalar(c as u32)
            + encode_utf8(RESET@));
    }
}

/// What `push_str_until` draws of `s` with `counter` cells left, and the cells left after:
/// characters are drawn while at least one cell would remain after them.
pub open spec fn until(s: Seq<char>, counter: int) -> (Seq<u8>, int)
    decreases s.len(),
{
    if counter == 0 || s.len() == 0 || counter - cells_of(s[0]) < 1 {
        (seq![], counter)
    } else {
        let (rest, left) = until(s.drop_first(), counter - cells_of(s[0]));
        (drawn_bytes(s[0], width_of(s[0]) is None) + rest, left)
    }
}

/// Draws as much of `s` as fits in `*cell_counter` cells, keeping one cell free, and counts
/// the cells used.
pub fn push_str_until(out: &mut Vec<u8>, s: &str, cell_counter: &mut usize)
    ensures
        final(out)@ == old(out)@ + until(s@, *old(cell_counter) as int).0,
        *final(cell_counter) as int == until(s@, *old(cell_counter) as int).1,
{
    if *cell_counter == 0 {
        return;
    }
    let ghost c0 = *cell_counter as int;
    let ghost o0 = out@;
    let ghost mut drawn: Seq<u8> = Seq::empty();
    let mut done = false;
    proof {
        assert(s@.skip(0) =~= s@);
        let r = until(s@, c0);
        assert(drawn + r.0 =~= r.0);
        assert(out@ =~= o0 + drawn);
    }
    for c in it: s.chars()
        invariant
            it.seq() == s@,
            out@ == o0 + drawn,
            !done ==> until(s@, c0) == ({
                let r = until(s@.skip(it.index() as int), *cell_counter as int);
                (drawn + r.0, r.1)
            }),
            done ==> drawn == until(s@, c0).0 && *cell_counter as int == until(s@, c0).1,
    {
        if !done {
            let ghost t = s@.skip(it.index() as int);
            proof {
                assert(t[0] == c);
                assert(t.drop_first() =~= s@.skip(it.index() + 1));
            }
            let width_opt = char_width(c);
            let w = cells(c);
            if *cell_counter <= w {
                proof {
                    assert(until(t, *cell_counter as int) == (Seq::<u8>::empty(), *cell_counter as int));
                    assert(drawn + Seq::<u8>::empty() =~= drawn);
                }
                done = true;
            } else {
                push_replaced_char(out, c, width_opt.is_none());
                *cell_counter = *cell_counter - w;
                proof {
                    let rest = until(t.drop_first(), *cell_counter as int);
                    assert(drawn + (drawn_bytes(c, width_opt is None) + rest.0) =~= (drawn
                        + drawn_bytes(c, width_opt is None)) + rest.0);
                    drawn = drawn + drawn_bytes(c, width_opt is None);
                    assert(out@ =~= o0 + drawn);
                }
            }
        }
    }
    proof {
        if !done {
            assert(s@.skip(s@.len() as int) =~= Seq::<char>::empty());
            assert(drawn + Seq::<u8>::empty() =~= drawn);
        }
    }
}

/// Whether the terminal is too small to draw into.
pub fn is_terminal_too_small(term_size: (usize, usize)) -> (r: bool)
    ensures
        r == (term_size.0 < SCROLL_MARGIN * 2 + 20 || term_size.1 < MIN_TERM_H),
{
    let (term_w, term_h) = term_size;
    term_w < SCROLL_MARGIN * 2 + 20 || term_h < MIN_TERM_H
}

/// Where a drawn row stands relative to the selection.
#[derive(Debug, Clone, Copy, PartialEq, Eq)]
pub enum SelectionState {
    Pre,
    In,
    Post,
}

/// Switches the highlight on when the selection begins and off when it ends.
pub fn handle_selection(out: &mut Vec<u8>, ss: &mut SelectionState, in_selection: bool)
    ensures
        in_selection && *old(ss) == SelectionState::Pre ==> *final(ss) == SelectionState::In
            && final(out)@ == old(out)@ + encode_utf8(CURSOR@),
        !in_selection && *old(ss) == SelectionState::In ==> *final(ss) == SelectionState::Post
            && final(out)@ == old(out)@ + encode_utf8(RESET@),
        !(in_selection && *old(ss) == SelectionState::Pre) && !(!in_selection && *old(ss)
            == SelectionState::In) ==> *final(ss) == *old(ss) && final(out)@ == old(out)@,
{
    if in_selection && matches!(ss, SelectionState::Pre) {
        *ss = SelectionState::In;
        push_str_to_vec_u8(out, CURSOR);
    } else if !in_selection && matches!(ss, SelectionState::In) {
        push_str_to_vec_u8(out, RESET);
        *ss = SelectionState::Post;
    }
}

/// Draws one character; an escaped one outside the selection is dimmed.
pub fn handle_push_character(out: &mut Vec<u8>, c: char, replace: bool, in_selection: bool)
    ensures
        replace && !in_selection ==> final(out)@ == old(out)@ + encode_utf8(DIM@) + drawn_bytes(
            c,
            replace,
        ) + encode_utf8(RESET@),
        !(replace && !in_selection) ==> final(out)@ == old(out)@ + drawn_bytes(c, replace),
{
    let dim_replaced_char = replace && !in_selection;
    if dim_replaced_char {
        push_str_to_vec_u8(out, DIM);
    }
    push_replaced_char(out, c, replace);
    if dim_replaced_char {
        push_str_to_vec_u8(out, RESET);
    }
    proof {
        if dim_replaced_char {
            assert(final(out)@ =~= old(out)@ + encode_utf8(DIM@) + drawn_bytes(c, replace)
                + encode_utf8(RESET@));
        }
    }
}

/// What the viewport remembers between redraws.
#[derive(Debug, Clone, Copy, Default)]
pub struct ViewState {
    pub term_w: usize,
    pub left_cells: usize,
    pub active_line: usize,
    pub cursor_col: usize,
    pub active_line_offset: usize,
    pub ignore_inactive_lines: bool,
}

impl ViewState {
    /// Follows the cursor: the scroll is worked out again when the cursor changed row, jumped,
    /// reached a sampling column or the terminal got narrower.
    pub fn update(&mut self, buffer: &Buffer, term_w: usize)
        requires
            buffer.wf(),
            buffer@.line().len() <= usize::MAX / 2,
            old(self).left_cells <= usize::MAX / 4,
            term_w <= usize::MAX / 4,
        ensures
            final(self).active_line == buffer@.row,
            final(self).cursor_col == buffer@.col,
            final(self).term_w == term_w,
            final(self).ignore_inactive_lines,
            ({
                let o = *old(self);
                let c = buffer@.col;
                let r = buffer@.row;
                let recompute = r != o.active_line || c - o.cursor_col > 1 || o.cursor_col - c > 1
                    || c % 4 == 0 || term_w < o.term_w;
                let left = left_cells_for(o.left_cells as int, term_w as int, buffer@.line(), c);
                &&& recompute ==> final(self).left_cells == left
                &&& !recompute ==> final(self).left_cells == o.left_cells
                &&& (recompute && (r != o.active_line || left != o.left_cells)) ==> {
                    let k = final(self).active_line_offset as int;
                    &&& k <= buffer@.line().len()
                    &&& prefix_cells(buffer@.line(), k) <= left
                    &&& k < buffer@.line().len() ==> prefix_cells(buffer@.line(), k + 1) > left
                }
                &&& !(recompute && (r != o.active_line || left != o.left_cells))
                    ==> final(self).active_line_offset == o.active_line_offset
            }),
    {
        let (r, c) = buffer.cursor();
        let diff = if c >= self.cursor_col {
            c - self.cursor_col
        } else {
            self.cursor_col - c
        };
        if r != self.active_line || diff > 1 || Self::is_sampling_point(c) || term_w < self.term_w {
            let line = buffer.line(r);
            let old_left_cells = self.left_cells;
            self.left_cells = Self::get_left_cells(old_left_cells, term_w, line, c);
            if r != self.active_line || self.left_cells != old_left_cells {
                self.active_line_offset = calc_offset(line, self.left_cells);
            }
        }
        self.active_line = r;
        self.cursor_col = c;
        self.term_w = term_w;
        self.ignore_inactive_lines = true;
    }

    /// Columns at which the scroll is checked even for a one-step move.
    #[inline(always)]
    pub fn is_sampling_point(c: usize) -> (r: bool)
        ensures
            r == (c % 4 == 0),
    {
        c % 4 == 0
    }

    /// Whether every row, not only the cursor's, has to be drawn again.
    #[inline(always)]
    pub fn should_redraw_all(&self, old: &Self) -> (r: bool)
        ensures
            r == (self.left_cells != old.left_cells || self.active_line != old.active_line
                || self.ignore_inactive_lines != old.ignore_inactive_lines),
    {
        self.left_cells != old.left_cells || self.active_line != old.active_line
            || self.ignore_inactive_lines != old.ignore_inactive_lines
    }

    /// The scroll that keeps the cursor's cell inside the margins of the view.
    pub fn get_left_cells(old_left_cells: usize, term_w: usize, line: &[char], cursor_col: usize) -> (r:
        usize)
        requires
            line@.len() <= usize::MAX / 2,
            old_left_cells <= usize::MAX / 4,
            term_w <= usize::MAX / 4,
        ensures
            r == left_cells_for(old_left_cells as int, term_w as int, line@, cursor_col as int),
    {
        let half_w = term_w / 2;
        let cur_cells = cells_before(line, cursor_col);
        let hi = old_left_cells + if term_w >= SCROLL_MARGIN {
            term_w - SCROLL_MARGIN
        } else {
            0
        };
        if old_left_cells + SCROLL_MARGIN <= cur_cells && cur_cells <= hi {
            old_left_cells
        } else if cur_cells >= half_w {
            cur_cells - half_w
        } else {
            0
        }
    }
}

/// Drawn after the last character of a row that continues below.
pub const SYMB_LF: char = '¶';

pub const SYMB_MORE_L: char = '<';

pub const SYMB_MORE_R: char = '>';

pub const SYMB_NO_LINE: char = '~';

pub open spec fn fmt_bytes(fmt: Seq<char>, c: char) -> Seq<u8> {
    encode_utf8(fmt) + encode_scalar(c as u32) + encode_utf8(RESET@)
}

pub open spec fn in_selection(sel: Option<ClosedInterval>, i: int) -> bool {
    sel matches Some(s) && s.spec_contains(i)
}

/// The selection state after a character and the attribute bytes that the change emits.
pub open spec fn sel_step(ss: SelectionState, in_sel: bool) -> (SelectionState, Seq<u8>) {
    if in_sel && ss == SelectionState::Pre {
        (SelectionState::In, encode_utf8(CURSOR@))
    } else if !in_sel && ss == SelectionState::In {
        (SelectionState::Post, encode_utf8(RESET@))
    } else {
        (ss, seq![])
    }
}

/// The bytes of one drawn character: an escaped one outside the selection is dimmed.
pub open spec fn char_bytes(c: char, in_sel: bool) -> Seq<u8> {
    let replace = width_of(c) is None;
    if replace && !in_sel {
        encode_utf8(DIM@) + drawn_bytes(c, replace) + encode_utf8(RESET@)
    } else {
        drawn_bytes(c, replace)
    }
}

/// Drawing a row from character `i` on with `used` cells taken: the bytes, the cells used,
/// the selection state, and whether the row's end was reached.
pub open spec fn line_scan(
    line: Seq<char>,
    i: int,
    used: int,
    ss: SelectionState,
    sel: Option<ClosedInterval>,
    term_w: int,
) -> (Seq<u8>, int, SelectionState, bool)
    decreases line.len() - i,
{
    if i >= line.len() || i < 0 {
        (seq![], used, ss, true)
    } else if used + cells_of(line[i]) >= term_w {
        (seq![], used, ss, false)
    } else if i != 0 && used == 0 {
        let r = line_scan(line, i + 1, used + SYMB_CHAR_W, ss, sel, term_w);
        (fmt_bytes(DIM@, SYMB_MORE_L) + r.0, r.1, r.2, r.3)
    } else {
        let in_sel = in_selection(sel, i);
        let (ss2, sb) = sel_step(ss, in_sel);
        let r = line_scan(line, i + 1, used + cells_of(line[i]), ss2, sel, term_w);
        (sb + char_bytes(line[i], in_sel) + r.0, r.1, r.2, r.3)
    }
}

/// The bytes that draw a row scrolled by `offset` characters into `term_w` cells: a `<` where
/// the row is cut on the left, a `>` where it is cut on the right, and at its end a `¶` if
/// another row follows (highlighted when the selection lies past the last character).
pub open spec fn line_bytes(
    line: Seq<char>,
    offset: int,
    term_w: int,
    sel: Option<ClosedInterval>,
    lf: bool,
) -> Seq<u8> {
    let (b, used, ss, eol) = line_scan(line, offset, 0, SelectionState::Pre, sel, term_w);
    let close: Seq<u8> = if ss == SelectionState::In {
        encode_utf8(RESET@)
    } else {
        seq![]
    };
    let tail: Seq<u8> = if used == 0 && line.len() > 0 {
        fmt_bytes(DIM@, SYMB_MORE_L)
    } else if used < term_w {
        if eol {
            fmt_bytes(
                if sel is Some && ss == SelectionState::Pre {
                    CURSOR@
                } else {
                    DIM@
                },
                if lf {
                    SYMB_LF
                } else {
                    ' '
                },
            )
        } else {
            fmt_bytes(DIM@, SYMB_MORE_R)
        }
    } else {
        seq![]
    };
    b + close + tail
}

/// Appends the drawing of a row (see [`line_bytes`]).
#[verifier::rlimit(60)]
pub fn prepare_line_to_buffer(
    out: &mut Vec<u8>,
    line: &[char],
    offset: usize,
    term_w: usize,
    selection: Option<ClosedInterval>,
    lf: bool,
)
    ensures
        final(out)@ == old(out)@ + line_bytes(line@, offset as int, term_w as int, selection, lf),
{
    let ghost o0 = out@;
    let ghost mut acc: Seq<u8> = Seq::empty();
    let ghost whole = line_scan(line@, offset as int, 0, SelectionState::Pre, selection, term_w as int);
    let mut used: usize = 0;
    let mut ss = SelectionState::Pre;
    let mut end_of_line = true;
    let mut i: usize = offset;
    proof {
        assert(acc + whole.0 =~= whole.0);
        assert(out@ =~= o0 + acc);
    }
    while i < line.len()
        invariant_except_break
            end_of_line,
            ({
                let r = line_scan(line@, i as int, used as int, ss, selection, term_w as int);
                whole == (acc + r.0, r.1, r.2, r.3)
            }),
        invariant
            offset <= i,
            used <= term_w,
            out@ == o0 + acc,
            whole == line_scan(line@, offset as int, 0, SelectionState::Pre, selection, term_w as int),
        ensures
            whole == (acc, used as int, ss, end_of_line),
        decreases line@.len() - i,
    {
        let c = line[i];
        let width_opt = char_width(c);
        let w = cells(c);
        if w >= term_w - used {
            end_of_line = false;
            proof {
                assert(acc + Seq::<u8>::empty() =~= acc);
                assert(whole == (acc, used as int, ss, end_of_line));
            }
            break;
        }
        if i != 0 && used == 0 {
            push_fmt_ch(out, DIM, SYMB_MORE_L);
            proof {
                let r = line_scan(line@, i + 1, (used + SYMB_CHAR_W) as int, ss, selection, term_w as int);
                assert(acc + (fmt_bytes(DIM@, SYMB_MORE_L) + r.0) =~= (acc + fmt_bytes(DIM@, SYMB_MORE_L)) + r.0);
                acc = acc + fmt_bytes(DIM@, SYMB_MORE_L);
                assert(out@ =~= o0 + acc);
            }
            used = used + SYMB_CHAR_W;
            i = i + 1;
            continue;
        }
        let replace = width_opt.is_none();
        let in_sel = match selection {
            Some(interval) => interval.contains(i),
            None => false,
        };
        let ghost ss0 = ss;
        handle_selection(out, &mut ss, in_sel);
        handle_push_character(out, c, replace, in_sel);
        proof {
            let (ss2, sb) = sel_step(ss0, in_sel);
            assert(ss2 == ss);
            let r = line_scan(line@, i + 1, (used + w) as int, ss, selection, term_w as int);
            assert(acc + (sb + char_bytes(c, in_sel) + r.0) =~= (acc + sb + char_bytes(c, in_sel))
                + r.0);
            acc = acc + sb + char_bytes(c, in_sel);
            assert(out@ =~= o0 + acc);
        }
        used = used + w;
        i = i + 1;
    }
    let ghost b_end = out@;
    if matches!(ss, SelectionState::In) {
        push_str_to_vec_u8(out, RESET);
    }
    let ghost c_end = out@;
    if used == 0 && line.len() > 0 {
        push_fmt_ch(out, DIM, SYMB_MORE_L);
    } else if used < term_w {
        if end_of_line {
            let selection_remains = selection.is_some() && matches!(ss, SelectionState::Pre);
            let fmt = if selection_remains {
                CURSOR
            } else {
                DIM
            };
            let tail = if lf {
                SYMB_LF
            } else {
                ' '
            };
            push_fmt_ch(out, fmt, tail);
        } else {
            push_fmt_ch(out, DIM, SYMB_MORE_R);
        }
    }
    proof {
        assert(out@ =~= o0 + line_bytes(line@, offset as int, term_w as int, selection, lf));
    }
}

/// A separating space, when a cell is left for it.
pub open spec fn space_step(counter: int) -> (Seq<u8>, int) {
    if counter > 0 {
        (encode_scalar(' ' as u32), counter - 1)
    } else {
        (seq![], counter)
    }
}

/// The status line: an optional code point, the mode's status, an optional buffer status and
/// an undo mark, each cut to the cells left, on the terminal's last row.
pub open spec fn status_bytes(
    term_w: int,
    term_h: nat,
    code_point: Option<Seq<char>>,
    state_status: Seq<char>,
    buffer_status: Option<Seq<char>>,
    has_ss: bool,
) -> Seq<u8> {
    let head = goto_bytes(term_h, 1) + encode_utf8(STATUS@) + encode_utf8(CLEAR_CUR_LINE@);
    let (a, c1) = match code_point {
        Some(p) => {
            let (x, k) = until(p, term_w);
            let (y, k2) = space_step(k);
            (x + y, k2)
        },
        None => (seq![], term_w),
    };
    let (b, c2) = until(state_status, c1);
    let (c, c3) = match buffer_status {
        Some(t) => {
            let (y, k) = space_step(c2);
            let (x, k2) = until(t, k);
            (y + x, k2)
        },
        None => (seq![], c2),
    };
    let d = if has_ss {
        until(" +undo"@, c3).0
    } else {
        seq![]
    };
    head + a + b + c + d + encode_utf8(RESET@)
}

/// Replaces `out` with the drawing of the status line (see [`status_bytes`]).
pub fn prepare_status_line(
    out: &mut Vec<u8>,
    term_size: (usize, usize),
    code_point: Option<&str>,
    state: &InputState,
    buffer: Option<&Buffer>,
    has_ss: bool,
)
    requires
        state@.wf(),
        buffer matches Some(b) ==> b.wf(),
    ensures
        final(out)@ == status_bytes(
            term_size.0 as int,
            term_size.1 as nat,
            match code_point {
                Some(p) => Some(p@),
                None => None,
            },
            mode_status(state@),
            match buffer {
                Some(b) => Some(b@.status()),
                None => None,
            },
            has_ss,
        ),
{
    let (term_w, term_h) = term_size;
    out.clear();
    push_cursor_goto(out, term_h, 1);
    push_str_to_vec_u8(out, STATUS);
    push_str_to_vec_u8(out, CLEAR_CUR_LINE);
    let ghost head = out@;
    proof {
        assert(head =~= goto_bytes(term_h as nat, 1) + encode_utf8(STATUS@) + encode_utf8(
            CLEAR_CUR_LINE@,
        ));
    }
    let mut usable_cells = term_w;
    let ghost mut a: Seq<u8> = Seq::empty();
    if let Some(cp) = code_point {
        push_str_until(out, cp, &mut usable_cells);
        let ghost x = until(cp@, term_w as int).0;
        if usable_cells > 0 {
            push_char_to_vec_u8(out, ' ');
            usable_cells = usable_cells - 1;
            proof {
                a = x + encode_scalar(' ' as u32);
            }
        } else {
            proof {
                a = x + Seq::<u8>::empty();
            }
        }
        proof {
            assert(out@ =~= head + a);
        }
    } else {
        proof {
            assert(out@ =~= head + a);
        }
    }
    let ghost c1 = usable_cells as int;
    let st = state.status_as_string();
    push_str_until(out, st.as_str(), &mut usable_cells);
    let ghost b = until(st@, c1).0;
    proof {
        assert(out@ =~= head + a + b);
    }
    let ghost mut c: Seq<u8> = Seq::empty();
    if let Some(buf) = buffer {
        let ghost before = out@;
        let ghost c2 = usable_cells as int;
        if usable_cells > 0 {
            push_char_to_vec_u8(out, ' ');
            usable_cells = usable_cells - 1;
        }
        let ghost y = space_step(c2).0;
        let ghost k = usable_cells as int;
        let bs = buf.status_as_string();
        push_str_until(out, bs.as_str(), &mut usable_cells);
        proof {
            c = y + until(bs@, k).0;
            assert(out@ =~= before + c);
        }
    }
    proof {
        assert(out@ =~= head + a + b + c);
    }
    let ghost c3 = usable_cells as int;
    let ghost mut d: Seq<u8> = Seq::empty();
    if has_ss {
        push_str_until(out, " +undo", &mut usable_cells);
        proof {
            d = until(" +undo"@, c3).0;
        }
    }
    proof {
        assert(out@ =~= head + a + b + c + d);
    }
    push_str_to_vec_u8(out, RESET);
}

/// What row `y` (1-based) of the text area shows: nothing when only the cursor's row is
/// redrawn and this is another one; else the row of the buffer that lands there, or `~`
/// above the first row.
pub open spec fn view_row_bytes(
    b: BufferModel,
    vs: ViewState,
    redraw_all: bool,
    term_w: int,
    bottom: int,
    y: int,
) -> Seq<u8> {
    let active = y == bottom;
    if !redraw_all && !active {
        seq![]
    } else {
        goto_bytes(y as nat, 1) + encode_utf8(CLEAR_CUR_LINE@) + if b.row + y >= bottom {
            let row = b.row + y - bottom;
            let line = b.rows[row];
            let sel = if active {
                Some(ClosedInterval(b.sel_lo() as usize, b.sel_hi() as usize))
            } else {
                None
            };
            let off = if active {
                vs.active_line_offset as int
            } else {
                fit_count(line, vs.left_cells as int)
            };
            line_bytes(line, off, term_w, sel, row + 1 < b.rows.len())
        } else {
            fmt_bytes(DIM@, SYMB_NO_LINE)
        }
    }
}

/// Rows 1 to `y` of the text area.
pub open spec fn view_bytes(
    b: BufferModel,
    vs: ViewState,
    redraw_all: bool,
    term_w: int,
    bottom: int,
    y: int,
) -> Seq<u8>
    decreases y,
{
    if y <= 0 {
        seq![]
    } else {
        view_bytes(b, vs, redraw_all, term_w, bottom, y - 1) + view_row_bytes(
            b,
            vs,
            redraw_all,
            term_w,
            bottom,
            y,
        )
    }
}

/// Replaces `out` with the drawing of the text area: the cursor's row on the row above the
/// status line, the rows before it above; every row when the scroll or the cursor's row
/// changed, else the cursor's row alone.
pub fn prepare_view_to_buffer(
    out: &mut Vec<u8>,
    term_size: (usize, usize),
    vs: &mut ViewState,
    buffer: &Buffer,
)
    requires
        term_size.1 >= 1,
        buffer.wf(),
        buffer@.line().len() <= usize::MAX / 2,
        old(vs).left_cells <= usize::MAX / 4,
        term_size.0 <= usize::MAX / 4,
    ensures
        final(vs).active_line == buffer@.row,
        final(vs).cursor_col == buffer@.col,
        final(vs).term_w == term_size.0,
        final(vs).ignore_inactive_lines,
        final(out)@ == view_bytes(
            buffer@,
            *final(vs),
            final(vs).left_cells != old(vs).left_cells || final(vs).active_line
                != old(vs).active_line || final(vs).ignore_inactive_lines
                != old(vs).ignore_inactive_lines,
            term_size.0 as int,
            term_size.1 - 1,
            term_size.1 - 1,
        ),
{
    let (term_w, term_h) = term_size;
    let view_bottom = term_h - 1;
    let vs_old = *vs;
    vs.update(buffer, term_w);
    let redraw_all = vs.should_redraw_all(&vs_old);
    out.clear();
    let mut y: usize = 1;
    while y <= view_bottom
        invariant
            1 <= y <= view_bottom + 1,
            view_bottom == term_h - 1,
            buffer.wf(),
            out@ == view_bytes(buffer@, *vs, redraw_all, term_w as int, view_bottom as int, y - 1),
        decreases view_bottom + 1 - y,
    {
        prepare_view_row(out, vs, buffer, redraw_all, term_w, view_bottom, y);
        y = y + 1;
    }
}

fn prepare_view_row(
    out: &mut Vec<u8>,
    vs: &ViewState,
    buffer: &Buffer,
    redraw_all: bool,
    term_w: usize,
    view_bottom: usize,
    y: usize,
)
    requires
        buffer.wf(),
        1 <= y <= view_bottom,
    ensures
        final(out)@ == old(out)@ + view_row_bytes(
            buffer@,
            *vs,
            redraw_all,
            term_w as int,
            view_bottom as int,
            y as int,
        ),
{
    let active_line = y == view_bottom;
    if !redraw_all && !active_line {
        assert(old(out)@ + Seq::<u8>::empty() =~= old(out)@);
        return;
    }
    let (r, _) = buffer.cursor();
    push_cursor_goto(out, y, 1);
    push_str_to_vec_u8(out, CLEAR_CUR_LINE);
    let ghost mid = out@;
    proof {
        assert(mid =~= old(out)@ + goto_bytes(y as nat, 1) + encode_utf8(CLEAR_CUR_LINE@));
    }
    if r >= view_bottom - y {
        let row = r - (view_bottom - y);
        let raw_line = buffer.line(row);
        let sel = if active_line {
            Some(buffer.selection())
        } else {
            None
        };
        let lf = buffer.has_more_line(row);
        let i = if active_line {
            vs.active_line_offset
        } else {
            calc_offset(raw_line, vs.left_cells)
        };
        prepare_line_to_buffer(out, raw_line, i, term_w, sel, lf);
        proof {
            let line = buffer@.rows[row as int];
            let want_sel = if active_line {
                Some(ClosedInterval(buffer@.sel_lo() as usize, buffer@.sel_hi() as usize))
            } else {
                None
            };
            assert(sel == want_sel);
            assert(out@ =~= mid + line_bytes(line, i as int, term_w as int, sel, lf));
        }
    } else {
        push_fmt_ch(out, DIM, SYMB_NO_LINE);
    }
    proof {
        assert(out@ =~= old(out)@ + view_row_bytes(
            buffer@,
            *vs,
            redraw_all,
            term_w as int,
            view_bottom as int,
            y as int,
        ));
    }
}

} // verus!
