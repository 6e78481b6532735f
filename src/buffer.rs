use vstd::prelude::*;

use crate::text::push_char;
use crate::util::{digit_chars, push_digits_to_string, ClosedInterval};

verus! {

/// The abstract state of a [`Buffer`]: its rows, the cursor and the selection anchor.
pub struct BufferModel {
    pub rows: Seq<Seq<char>>,
    pub row: int,
    pub col: int,
    pub origin: Option<int>,
}

pub open spec fn min_int(a: int, b: int) -> int {
    if a <= b {
        a
    } else {
        b
    }
}

pub open spec fn max_int(a: int, b: int) -> int {
    if a >= b {
        a
    } else {
        b
    }
}

/// Rows joined by a single newline character.
pub open spec fn join_rows(rows: Seq<Seq<char>>) -> Seq<char>
    decreases rows.len(),
{
    if rows.len() == 0 {
        seq![]
    } else if rows.len() == 1 {
        rows[0]
    } else {
        join_rows(rows.drop_last()).push('\n') + rows.last()
    }
}

/// Number of single steps that a page move makes at most.
pub open spec fn rapid_steps(n_rows: int) -> int {
    max_int(n_rows / 10, 5)
}

impl BufferModel {
    pub open spec fn wf(self) -> bool {
        &&& self.rows.len() >= 1
        &&& 0 <= self.row < self.rows.len()
        &&& 0 <= self.col <= self.line().len()
        &&& self.origin is Some ==> {
            &&& 0 <= self.origin->0 < self.line().len()
            &&& self.col < self.line().len()
        }
    }

    /// The row under the cursor.
    pub open spec fn line(self) -> Seq<char> {
        self.rows[self.row]
    }

    pub open spec fn at(self, rows: Seq<Seq<char>>, row: int, col: int) -> BufferModel {
        BufferModel { rows, row, col, origin: None }
    }

    pub open spec fn unselected(self) -> BufferModel {
        BufferModel { origin: None, ..self }
    }

    /// Lower end of the selection interval (the cursor column when nothing is selected).
    pub open spec fn sel_lo(self) -> int {
        match self.origin {
            Some(o) => min_int(o, self.col),
            None => self.col,
        }
    }

    /// Upper end of the selection interval (the cursor column when nothing is selected).
    pub open spec fn sel_hi(self) -> int {
        match self.origin {
            Some(o) => max_int(o, self.col),
            None => self.col,
        }
    }

    /// The whole document, rows joined by newlines.
    pub open spec fn document(self) -> Seq<char> {
        join_rows(self.rows)
    }

    pub open spec fn delete_selection(self) -> BufferModel {
        if self.origin is Some {
            let line = self.line();
            self.at(
                self.rows.update(self.row, line.take(self.sel_lo()) + line.skip(self.sel_hi() + 1)),
                self.row,
                self.sel_lo(),
            )
        } else {
            self
        }
    }

    /// Splits the current row at the cursor; the cursor goes to the start of the new row.
    pub open spec fn split_line(self) -> BufferModel {
        let line = self.line();
        self.at(
            self.rows.take(self.row) + seq![line.take(self.col), line.skip(self.col)] + self.rows.skip(
                self.row + 1,
            ),
            self.row + 1,
            0,
        )
    }

    pub open spec fn put_char(self, c: char) -> BufferModel {
        let line = self.line();
        self.at(
            self.rows.update(self.row, line.take(self.col).push(c) + line.skip(self.col)),
            self.row,
            self.col + 1,
        )
    }

    pub open spec fn insert_char(self, c: char) -> BufferModel {
        let m = self.delete_selection();
        if c == '\n' {
            m.split_line()
        } else {
            m.put_char(c)
        }
    }

    pub open spec fn insert_str(self, s: Seq<char>) -> BufferModel
        decreases s.len(),
    {
        if s.len() == 0 {
            self
        } else {
            self.insert_str(s.drop_last()).insert_char(s.last())
        }
    }

    /// Row `r` and row `r + 1` made one row.
    pub open spec fn joined(self, r: int) -> Seq<Seq<char>> {
        self.rows.take(r) + seq![self.rows[r] + self.rows[r + 1]] + self.rows.skip(r + 2)
    }

    pub open spec fn remove_at(self, i: int) -> Seq<Seq<char>> {
        self.rows.update(self.row, self.line().take(i) + self.line().skip(i + 1))
    }

    pub open spec fn backspace(self) -> BufferModel {
        if self.origin is Some {
            self.delete_selection()
        } else if self.col > 0 {
            self.at(self.remove_at(self.col - 1), self.row, self.col - 1)
        } else if self.row > 0 {
            self.at(self.joined(self.row - 1), self.row - 1, self.rows[self.row - 1].len() as int)
        } else {
            self
        }
    }

    pub open spec fn delete(self) -> BufferModel {
        if self.origin is Some {
            self.delete_selection()
        } else if self.col < self.line().len() {
            self.at(self.remove_at(self.col), self.row, self.col)
        } else if self.row + 1 < self.rows.len() {
            self.at(self.joined(self.row), self.row, self.col)
        } else {
            self
        }
    }

    pub open spec fn can_move_left(self) -> bool {
        self.col > 0 || self.row > 0
    }

    pub open spec fn move_left(self) -> BufferModel {
        if self.col > 0 {
            self.at(self.rows, self.row, self.col - 1)
        } else if self.row > 0 {
            self.at(self.rows, self.row - 1, self.rows[self.row - 1].len() as int)
        } else {
            self.unselected()
        }
    }

    pub open spec fn can_move_right(self) -> bool {
        self.col < self.line().len() || self.row + 1 < self.rows.len()
    }

    pub open spec fn move_right(self) -> BufferModel {
        if self.col < self.line().len() {
            self.at(self.rows, self.row, self.col + 1)
        } else if self.row + 1 < self.rows.len() {
            self.at(self.rows, self.row + 1, 0)
        } else {
            self.unselected()
        }
    }

    pub open spec fn move_up(self) -> BufferModel {
        if self.row > 0 {
            self.at(self.rows, self.row - 1, min_int(self.col, self.rows[self.row - 1].len() as int))
        } else {
            self.unselected()
        }
    }

    pub open spec fn move_down(self) -> BufferModel {
        if self.row + 1 < self.rows.len() {
            self.at(self.rows, self.row + 1, min_int(self.col, self.rows[self.row + 1].len() as int))
        } else {
            self.unselected()
        }
    }

    /// At most `k` steps up, stopping at the first row.
    pub open spec fn move_up_n(self, k: nat) -> BufferModel
        decreases k,
    {
        if k == 0 || self.row == 0 {
            self.unselected()
        } else {
            self.move_up().move_up_n((k - 1) as nat)
        }
    }

    /// At most `k` steps down, stopping at the last row.
    pub open spec fn move_down_n(self, k: nat) -> BufferModel
        decreases k,
    {
        if k == 0 || self.row + 1 >= self.rows.len() {
            self.unselected()
        } else {
            self.move_down().move_down_n((k - 1) as nat)
        }
    }

    pub open spec fn rapid_up(self) -> BufferModel {
        self.move_up_n(rapid_steps(self.rows.len() as int) as nat)
    }

    pub open spec fn rapid_down(self) -> BufferModel {
        self.move_down_n(rapid_steps(self.rows.len() as int) as nat)
    }

    pub open spec fn to_line_head(self) -> BufferModel {
        self.at(self.rows, self.row, 0)
    }

    pub open spec fn to_line_tail(self) -> BufferModel {
        self.at(self.rows, self.row, self.line().len() as int)
    }

    /// The anchor kept, or set at the cursor (clamped into the row) when there is none.
    pub open spec fn anchored(self) -> Option<int> {
        match self.origin {
            Some(o) => Some(o),
            None => Some(min_int(self.col, max_int(self.line().len() - 1, 0))),
        }
    }

    pub open spec fn select_right(self) -> BufferModel {
        if self.col < self.line().len() - 1 {
            BufferModel { origin: self.anchored(), col: self.col + 1, ..self }
        } else {
            self
        }
    }

    pub open spec fn select_left(self) -> BufferModel {
        if self.col > 0 {
            BufferModel { origin: self.anchored(), col: self.col - 1, ..self }
        } else {
            self
        }
    }

    pub open spec fn cleared(self) -> BufferModel {
        self.at(seq![seq![]], 0, 0)
    }

    /// The selected characters, when the interval lies inside the row.
    pub open spec fn selected(self) -> Option<Seq<char>> {
        if self.sel_hi() < self.line().len() {
            Some(self.line().subrange(self.sel_lo(), self.sel_hi() + 1))
        } else {
            None
        }
    }

    /// The status text `(row/total,[origin:]col)`, 1-based.
    pub open spec fn status(self) -> Seq<char> {
        seq!['('] + digit_chars((self.row + 1) as nat, 10) + seq!['/'] + digit_chars(
            self.rows.len(),
            10,
        ) + seq![','] + match self.origin {
            Some(o) => digit_chars((o + 1) as nat, 10) + seq![':'],
            None => seq![],
        } + digit_chars((self.col + 1) as nat, 10) + seq![')']
    }
}

/// Moving left and then right, from any position that is not the document start, comes back
/// to the same row and column.
pub proof fn lemma_left_then_right(m: BufferModel)
    requires
        m.wf(),
        m.can_move_left(),
    ensures
        m.move_left().can_move_right(),
        m.move_left().move_right().row == m.row,
        m.move_left().move_right().col == m.col,
{
}

/// Moving right and then left, from any position that is not the document end, comes back
/// to the same row and column.
pub proof fn lemma_right_then_left(m: BufferModel)
    requires
        m.wf(),
        m.can_move_right(),
    ensures
        m.move_right().can_move_left(),
        m.move_right().move_left().row == m.row,
        m.move_right().move_left().col == m.col,
{
}

/// At the document start a left move, and at the document end a right move, reports no
/// movement and leaves the cursor where it was, however often it is repeated.
pub proof fn lemma_moves_at_boundaries(m: BufferModel)
    requires
        m.wf(),
    ensures
        !m.can_move_left() ==> m.move_left().row == m.row && m.move_left().col == m.col
            && !m.move_left().can_move_left(),
        !m.can_move_right() ==> m.move_right().row == m.row && m.move_right().col == m.col
            && !m.move_right().can_move_right(),
{
}

/// Splitting a row at the cursor and then deleting backwards from the start of the new row
/// restores the rows and the cursor exactly.
pub proof fn lemma_newline_then_backspace(m: BufferModel)
    requires
        m.wf(),
        m.origin is None,
    ensures
        m.insert_char('\n').backspace() == m,
{
    let s = m.insert_char('\n');
    let line = m.line();
    assert(s.rows[m.row] == line.take(m.col));
    assert(s.rows[m.row + 1] == line.skip(m.col));
    assert(line.take(m.col) + line.skip(m.col) =~= line);
    assert(s.joined(m.row) =~= m.rows);
}

/// A text buffer: rows of characters, a cursor and an optional selection on the cursor's row.
#[derive(Debug, Clone)]
pub struct Buffer {
    lines: Vec<Vec<char>>,
    row: usize,
    col: usize,
    selection_origin: Option<usize>,
    dirty: bool,
}

impl View for Buffer {
    type V = BufferModel;

    closed spec fn view(&self) -> BufferModel {
        BufferModel {
            rows: self.lines@.map_values(|l: Vec<char>| l@),
            row: self.row as int,
            col: self.col as int,
            origin: match self.selection_origin {
                Some(o) => Some(o as int),
                None => None,
            },
        }
    }
}

impl Default for Buffer {
    fn default() -> (r: Self)
        ensures
            r.wf(),
            r@ == (BufferModel { rows: seq![seq![]], row: 0, col: 0, origin: None }),
            !r.dirty(),
    {
        Buffer::new()
    }
}

impl Buffer {
    /// The buffer is well formed: at least one row, cursor and anchor inside the cursor's row.
    pub open spec fn wf(&self) -> bool {
        self@.wf()
    }

    /// The flag that the presentation layer reads to decide on a redraw.
    pub closed spec fn dirty(&self) -> bool {
        self.dirty
    }

    /// An empty buffer: one empty row, cursor at the origin.
    pub fn new() -> (r: Self)
        ensures
            r.wf(),
            r@ == (BufferModel { rows: seq![seq![]], row: 0, col: 0, origin: None }),
            !r.dirty(),
    {
        let r = Buffer {
            lines: vec![Vec::new()],
            row: 0,
            col: 0,
            selection_origin: None,
            dirty: false,
        };
        assert(r@.rows =~= seq![seq![]]);
        r
    }
}

impl Buffer {
    // ---- queries ----

    /// The status text `(row/total,[origin:]col)`, 1-based.
    pub fn status_as_string(&self) -> (r: String)
        requires
            self.wf(),
        ensures
            r@ == self@.status(),
    {
        let mut out = String::new();
        push_char(&mut out, '(');
        push_digits_to_string(&mut out, self.row as u128 + 1, 10);
        push_char(&mut out, '/');
        push_digits_to_string(&mut out, self.lines.len() as u128, 10);
        push_char(&mut out, ',');
        let ghost before_origin = out@;
        if let Some(origin) = self.selection_origin {
            push_digits_to_string(&mut out, origin as u128 + 1, 10);
            push_char(&mut out, ':');
        }
        let ghost after_origin = out@;
        push_digits_to_string(&mut out, self.col as u128 + 1, 10);
        push_char(&mut out, ')');
        proof {
            let m = self@;
            let mid: Seq<char> = match m.origin {
                Some(o) => digit_chars((o + 1) as nat, 10) + seq![':'],
                None => seq![],
            };
            assert(after_origin == before_origin + mid);
            assert(out@ =~= m.status());
        }
        out
    }

    pub fn cursor(&self) -> (r: (usize, usize))
        ensures
            r.0 == self@.row,
            r.1 == self@.col,
    {
        (self.row, self.col)
    }

    /// The selection interval; the cursor column alone when nothing is selected.
    pub fn selection(&self) -> (r: ClosedInterval)
        ensures
            r.0 == self@.sel_lo(),
            r.1 == self@.sel_hi(),
    {
        match self.selection_origin {
            Some(origin) => {
                let lo = if origin <= self.col {
                    origin
                } else {
                    self.col
                };
                let hi = if origin >= self.col {
                    origin
                } else {
                    self.col
                };
                ClosedInterval(lo, hi)
            },
            None => ClosedInterval(self.col, self.col),
        }
    }

    pub fn line_count(&self) -> (r: usize)
        ensures
            r == self@.rows.len(),
    {
        self.lines.len()
    }

    /// Whether another row follows row `row`.
    pub fn has_more_line(&self, row: usize) -> (r: bool)
        requires
            self.wf(),
        ensures
            r == (row + 1 < self@.rows.len()),
    {
        row < self.lines.len() - 1
    }

    pub fn line(&self, row: usize) -> (r: &[char])
        requires
            self.wf(),
            row < self@.rows.len(),
        ensures
            r@ == self@.rows[row as int],
    {
        self.lines[row].as_slice()
    }

    /// The character under the cursor, when nothing is selected and the cursor is not at the
    /// end of its row.
    pub fn cursor_as_char(&self) -> (r: Option<&char>)
        requires
            self.wf(),
        ensures
            r is Some <==> (self@.origin is None && self@.col < self@.line().len()),
            r is Some ==> *r->0 == self@.line()[self@.col],
    {
        if self.selection_origin.is_some() {
            return None;
        }
        if self.col < self.lines[self.row].len() {
            Some(&self.lines[self.row][self.col])
        } else {
            None
        }
    }

    /// The selected characters (the one under the cursor when nothing is selected).
    pub fn selected_as_string(&self) -> (r: Option<String>)
        requires
            self.wf(),
        ensures
            r is Some <==> self@.selected() is Some,
            r is Some ==> r->0@ == self@.selected()->0,
    {
        let ClosedInterval(start, end) = self.selection();
        let line = &self.lines[self.row];
        if end >= line.len() {
            return None;
        }
        let mut out = String::new();
        let mut i: usize = start;
        while i <= end
            invariant
                start <= i <= end + 1,
                end < line@.len(),
                end < usize::MAX,
                line@ == self@.line(),
                out@ == line@.subrange(start as int, i as int),
            decreases end + 1 - i,
        {
            push_char(&mut out, line[i]);
            proof {
                assert(line@.subrange(start as int, i + 1) == line@.subrange(start as int, i as int).push(
                    line@[i as int],
                ));
            }
            i = i + 1;
        }
        Some(out)
    }

    /// The whole document, rows joined by single newlines.
    pub fn as_string(&self) -> (r: String)
        requires
            self.wf(),
        ensures
            r@ == self@.document(),
    {
        let mut out = String::new();
        let mut i: usize = 0;
        while i < self.lines.len()
            invariant
                0 <= i <= self.lines@.len(),
                self.wf(),
                i == 0 ==> out@ == Seq::<char>::empty(),
                i > 0 ==> out@ == join_rows(self@.rows.take(i as int)),
            decreases self.lines@.len() - i,
        {
            let ghost before = out@;
            if i > 0 {
                push_char(&mut out, '\n');
            }
            let line = &self.lines[i];
            let mut j: usize = 0;
            while j < line.len()
                invariant
                    j <= line@.len(),
                    out@ == (if i > 0 { before.push('\n') } else { before }) + line@.take(j as int),
                decreases line@.len() - j,
            {
                push_char(&mut out, line[j]);
                proof {
                    assert(line@.take(j + 1) == line@.take(j as int).push(line@[j as int]));
                }
                j = j + 1;
            }
            proof {
                let rows = self@.rows;
                let t = rows.take(i + 1);
                assert(line@.take(j as int) == line@);
                assert(t.last() == rows[i as int]);
                if i > 0 {
                    assert(t.drop_last() == rows.take(i as int));
                } else {
                    assert(t.len() == 1);
                }
                assert(out@ == join_rows(t));
            }
            i = i + 1;
        }
        proof {
            assert(self@.rows.take(self.lines@.len() as int) == self@.rows);
        }
        out
    }

    pub fn clear_dirty(&mut self)
        ensures
            final(self)@ == old(self)@,
            !final(self).dirty(),
    {
        self.dirty = false;
    }

    pub fn is_dirty(&self) -> (r: bool)
        ensures
            r == self.dirty(),
    {
        self.dirty
    }

    // ---- helpers ----

    fn set_dirty(&mut self)
        ensures
            final(self)@ == old(self)@,
            final(self).dirty(),
    {
        self.dirty = true;
    }

    fn clear_selection_origin(&mut self)
        ensures
            final(self)@ == old(self)@.unselected(),
            final(self).dirty() == old(self).dirty(),
    {
        self.selection_origin = None;
    }

    fn set_selection_origin(&mut self)
        requires
            old(self).wf(),
        ensures
            final(self)@ == (BufferModel { origin: old(self)@.anchored(), ..old(self)@ }),
            final(self).dirty() == old(self).dirty(),
    {
        if self.selection_origin.is_none() {
            let len = self.lines[self.row].len();
            let top = if len > 0 {
                len - 1
            } else {
                0
            };
            self.selection_origin = Some(
                if self.col <= top {
                    self.col
                } else {
                    top
                },
            );
        }
    }
}

impl Buffer {
    // ---- editing primitives ----

    /// Back to one empty row, cursor at the origin, nothing selected.
    pub fn clear(&mut self)
        ensures
            final(self).wf(),
            final(self)@ == old(self)@.cleared(),
            final(self).dirty(),
    {
        self.set_dirty();
        self.lines.clear();
        self.lines.push(Vec::new());
        self.row = 0;
        self.col = 0;
        self.clear_selection_origin();
        assert(self@.rows =~= seq![seq![]]);
    }

    /// Inserts `c` at the cursor, replacing the selection if there is one; a newline splits the
    /// row.
    pub fn insert_char(&mut self, c: char)
        requires
            old(self).wf(),
        ensures
            final(self).wf(),
            final(self)@ == old(self)@.insert_char(c),
            final(self).dirty(),
    {
        self.set_dirty();
        if self.selection_origin.is_some() {
            self.delete_range();
        }
        if c == '\n' {
            self.newline();
            return;
        }
        let ghost m = self@;
        let col = self.col;
        self.lines[self.row].insert(col, c);
        let len = self.lines[self.row].len();
        self.col = col + 1;
        proof {
            let line = m.line();
            assert(line.insert(col as int, c) =~= line.take(col as int).push(c) + line.skip(col as int));
            assert(self@.rows =~= m.put_char(c).rows);
        }
    }

    /// Inserts the characters of `s` one by one.
    pub fn insert_str(&mut self, s: &str)
        requires
            old(self).wf(),
        ensures
            final(self).wf(),
            final(self)@ == old(self)@.insert_str(s@),
            old(self).dirty() || s@.len() > 0 ==> final(self).dirty(),
    {
        let ghost m0 = self@;
        let ghost d0 = self.dirty();
        for c in it: s.chars()
            invariant
                it.seq() == s@,
                self.wf(),
                self@ == m0.insert_str(s@.take(it.index() as int)),
                d0 || it.index() > 0 ==> self.dirty(),
        {
            proof {
                let t = s@.take(it.index() + 1);
                assert(t.drop_last() == s@.take(it.index() as int));
            }
            self.insert_char(c);
        }
        proof {
            assert(s@.take(s@.len() as int) == s@);
        }
    }

    /// Deletes the selection, or else the character before the cursor (joining with the
    /// previous row at the start of a row).
    pub fn backspace(&mut self)
        requires
            old(self).wf(),
        ensures
            final(self).wf(),
            final(self)@ == old(self)@.backspace(),
            final(self).dirty(),
    {
        if self.selection_origin.is_some() {
            self.delete_range();
            return;
        }
        let ghost m = self@;
        if self.move_left() {
            self.delete();
            proof {
                if m.col > 0 {
                    assert(self@.rows =~= m.remove_at(m.col - 1));
                } else {
                    assert(self@.rows =~= m.joined(m.row - 1));
                }
            }
        }
    }

    /// Deletes the selection, or else the character under the cursor (joining with the next
    /// row at the end of a row).
    pub fn delete(&mut self)
        requires
            old(self).wf(),
        ensures
            final(self).wf(),
            final(self)@ == old(self)@.delete(),
            final(self).dirty(),
    {
        self.set_dirty();
        if self.selection_origin.is_some() {
            self.delete_range();
            return;
        }
        if !self.delete_on_cursor() {
            self.concatenate_cur_next_lines();
        }
    }

    /// Deletes the selected characters; the cursor goes to the start of the interval.
    pub fn delete_range(&mut self)
        requires
            old(self).wf(),
        ensures
            final(self).wf(),
            final(self)@ == old(self)@.delete_selection(),
            final(self).dirty(),
    {
        self.set_dirty();
        if let Some(origin) = self.selection_origin {
            let ghost m = self@;
            let lo = if self.col <= origin {
                self.col
            } else {
                origin
            };
            let hi = if self.col >= origin {
                self.col
            } else {
                origin
            };
            let len = self.lines[self.row].len();
            self.col = lo;
            self.clear_selection_origin();
            proof {
                let line = m.line();
                assert(line.take(lo as int) + line.skip(lo as int) =~= line);
                assert(m.rows.update(m.row, line) =~= m.rows);
            }
            let mut k: usize = lo;
            while k <= hi
                invariant
                    lo <= k <= hi + 1,
                    m.wf(),
                    m.origin is Some,
                    hi < m.line().len(),
                    hi < usize::MAX,
                    lo == m.sel_lo(),
                    hi == m.sel_hi(),
                    self.wf(),
                    self.row == m.row,
                    self.col == lo,
                    self.selection_origin is None,
                    self.dirty(),
                    self@.rows == m.rows.update(m.row, m.line().take(lo as int) + m.line().skip(k as int)),
                decreases hi + 1 - k,
            {
                let ghost before = self@;
                self.delete_on_cursor();
                proof {
                    let line = m.line();
                    assert(before.line() == line.take(lo as int) + line.skip(k as int));
                    assert(before.line().take(lo as int) + before.line().skip(lo + 1) =~= line.take(
                        lo as int,
                    ) + line.skip(k + 1));
                    assert(self@.rows =~= m.rows.update(m.row, line.take(lo as int) + line.skip(k + 1)));
                }
                k = k + 1;
            }
        }
    }

    // ---- cursor movement ----

    /// One step left, wrapping to the end of the previous row; false at the document start.
    pub fn move_left(&mut self) -> (r: bool)
        requires
            old(self).wf(),
        ensures
            final(self).wf(),
            r == old(self)@.can_move_left(),
            final(self)@ == old(self)@.move_left(),
            final(self).dirty(),
    {
        self.set_dirty();
        self.clear_selection_origin();
        if self.col > 0 {
            self.col = self.col - 1;
        } else if self.move_up() {
            self.to_line_tail();
        } else {
            return false;
        }
        true
    }

    /// One step right, wrapping to the start of the next row; false at the document end.
    pub fn move_right(&mut self) -> (r: bool)
        requires
            old(self).wf(),
        ensures
            final(self).wf(),
            r == old(self)@.can_move_right(),
            final(self)@ == old(self)@.move_right(),
            final(self).dirty(),
    {
        self.set_dirty();
        self.clear_selection_origin();
        if self.col < self.lines[self.row].len() {
            self.col = self.col + 1;
        } else if self.move_down() {
            self.to_line_head();
        } else {
            return false;
        }
        true
    }

    /// One row up, the column clamped to that row; false on the first row.
    pub fn move_up(&mut self) -> (r: bool)
        requires
            old(self).wf(),
        ensures
            final(self).wf(),
            r == (old(self)@.row > 0),
            final(self)@ == old(self)@.move_up(),
            final(self).dirty(),
    {
        self.set_dirty();
        self.clear_selection_origin();
        if self.row > 0 {
            self.row = self.row - 1;
            let len = self.lines[self.row].len();
            if len < self.col {
                self.col = len;
            }
            true
        } else {
            false
        }
    }

    /// One row down, the column clamped to that row; false on the last row.
    pub fn move_down(&mut self) -> (r: bool)
        requires
            old(self).wf(),
        ensures
            final(self).wf(),
            r == (old(self)@.row + 1 < old(self)@.rows.len()),
            final(self)@ == old(self)@.move_down(),
            final(self).dirty(),
    {
        self.set_dirty();
        self.clear_selection_origin();
        let n = self.lines.len();
        if self.row + 1 < n {
            self.row = self.row + 1;
            let len = self.lines[self.row].len();
            if len < self.col {
                self.col = len;
            }
            true
        } else {
            false
        }
    }

    /// Up to `max(rows / 10, 5)` rows up.
    pub fn rapid_up(&mut self)
        requires
            old(self).wf(),
        ensures
            final(self).wf(),
            final(self)@ == old(self)@.rapid_up(),
            final(self).dirty(),
    {
        self.set_dirty();
        self.clear_selection_origin();
        self.rapid_move(true);
    }

    /// Up to `max(rows / 10, 5)` rows down.
    pub fn rapid_down(&mut self)
        requires
            old(self).wf(),
        ensures
            final(self).wf(),
            final(self)@ == old(self)@.rapid_down(),
            final(self).dirty(),
    {
        self.set_dirty();
        self.clear_selection_origin();
        self.rapid_move(false);
    }

    pub fn to_line_head(&mut self)
        requires
            old(self).wf(),
        ensures
            final(self).wf(),
            final(self)@ == old(self)@.to_line_head(),
            final(self).dirty(),
    {
        self.set_dirty();
        self.clear_selection_origin();
        self.col = 0;
    }

    pub fn to_line_tail(&mut self)
        requires
            old(self).wf(),
        ensures
            final(self).wf(),
            final(self)@ == old(self)@.to_line_tail(),
            final(self).dirty(),
    {
        self.set_dirty();
        self.clear_selection_origin();
        self.col = self.lines[self.row].len();
    }

    /// Extends the selection one character to the right, within the row's content.
    pub fn select_right(&mut self)
        requires
            old(self).wf(),
        ensures
            final(self).wf(),
            final(self)@ == old(self)@.select_right(),
            final(self).dirty(),
    {
        self.set_dirty();
        let len = self.lines[self.row].len();
        let top = if len > 0 {
            len - 1
        } else {
            0
        };
        if self.col < top {
            self.set_selection_origin();
            self.col = self.col + 1;
        }
    }

    /// Extends the selection one character to the left.
    pub fn select_left(&mut self)
        requires
            old(self).wf(),
        ensures
            final(self).wf(),
            final(self)@ == old(self)@.select_left(),
            final(self).dirty(),
    {
        self.set_dirty();
        if self.col > 0 {
            self.set_selection_origin();
            self.col = self.col - 1;
        }
    }

    /// A copy of the buffer (rows, cursor, selection and dirty flag), for an undo snapshot.
    pub fn snapshot(&self) -> (r: Buffer)
        ensures
            r@ == self@,
            r.dirty() == self.dirty(),
    {
        let mut lines: Vec<Vec<char>> = Vec::new();
        let mut i: usize = 0;
        while i < self.lines.len()
            invariant
                i <= self.lines@.len(),
                lines@.len() == i,
                forall|k: int| 0 <= k < i ==> (#[trigger] lines@[k])@ == self.lines@[k]@,
            decreases self.lines@.len() - i,
        {
            let src = &self.lines[i];
            let mut row: Vec<char> = Vec::new();
            let mut j: usize = 0;
            while j < src.len()
                invariant
                    j <= src@.len(),
                    row@ == src@.take(j as int),
                decreases src@.len() - j,
            {
                row.push(src[j]);
                proof {
                    assert(src@.take(j + 1) == src@.take(j as int).push(src@[j as int]));
                }
                j = j + 1;
            }
            proof {
                assert(src@.take(j as int) == src@);
            }
            lines.push(row);
            i = i + 1;
        }
        let r = Buffer {
            lines,
            row: self.row,
            col: self.col,
            selection_origin: self.selection_origin,
            dirty: self.dirty,
        };
        assert(r@.rows =~= self@.rows);
        r
    }

    // ---- private helpers ----

    fn newline(&mut self)
        requires
            old(self).wf(),
            old(self).dirty(),
        ensures
            final(self).wf(),
            final(self)@ == old(self)@.split_line(),
            final(self).dirty(),
    {
        let ghost m = self@;
        self.clear_selection_origin();
        let col = self.col;
        let right = self.lines[self.row].split_off(col);
        let n = self.lines.len();
        assert(self.row < n);
        self.row = self.row + 1;
        self.col = 0;
        self.lines.insert(self.row, right);
        proof {
            assert(self@.rows =~= m.split_line().rows);
        }
    }

    fn delete_on_cursor(&mut self) -> (r: bool)
        requires
            old(self).wf(),
            old(self).selection_origin is None,
        ensures
            final(self).wf(),
            r == (old(self)@.col < old(self)@.line().len()),
            r ==> final(self)@ == old(self)@.at(old(self)@.remove_at(old(self)@.col), old(self)@.row, old(self)@.col),
            !r ==> final(self)@ == old(self)@,
            final(self).dirty() == old(self).dirty(),
            final(self).selection_origin is None,
            final(self).row == old(self).row,
            final(self).col == old(self).col,
    {
        let ghost m = self@;
        let col = self.col;
        if col < self.lines[self.row].len() {
            self.lines[self.row].remove(col);
            proof {
                assert(self@.rows =~= m.remove_at(col as int));
            }
            true
        } else {
            false
        }
    }

    fn concatenate_cur_next_lines(&mut self)
        requires
            old(self).wf(),
            old(self).selection_origin is None,
            old(self)@.col == old(self)@.line().len(),
        ensures
            final(self).wf(),
            old(self)@.row + 1 < old(self)@.rows.len() ==> final(self)@ == old(self)@.at(
                old(self)@.joined(old(self)@.row),
                old(self)@.row,
                old(self)@.col,
            ),
            old(self)@.row + 1 >= old(self)@.rows.len() ==> final(self)@ == old(self)@,
            final(self).dirty() == old(self).dirty(),
    {
        let ghost m = self@;
        if self.row < self.lines.len() - 1 {
            let mut next = self.lines.remove(self.row + 1);
            self.lines[self.row].append(&mut next);
            proof {
                assert(self@.rows =~= m.joined(m.row));
            }
        }
    }

    fn rapid_move(&mut self, up: bool)
        requires
            old(self).wf(),
            old(self).selection_origin is None,
            old(self).dirty(),
        ensures
            final(self).wf(),
            up ==> final(self)@ == old(self)@.rapid_up(),
            !up ==> final(self)@ == old(self)@.rapid_down(),
            final(self).dirty(),
    {
        let ghost m = self@;
        let n = self.lines.len();
        let max_scroll = if n / 10 >= 5 {
            n / 10
        } else {
            5
        };
        let mut i: usize = 0;
        while i < max_scroll
            invariant
                i <= max_scroll,
                max_scroll == rapid_steps(m.rows.len() as int),
                m == old(self)@,
                self.wf(),
                self.dirty(),
                self@.origin is None,
                self@.rows == m.rows,
                up ==> self@.move_up_n((max_scroll - i) as nat) == m.rapid_up(),
                !up ==> self@.move_down_n((max_scroll - i) as nat) == m.rapid_down(),
            decreases max_scroll - i,
        {
            let ghost before = self@;
            let moved = if up {
                self.move_up()
            } else {
                self.move_down()
            };
            if !moved {
                proof {
                    assert(before.unselected() == before);
                    if up {
                        assert(before.move_up_n((max_scroll - i) as nat) == before.unselected());
                    } else {
                        assert(before.move_down_n((max_scroll - i) as nat) == before.unselected());
                    }
                }
                return;
            }
            i = i + 1;
        }
    }
}

} // verus!
