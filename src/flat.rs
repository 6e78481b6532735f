use vstd::prelude::*;

use crate::buffer::{join_rows, BufferModel};

verus! {

/// The document as one string with the cursor as an offset into it: the simplest account of
/// what the editing primitives do.
pub struct FlatText {
    pub text: Seq<char>,
    pub pos: int,
}

/// An editing or navigation call on the buffer.
pub enum Edit {
    InsertChar(char),
    Backspace,
    Delete,
    MoveLeft,
    MoveRight,
}

impl FlatText {
    pub open spec fn insert_char(self, c: char) -> FlatText {
        FlatText {
            text: self.text.take(self.pos) + seq![c] + self.text.skip(self.pos),
            pos: self.pos + 1,
        }
    }

    pub open spec fn backspace(self) -> FlatText {
        if self.pos > 0 {
            FlatText {
                text: self.text.take(self.pos - 1) + self.text.skip(self.pos),
                pos: self.pos - 1,
            }
        } else {
            self
        }
    }

    pub open spec fn delete(self) -> FlatText {
        if self.pos < self.text.len() {
            FlatText { text: self.text.take(self.pos) + self.text.skip(self.pos + 1), pos: self.pos }
        } else {
            self
        }
    }

    pub open spec fn move_left(self) -> FlatText {
        if self.pos > 0 {
            FlatText { pos: self.pos - 1, ..self }
        } else {
            self
        }
    }

    pub open spec fn move_right(self) -> FlatText {
        if self.pos < self.text.len() {
            FlatText { pos: self.pos + 1, ..self }
        } else {
            self
        }
    }

    pub open spec fn apply(self, e: Edit) -> FlatText {
        match e {
            Edit::InsertChar(c) => self.insert_char(c),
            Edit::Backspace => self.backspace(),
            Edit::Delete => self.delete(),
            Edit::MoveLeft => self.move_left(),
            Edit::MoveRight => self.move_right(),
        }
    }

    pub open spec fn apply_all(self, es: Seq<Edit>) -> FlatText
        decreases es.len(),
    {
        if es.len() == 0 {
            self
        } else {
            self.apply_all(es.drop_last()).apply(es.last())
        }
    }
}

/// The text before row `r`, its newline included.
pub open spec fn before_row(rows: Seq<Seq<char>>, r: int) -> Seq<char> {
    if r <= 0 {
        seq![]
    } else {
        join_rows(rows.take(r)).push('\n')
    }
}

/// The text after row `r`, its newline included.
pub open spec fn after_row(rows: Seq<Seq<char>>, r: int) -> Seq<char> {
    if r + 1 >= rows.len() {
        seq![]
    } else {
        seq!['\n'] + join_rows(rows.skip(r + 1))
    }
}

impl BufferModel {
    /// The cursor as an offset into the document.
    pub open spec fn offset(self) -> int {
        before_row(self.rows, self.row).len() + self.col
    }

    pub open spec fn flat(self) -> FlatText {
        FlatText { text: self.document(), pos: self.offset() }
    }

    pub open spec fn apply(self, e: Edit) -> BufferModel {
        match e {
            Edit::InsertChar(c) => self.insert_char(c),
            Edit::Backspace => self.backspace(),
            Edit::Delete => self.delete(),
            Edit::MoveLeft => self.move_left(),
            Edit::MoveRight => self.move_right(),
        }
    }

    pub open spec fn apply_all(self, es: Seq<Edit>) -> BufferModel
        decreases es.len(),
    {
        if es.len() == 0 {
            self
        } else {
            self.apply_all(es.drop_last()).apply(es.last())
        }
    }
}

proof fn lemma_join_append(a: Seq<Seq<char>>, b: Seq<Seq<char>>)
    requires
        a.len() >= 1,
        b.len() >= 1,
    ensures
        join_rows(a + b) == join_rows(a) + seq!['\n'] + join_rows(b),
    decreases b.len(),
{
    if b.len() == 1 {
        assert((a + b).drop_last() =~= a);
        assert(join_rows(a).push('\n') =~= join_rows(a) + seq!['\n']);
    } else {
        assert((a + b).drop_last() =~= a + b.drop_last());
        lemma_join_append(a, b.drop_last());
        assert(join_rows(a + b) =~= join_rows(a) + seq!['\n'] + join_rows(b));
    }
}

/// The document is the text before a row, the row, and the text after it.
proof fn lemma_row_decomposition(rows: Seq<Seq<char>>, r: int)
    requires
        0 <= r < rows.len(),
    ensures
        join_rows(rows) == before_row(rows, r) + rows[r] + after_row(rows, r),
{
    let mid = seq![rows[r]];
    assert(join_rows(mid) == rows[r]);
    if r > 0 {
        lemma_join_append(rows.take(r), mid);
        assert(rows.take(r) + mid =~= rows.take(r + 1));
    } else {
        assert(rows.take(r + 1) =~= mid);
    }
    if r + 1 < rows.len() {
        lemma_join_append(rows.take(r + 1), rows.skip(r + 1));
        assert(rows.take(r + 1) + rows.skip(r + 1) =~= rows);
    } else {
        assert(rows.take(r + 1) =~= rows);
    }
    assert(join_rows(rows) =~= before_row(rows, r) + rows[r] + after_row(rows, r));
}

/// The text before row `r + 1` is the text before row `r`, row `r` and a newline.
proof fn lemma_before_next(rows: Seq<Seq<char>>, r: int)
    requires
        0 <= r,
        r + 1 < rows.len(),
    ensures
        before_row(rows, r + 1) == before_row(rows, r) + rows[r] + seq!['\n'],
{
    let t = rows.take(r + 1);
    if r == 0 {
        assert(t =~= seq![rows[0]]);
        assert(join_rows(t) == rows[0]);
    } else {
        assert(t.drop_last() =~= rows.take(r));
        assert(t.last() == rows[r]);
    }
    assert(before_row(rows, r + 1) =~= before_row(rows, r) + rows[r] + seq!['\n']);
}

/// The text after row `r` is a newline, row `r + 1` and the text after that.
proof fn lemma_after_next(rows: Seq<Seq<char>>, r: int)
    requires
        0 <= r,
        r + 1 < rows.len(),
    ensures
        after_row(rows, r) == seq!['\n'] + rows[r + 1] + after_row(rows, r + 1),
{
    let s = rows.skip(r + 1);
    if r + 2 < rows.len() {
        lemma_join_append(seq![rows[r + 1]], rows.skip(r + 2));
        assert(seq![rows[r + 1]] + rows.skip(r + 2) =~= s);
        assert(join_rows(seq![rows[r + 1]]) == rows[r + 1]);
    } else {
        assert(s =~= seq![rows[r + 1]]);
        assert(join_rows(s) == rows[r + 1]);
    }
    assert(after_row(rows, r) =~= seq!['\n'] + rows[r + 1] + after_row(rows, r + 1));
}

/// Rows that agree after row `ra` of `a` and row `rb` of `b` have the same text after them.
proof fn lemma_after_kept(a: Seq<Seq<char>>, b: Seq<Seq<char>>, ra: int, rb: int)
    requires
        0 <= ra < a.len(),
        0 <= rb < b.len(),
        a.skip(ra + 1) == b.skip(rb + 1),
    ensures
        after_row(a, ra) == after_row(b, rb),
{
    assert(a.skip(ra + 1).len() == a.len() - (ra + 1));
    assert(b.skip(rb + 1).len() == b.len() - (rb + 1));
}

proof fn lemma_cursor_facts(m: BufferModel)
    requires
        m.wf(),
    ensures
        m.document() == m.document().take(m.offset()) + m.document().skip(m.offset()),
        m.document().take(m.offset()) == before_row(m.rows, m.row) + m.line().take(m.col),
        m.document().skip(m.offset()) == m.line().skip(m.col) + after_row(m.rows, m.row),
        0 <= m.offset() <= m.document().len(),
        m.can_move_left() <==> m.offset() > 0,
        m.can_move_right() <==> m.offset() < m.document().len(),
{
    lemma_row_decomposition(m.rows, m.row);
    let b = before_row(m.rows, m.row);
    let l = m.line();
    let a = after_row(m.rows, m.row);
    assert(m.document() =~= (b + l.take(m.col)) + (l.skip(m.col) + a));
    assert(m.document().take(m.offset()) =~= b + l.take(m.col));
    assert(m.document().skip(m.offset()) =~= l.skip(m.col) + a);
    if m.row > 0 {
        assert(b.len() > 0);
    }
    if m.row + 1 < m.rows.len() {
        assert(a.len() > 0);
    }
}

/// Rows that differ only in row `r` spell the same document around it.
proof fn lemma_row_replaced(m: BufferModel, x: Seq<char>)
    requires
        m.wf(),
    ensures
        join_rows(m.rows.update(m.row, x)) == before_row(m.rows, m.row) + x + after_row(
            m.rows,
            m.row,
        ),
{
    let rows2 = m.rows.update(m.row, x);
    lemma_row_decomposition(rows2, m.row);
    assert(rows2.take(m.row) =~= m.rows.take(m.row));
    assert(rows2.skip(m.row + 1) =~= m.rows.skip(m.row + 1));
    lemma_after_kept(rows2, m.rows, m.row, m.row);
}

/// Rows `k` and `k + 1` made one: the document loses the newline between them.
proof fn lemma_rows_joined(m: BufferModel, k: int)
    requires
        m.wf(),
        0 <= k,
        k + 1 < m.rows.len(),
    ensures
        join_rows(m.joined(k)) == before_row(m.rows, k) + m.rows[k] + m.rows[k + 1] + after_row(
            m.rows,
            k + 1,
        ),
        m.document() == before_row(m.rows, k) + m.rows[k] + seq!['\n'] + m.rows[k + 1]
            + after_row(m.rows, k + 1),
{
    let j = m.joined(k);
    lemma_row_decomposition(j, k);
    assert(j.take(k) =~= m.rows.take(k));
    assert(j.skip(k + 1) =~= m.rows.skip(k + 2));
    lemma_after_kept(j, m.rows, k, k + 1);
    lemma_row_decomposition(m.rows, k);
    lemma_after_next(m.rows, k);
    assert(m.document() =~= before_row(m.rows, k) + m.rows[k] + seq!['\n'] + m.rows[k + 1]
        + after_row(m.rows, k + 1));
}

proof fn lemma_newline_follows(m: BufferModel)
    requires
        m.wf(),
        m.origin is None,
    ensures
        m.insert_char('\n').flat() == m.flat().insert_char('\n'),
{
    lemma_cursor_facts(m);
    let d = m.document();
    let p = m.offset();
    let r = m.row;
    let n = m.insert_char('\n');
    let rows2 = n.rows;
    lemma_row_decomposition(rows2, r);
    assert(rows2.take(r) =~= m.rows.take(r));
    lemma_after_next(rows2, r);
    assert(rows2.skip(r + 2) =~= m.rows.skip(r + 1));
    lemma_after_kept(rows2, m.rows, r + 1, r);
    lemma_before_next(rows2, r);
    assert(n.document() =~= d.take(p) + seq!['\n'] + d.skip(p));
}

proof fn lemma_put_char_follows(m: BufferModel, ch: char)
    requires
        m.wf(),
        m.origin is None,
        ch != '\n',
    ensures
        m.insert_char(ch).flat() == m.flat().insert_char(ch),
{
    lemma_cursor_facts(m);
    let d = m.document();
    let p = m.offset();
    let l = m.line();
    let c = m.col;
    let n = m.insert_char(ch);
    lemma_row_replaced(m, l.take(c).push(ch) + l.skip(c));
    assert(n.rows.take(m.row) =~= m.rows.take(m.row));
    assert(n.document() =~= d.take(p) + seq![ch] + d.skip(p));
}

proof fn lemma_backspace_follows(m: BufferModel)
    requires
        m.wf(),
        m.origin is None,
    ensures
        m.backspace().flat() == m.flat().backspace(),
{
    lemma_cursor_facts(m);
    let d = m.document();
    let p = m.offset();
    let l = m.line();
    let r = m.row;
    let c = m.col;
    if c > 0 {
        lemma_row_replaced(m, l.take(c - 1) + l.skip(c));
        assert(m.remove_at(c - 1).take(r) =~= m.rows.take(r));
        assert(m.backspace().document() =~= d.take(p - 1) + d.skip(p));
    } else if r > 0 {
        lemma_rows_joined(m, r - 1);
        lemma_before_next(m.rows, r - 1);
        assert(m.joined(r - 1).take(r - 1) =~= m.rows.take(r - 1));
        assert(m.backspace().document() =~= d.take(p - 1) + d.skip(p));
    }
}

proof fn lemma_delete_follows(m: BufferModel)
    requires
        m.wf(),
        m.origin is None,
    ensures
        m.delete().flat() == m.flat().delete(),
{
    lemma_cursor_facts(m);
    let d = m.document();
    let p = m.offset();
    let l = m.line();
    let r = m.row;
    let c = m.col;
    if c < l.len() {
        lemma_row_replaced(m, l.take(c) + l.skip(c + 1));
        assert(m.remove_at(c).take(r) =~= m.rows.take(r));
        assert(m.delete().document() =~= d.take(p) + d.skip(p + 1));
    } else if r + 1 < m.rows.len() {
        lemma_rows_joined(m, r);
        assert(m.joined(r).take(r) =~= m.rows.take(r));
        assert(l.skip(c).len() == 0);
        assert(m.delete().document() =~= d.take(p) + d.skip(p + 1));
    }
}

proof fn lemma_moves_follow(m: BufferModel)
    requires
        m.wf(),
        m.origin is None,
    ensures
        m.move_left().flat() == m.flat().move_left(),
        m.move_right().flat() == m.flat().move_right(),
{
    lemma_cursor_facts(m);
    if m.col == 0 && m.row > 0 {
        lemma_before_next(m.rows, m.row - 1);
    }
    if m.col == m.line().len() && m.row + 1 < m.rows.len() {
        lemma_before_next(m.rows, m.row);
    }
}

/// One editing or navigation call on a buffer without a selection acts on its document and
/// cursor offset as the same call on the flat string does.
pub proof fn lemma_edit_follows_flat(m: BufferModel, e: Edit)
    requires
        m.wf(),
        m.origin is None,
    ensures
        m.apply(e).wf(),
        m.apply(e).origin is None,
        m.apply(e).flat() == m.flat().apply(e),
{
    match e {
        Edit::InsertChar(ch) => {
            if ch == '\n' {
                lemma_newline_follows(m);
            } else {
                lemma_put_char_follows(m, ch);
            }
        },
        Edit::Backspace => lemma_backspace_follows(m),
        Edit::Delete => lemma_delete_follows(m),
        _ => lemma_moves_follow(m),
    }
}

/// For any sequence of insertions, backspaces, deletions and left/right moves on a buffer
/// without a selection, the document and cursor offset are those that the same sequence
/// gives on the flat string.
pub proof fn lemma_edits_follow_flat(m: BufferModel, es: Seq<Edit>)
    requires
        m.wf(),
        m.origin is None,
    ensures
        m.apply_all(es).wf(),
        m.apply_all(es).origin is None,
        m.apply_all(es).flat() == m.flat().apply_all(es),
    decreases es.len(),
{
    if es.len() > 0 {
        lemma_edits_follow_flat(m, es.drop_last());
        lemma_edit_follows_flat(m.apply_all(es.drop_last()), es.last());
    }
}

/// Deleting a selection removes exactly the selected characters from the document, and the
/// cursor lands where they began.
pub proof fn lemma_selection_delete_follows_flat(m: BufferModel)
    requires
        m.wf(),
        m.origin is Some,
    ensures
        m.delete_selection().wf(),
        m.delete_selection().document() == m.document().take(
            before_row(m.rows, m.row).len() + m.sel_lo(),
        ) + m.document().skip(before_row(m.rows, m.row).len() + m.sel_hi() + 1),
        m.delete_selection().offset() == before_row(m.rows, m.row).len() + m.sel_lo(),
{
    let l = m.line();
    let lo = m.sel_lo();
    let hi = m.sel_hi();
    let b = before_row(m.rows, m.row);
    let a = after_row(m.rows, m.row);
    lemma_row_decomposition(m.rows, m.row);
    lemma_row_replaced(m, l.take(lo) + l.skip(hi + 1));
    let n = m.delete_selection();
    assert(n.rows.take(m.row) =~= m.rows.take(m.row));
    assert(m.document() =~= (b + l.take(lo)) + (l.subrange(lo, hi + 1) + (l.skip(hi + 1) + a)));
    assert(m.document().take(b.len() + lo) =~= b + l.take(lo));
    assert(m.document().skip(b.len() + hi + 1) =~= l.skip(hi + 1) + a);
    assert(n.document() =~= m.document().take(b.len() + lo) + m.document().skip(b.len() + hi + 1));
}

} // verus!
