//! The multi-line input buffer: its lines, its cursor, the snapshots taken
//! for undo/redo, and the abstract editing operations on it.

use vstd::prelude::*;
use std::time::Instant;
use crate::clock::instant_now;
use crate::text::{join_lines, join_with_newlines, views};

verus! {

/// The abstract content of the input buffer: its lines (as characters) and
/// the cursor, given as a line index and a character column.
#[verifier::ext_equal]
pub struct EditorView {
    pub lines: Seq<Seq<char>>,
    pub cursor_line: int,
    pub cursor_col: int,
}

impl EditorView {
    /// At least one line; the cursor stands on a line, at or before its end.
    pub open spec fn wf(self) -> bool {
        &&& self.lines.len() >= 1
        &&& 0 <= self.cursor_line < self.lines.len()
        &&& 0 <= self.cursor_col <= self.lines[self.cursor_line].len()
    }

    /// The line the cursor stands on.
    pub open spec fn current(self) -> Seq<char> {
        self.lines[self.cursor_line]
    }

    /// The buffer as one text: the lines joined with newlines.
    pub open spec fn text(self) -> Seq<char> {
        join_lines(self.lines)
    }

    /// The buffer holds a single empty line.
    pub open spec fn is_empty(self) -> bool {
        self.lines.len() == 1 && self.lines[0].len() == 0
    }
}

/// The empty buffer: one empty line, cursor at its start.
pub open spec fn empty_editor() -> EditorView {
    EditorView { lines: seq![Seq::<char>::empty()], cursor_line: 0, cursor_col: 0 }
}

/// Typing `c`: it goes in at the cursor, which moves past it.
pub open spec fn insert_char_spec(v: EditorView, c: char) -> EditorView {
    let l = v.current();
    EditorView {
        lines: v.lines.update(v.cursor_line, l.take(v.cursor_col) + seq![c] + l.skip(v.cursor_col)),
        cursor_col: v.cursor_col + 1,
        ..v
    }
}

/// Breaking the line at the cursor; the cursor goes to the start of the new line.
pub open spec fn insert_newline_spec(v: EditorView) -> EditorView {
    let l = v.current();
    EditorView {
        lines: v.lines.take(v.cursor_line) + seq![l.take(v.cursor_col), l.skip(v.cursor_col)]
            + v.lines.skip(v.cursor_line + 1),
        cursor_line: v.cursor_line + 1,
        cursor_col: 0,
    }
}

/// The current line joined with the next one (the next one is removed).
pub open spec fn join_with_next(v: EditorView) -> Seq<Seq<char>> {
    v.lines.take(v.cursor_line) + seq![v.current() + v.lines[v.cursor_line + 1]] + v.lines.skip(
        v.cursor_line + 2,
    )
}

/// Backspace: removes the character before the cursor, or at the start of a
/// line joins it to the line above, the cursor going to the join point.
pub open spec fn backspace_spec(v: EditorView) -> EditorView {
    let l = v.current();
    if v.cursor_col > 0 {
        EditorView {
            lines: v.lines.update(v.cursor_line, l.take(v.cursor_col - 1) + l.skip(v.cursor_col)),
            cursor_col: v.cursor_col - 1,
            ..v
        }
    } else if v.cursor_line > 0 {
        let above = v.lines[v.cursor_line - 1];
        EditorView {
            lines: v.lines.take(v.cursor_line - 1) + seq![above + l] + v.lines.skip(
                v.cursor_line + 1,
            ),
            cursor_line: v.cursor_line - 1,
            cursor_col: above.len() as int,
        }
    } else {
        v
    }
}

/// Delete: removes the character under the cursor, or at the end of a line
/// joins the next line to it. The cursor stays.
pub open spec fn delete_forward_spec(v: EditorView) -> EditorView {
    let l = v.current();
    if v.cursor_col < l.len() {
        EditorView {
            lines: v.lines.update(v.cursor_line, l.take(v.cursor_col) + l.skip(v.cursor_col + 1)),
            ..v
        }
    } else if v.cursor_line < v.lines.len() - 1 {
        EditorView { lines: join_with_next(v), ..v }
    } else {
        v
    }
}

/// Kill-line: cuts the current line at the cursor, or at the end of a line
/// joins the next line to it. The cursor stays.
pub open spec fn kill_line_spec(v: EditorView) -> EditorView {
    let l = v.current();
    if v.cursor_col < l.len() {
        EditorView { lines: v.lines.update(v.cursor_line, l.take(v.cursor_col)), ..v }
    } else if v.cursor_line < v.lines.len() - 1 {
        EditorView { lines: join_with_next(v), ..v }
    } else {
        v
    }
}

/// One line up, the column clamped to that line's length.
pub open spec fn move_up_spec(v: EditorView) -> EditorView {
    if v.cursor_line > 0 {
        let len = v.lines[v.cursor_line - 1].len() as int;
        EditorView {
            cursor_line: v.cursor_line - 1,
            cursor_col: if v.cursor_col < len { v.cursor_col } else { len },
            ..v
        }
    } else {
        v
    }
}

/// One line down, the column clamped to that line's length.
pub open spec fn move_down_spec(v: EditorView) -> EditorView {
    if v.cursor_line < v.lines.len() - 1 {
        let len = v.lines[v.cursor_line + 1].len() as int;
        EditorView {
            cursor_line: v.cursor_line + 1,
            cursor_col: if v.cursor_col < len { v.cursor_col } else { len },
            ..v
        }
    } else {
        v
    }
}

/// One character left, or to the end of the line above.
pub open spec fn move_left_spec(v: EditorView) -> EditorView {
    if v.cursor_col > 0 {
        EditorView { cursor_col: v.cursor_col - 1, ..v }
    } else if v.cursor_line > 0 {
        EditorView {
            cursor_line: v.cursor_line - 1,
            cursor_col: v.lines[v.cursor_line - 1].len() as int,
            ..v
        }
    } else {
        v
    }
}

/// One character right, or to the start of the line below.
pub open spec fn move_right_spec(v: EditorView) -> EditorView {
    if v.cursor_col < v.current().len() {
        EditorView { cursor_col: v.cursor_col + 1, ..v }
    } else if v.cursor_line < v.lines.len() - 1 {
        EditorView { cursor_line: v.cursor_line + 1, cursor_col: 0, ..v }
    } else {
        v
    }
}

/// The cursor to the start of its line.
pub open spec fn line_start_spec(v: EditorView) -> EditorView {
    EditorView { cursor_col: 0, ..v }
}

/// The cursor to the end of its line.
pub open spec fn line_end_spec(v: EditorView) -> EditorView {
    EditorView { cursor_col: v.current().len() as int, ..v }
}

/// A saved state of the input buffer, for undo and redo.
#[derive(Debug, Clone)]
pub struct InputSnapshot {
    pub lines: Vec<String>,
    pub cursor_line: usize,
    pub cursor_col: usize,
}

impl View for InputSnapshot {
    type V = EditorView;

    open spec fn view(&self) -> EditorView {
        EditorView {
            lines: views(self.lines@),
            cursor_line: self.cursor_line as int,
            cursor_col: self.cursor_col as int,
        }
    }
}

impl InputSnapshot {
    /// A snapshot of the buffer's lines and cursor.
    pub fn from_state(state: &InputState) -> (snap: Self)
        ensures
            snap@ == state@,
    {
        let lines = clone_lines(&state.lines);
        InputSnapshot { lines, cursor_line: state.cursor_line, cursor_col: state.cursor_col }
    }

    /// Puts the snapshot's lines and cursor back into the buffer.
    pub fn apply_to(&self, state: &mut InputState)
        ensures
            final(state)@ == self@,
            final(state).last_activity == old(state).last_activity,
    {
        state.lines = clone_lines(&self.lines);
        state.cursor_line = self.cursor_line;
        state.cursor_col = self.cursor_col;
    }
}

/// The element `i` of `v`, to change in place.
fn vec_index_mut(v: &mut Vec<String>, i: usize) -> (e: &mut String)
    requires
        i < old(v).len(),
    ensures
        *e == old(v)@[i as int],
        final(v)@ == old(v)@.update(i as int, *final(e)),
{
    &mut v[i]
}

/// A copy of a vector of strings.
fn clone_lines(v: &Vec<String>) -> (r: Vec<String>)
    ensures
        views(r@) == views(v@),
{
    let r = v.clone();
    assert(views(r@) =~= views(v@)) by {
        assert forall|i: int| 0 <= i < v@.len() implies r@[i]@ == v@[i]@ by {
            assert(cloned::<String>(v[i], r[i]));
        }
    }
    r
}

/// The input buffer being edited.
#[derive(Debug)]
pub struct InputState {
    pub lines: Vec<String>,
    pub cursor_line: usize,
    pub cursor_col: usize,
    pub last_activity: Instant,
}

impl View for InputState {
    type V = EditorView;

    open spec fn view(&self) -> EditorView {
        EditorView {
            lines: views(self.lines@),
            cursor_line: self.cursor_line as int,
            cursor_col: self.cursor_col as int,
        }
    }
}

impl InputState {
    /// A buffer with one empty line and the cursor at its start.
    pub fn new() -> (st: Self)
        ensures
            st@ == empty_editor(),
            st@.wf(),
    {
        let mut lines: Vec<String> = Vec::new();
        lines.push(String::new());
        let st = InputState { lines, cursor_line: 0, cursor_col: 0, last_activity: instant_now() };
        assert(st@.lines =~= seq![Seq::<char>::empty()]);
        st
    }

    /// The line the cursor stands on.
    pub fn current_line(&self) -> (l: &String)
        requires
            self.cursor_line < self.lines.len(),
        ensures
            l@ == self@.current(),
    {
        &self.lines[self.cursor_line]
    }

    /// The line the cursor stands on, to change in place.
    pub fn current_line_mut(&mut self) -> (l: &mut String)
        requires
            old(self).cursor_line < old(self).lines.len(),
        ensures
            l@ == old(self)@.current(),
            final(self).lines@ == old(self).lines@.update(old(self).cursor_line as int, *final(l)),
            final(self).cursor_line == old(self).cursor_line,
            final(self).cursor_col == old(self).cursor_col,
            final(self).last_activity == old(self).last_activity,
    {
        let i = self.cursor_line;
        vec_index_mut(&mut self.lines, i)
    }

    /// The buffer as one string, the lines joined with newlines.
    pub fn to_string(&self) -> (s: String)
        ensures
            s@ == self@.text(),
    {
        join_with_newlines(&self.lines)
    }

    /// Whether the buffer holds a single empty line.
    pub fn is_empty(&self) -> (b: bool)
        ensures
            b == self@.is_empty(),
    {
        self.lines.len() == 1 && self.lines[0].as_str().is_empty()
    }

    /// Empties the buffer: one empty line, cursor at its start.
    pub fn clear(&mut self)
        ensures
            final(self)@ == empty_editor(),
            final(self).last_activity == old(self).last_activity,
    {
        let mut lines: Vec<String> = Vec::new();
        lines.push(String::new());
        self.lines = lines;
        self.cursor_line = 0;
        self.cursor_col = 0;
        assert(self@.lines =~= seq![Seq::<char>::empty()]);
    }
}

// ---------------------------------------------------------------------------
// Laws of editing
// ---------------------------------------------------------------------------

/// Every editing operation keeps the buffer well formed: at least one line,
/// and the cursor on a line, at or before its end.
pub proof fn law_edits_keep_wf(v: EditorView, c: char)
    requires
        v.wf(),
    ensures
        insert_char_spec(v, c).wf(),
        insert_newline_spec(v).wf(),
        backspace_spec(v).wf(),
        delete_forward_spec(v).wf(),
        kill_line_spec(v).wf(),
        move_up_spec(v).wf(),
        move_down_spec(v).wf(),
        move_left_spec(v).wf(),
        move_right_spec(v).wf(),
        line_start_spec(v).wf(),
        line_end_spec(v).wf(),
        empty_editor().wf(),
{
}

/// Backspace right after typing a character takes it out again.
pub proof fn law_backspace_undoes_insert(v: EditorView, c: char)
    requires
        v.wf(),
    ensures
        backspace_spec(insert_char_spec(v, c)) == v,
{
    let l = v.current();
    let col = v.cursor_col;
    let nl = l.take(col) + seq![c] + l.skip(col);
    assert(nl.take(col) + nl.skip(col + 1) =~= l);
    assert(v.lines.update(v.cursor_line, nl).update(v.cursor_line, l) =~= v.lines);
}

/// Backspace at the start of a line made by breaking a line joins the two
/// halves again, with the cursor back where the break was.
pub proof fn law_backspace_undoes_newline(v: EditorView)
    requires
        v.wf(),
    ensures
        backspace_spec(insert_newline_spec(v)) == v,
{
    let w = insert_newline_spec(v);
    let l = v.current();
    let col = v.cursor_col;
    let cl = v.cursor_line;
    assert(w.lines[cl] == l.take(col));
    assert(w.lines[cl + 1] == l.skip(col));
    assert(l.take(col) + l.skip(col) =~= l);
    assert(w.lines.take(cl) + seq![l] + w.lines.skip(cl + 2) =~= v.lines);
}

/// Moving left and then right comes back, wherever the cursor was but at
/// the very start of the buffer.
pub proof fn law_left_then_right(v: EditorView)
    requires
        v.wf(),
        v.cursor_line > 0 || v.cursor_col > 0,
    ensures
        move_right_spec(move_left_spec(v)) == v,
{
}

/// The buffer counts as empty exactly when its text is empty.
pub proof fn law_empty_iff_no_text(v: EditorView)
    requires
        v.lines.len() >= 1,
    ensures
        v.is_empty() <==> v.text().len() == 0,
{
    if v.lines.len() >= 2 {
        assert(v.text() == join_lines(v.lines.drop_last()) + seq!['\n'] + v.lines.last());
    }
}

/// Moving right and then left comes back, wherever the cursor was but at
/// the very end of the buffer.
pub proof fn law_right_then_left(v: EditorView)
    requires
        v.wf(),
        v.cursor_line < v.lines.len() - 1 || v.cursor_col < v.current().len(),
    ensures
        move_left_spec(move_right_spec(v)) == v,
{
}

/// A line holds no newline.
pub open spec fn no_newline(l: Seq<char>) -> bool {
    forall|j: int| 0 <= j < l.len() ==> l[j] != '\n'
}

/// No line of the buffer holds a newline: line breaks are only ever between
/// the lines.
pub open spec fn lines_single(v: EditorView) -> bool {
    forall|i: int| 0 <= i < v.lines.len() ==> no_newline(#[trigger] v.lines[i])
}

/// The pieces of a line without newlines have none, nor do two such lines
/// put together.
proof fn lemma_no_newline_pieces(l: Seq<char>, m: Seq<char>, k: int)
    requires
        no_newline(l),
        no_newline(m),
        0 <= k <= l.len(),
    ensures
        no_newline(l.take(k)),
        no_newline(l.skip(k)),
        no_newline(l + m),
{
    assert forall|j: int| 0 <= j < (l + m).len() implies (l + m)[j] != '\n' by {
        if j < l.len() {
            assert((l + m)[j] == l[j]);
        } else {
            assert((l + m)[j] == m[j - l.len()]);
        }
    }
    assert forall|j: int| 0 <= j < l.skip(k).len() implies l.skip(k)[j] != '\n' by {
        assert(l.skip(k)[j] == l[j + k]);
    }
}

/// Every editing operation keeps the lines free of newlines, as long as the
/// typed character is not one.
pub proof fn law_edits_keep_lines_single(v: EditorView, c: char)
    requires
        v.wf(),
        lines_single(v),
        c != '\n',
    ensures
        lines_single(insert_char_spec(v, c)),
        lines_single(insert_newline_spec(v)),
        lines_single(backspace_spec(v)),
        lines_single(delete_forward_spec(v)),
        lines_single(kill_line_spec(v)),
        lines_single(move_up_spec(v)),
        lines_single(move_down_spec(v)),
        lines_single(move_left_spec(v)),
        lines_single(move_right_spec(v)),
        lines_single(line_start_spec(v)),
        lines_single(line_end_spec(v)),
        lines_single(empty_editor()),
{
    let l = v.current();
    let cl = v.cursor_line;
    let col = v.cursor_col;
    assert(no_newline(l));
    let one = seq![c];
    assert(no_newline(one));
    assert(no_newline(Seq::<char>::empty()));
    lemma_no_newline_pieces(l, one, col);
    lemma_no_newline_pieces(l.take(col), one, col);
    lemma_no_newline_pieces(l.take(col) + one, l.skip(col), 0);
    // typing
    let w = insert_char_spec(v, c);
    assert forall|i: int| 0 <= i < w.lines.len() implies no_newline(#[trigger] w.lines[i]) by {
        if i != cl {
            assert(w.lines[i] == v.lines[i]);
        }
    }
    // breaking the line
    let n = insert_newline_spec(v);
    assert forall|i: int| 0 <= i < n.lines.len() implies no_newline(#[trigger] n.lines[i]) by {
        if i < cl {
            assert(n.lines[i] == v.lines[i]);
        } else if i > cl + 1 {
            assert(n.lines[i] == v.lines[i - 1]);
        }
    }
    // backspace
    let b = backspace_spec(v);
    if col > 0 {
        lemma_no_newline_pieces(l, l, col - 1);
        lemma_no_newline_pieces(l.take(col - 1), l.skip(col), 0);
        assert forall|i: int| 0 <= i < b.lines.len() implies no_newline(#[trigger] b.lines[i]) by {
            if i != cl {
                assert(b.lines[i] == v.lines[i]);
            }
        }
    } else if cl > 0 {
        let above = v.lines[cl - 1];
        assert(no_newline(above));
        lemma_no_newline_pieces(above, l, 0);
        assert forall|i: int| 0 <= i < b.lines.len() implies no_newline(#[trigger] b.lines[i]) by {
            if i < cl - 1 {
                assert(b.lines[i] == v.lines[i]);
            } else if i > cl - 1 {
                assert(b.lines[i] == v.lines[i + 1]);
            }
        }
    }
    // delete forward and kill-line
    let d = delete_forward_spec(v);
    let k = kill_line_spec(v);
    if col < l.len() {
        lemma_no_newline_pieces(l, l, col + 1);
        lemma_no_newline_pieces(l.take(col), l.skip(col + 1), 0);
        assert forall|i: int| 0 <= i < d.lines.len() implies no_newline(#[trigger] d.lines[i]) by {
            if i != cl {
                assert(d.lines[i] == v.lines[i]);
            }
        }
        assert forall|i: int| 0 <= i < k.lines.len() implies no_newline(#[trigger] k.lines[i]) by {
            if i != cl {
                assert(k.lines[i] == v.lines[i]);
            }
        }
    } else if cl < v.lines.len() - 1 {
        let below = v.lines[cl + 1];
        assert(no_newline(below));
        lemma_no_newline_pieces(l, below, 0);
        let jn = join_with_next(v);
        assert forall|i: int| 0 <= i < jn.len() implies no_newline(#[trigger] jn[i]) by {
            if i < cl {
                assert(jn[i] == v.lines[i]);
            } else if i > cl {
                assert(jn[i] == v.lines[i + 1]);
            }
        }
    }
    assert(empty_editor().lines[0] == Seq::<char>::empty());
}

/// Moving down goes to the next line and keeps the cursor's column, but
/// never past that line's end; Up then brings the cursor back wherever its
/// column fits both lines.
pub proof fn law_down_keeps_column(v: EditorView)
    requires
        v.wf(),
        v.cursor_line < v.lines.len() - 1,
    ensures
        move_down_spec(v).lines == v.lines,
        move_down_spec(v).cursor_line == v.cursor_line + 1,
        move_down_spec(v).cursor_col <= v.cursor_col,
        move_down_spec(v).cursor_col <= v.lines[v.cursor_line + 1].len(),
        move_down_spec(v).cursor_col == v.cursor_col || move_down_spec(v).cursor_col == v.lines[v.cursor_line + 1].len(),
        v.cursor_col <= v.lines[v.cursor_line + 1].len() ==> move_up_spec(move_down_spec(v)) == v,
{
}

/// Moving up goes to the line above and keeps the cursor's column, but
/// never past that line's end; Down then brings the cursor back wherever its
/// column fits both lines.
pub proof fn law_up_keeps_column(v: EditorView)
    requires
        v.wf(),
        v.cursor_line > 0,
    ensures
        move_up_spec(v).lines == v.lines,
        move_up_spec(v).cursor_line == v.cursor_line - 1,
        move_up_spec(v).cursor_col <= v.cursor_col,
        move_up_spec(v).cursor_col <= v.lines[v.cursor_line - 1].len(),
        move_up_spec(v).cursor_col == v.cursor_col || move_up_spec(v).cursor_col == v.lines[v.cursor_line - 1].len(),
        v.cursor_col <= v.lines[v.cursor_line - 1].len() ==> move_down_spec(move_up_spec(v)) == v,
{
}

} // verus!
