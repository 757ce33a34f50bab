use vstd::prelude::*;

use crate::state::Direction;
use crate::state::EditorState;
use crate::state::join_lines;
use crate::state::lemma_insert_char_wf;
use crate::state::lemma_insert_text_snoc;
use crate::state::lemma_join_push;
use crate::state::lemma_move_cursor_wf;
use crate::state::lemma_remove_char_wf;
use vstd::string::StrSliceExecFns;

verus! {

/// A line-oriented text buffer with a single cursor.
///
/// `lines` always holds at least one line, no line contains a line break,
/// and `(row, column)` always points at a valid position: `row` indexes a
/// line and `column` is at most that line's length.
pub struct Backend {
    column: usize,
    row: usize,
    lines: Vec<Vec<char>>,
}

impl View for Backend {
    type V = EditorState;

    closed spec fn view(&self) -> EditorState {
        EditorState {
            lines: self.lines.deep_view(),
            row: self.row as int,
            col: self.column as int,
        }
    }
}

impl Backend {
    /// A new buffer: a single empty line, cursor at `(0, 0)`.
    pub fn new() -> (r: Self)
        ensures
            r@ == EditorState::init(),
            r@.wf(),
    {
        let mut lines: Vec<Vec<char>> = Vec::new();
        lines.push(Vec::new());
        let r = Backend { column: 0, row: 0, lines };
        proof {
            assert(r@.lines =~~= EditorState::init().lines);
            assert(r@ =~= EditorState::init());
        }
        r
    }

    /// The cursor position as `(row, column)`.
    pub fn position(&self) -> (r: (usize, usize))
        ensures
            r.0 == self@.row,
            r.1 == self@.col,
    {
        (self.row, self.column)
    }

    /// How many lines the buffer holds.
    pub fn line_count(&self) -> (n: usize)
        ensures
            n == self@.lines.len(),
    {
        self.lines.len()
    }

    /// Insert one character at the cursor.
    pub fn insert(&mut self, ch: char)
        requires
            old(self)@.wf(),
        ensures
            final(self)@ == old(self)@.insert_char(ch),
            final(self)@.wf(),
    {
        if ch == '\n' {
            let mut line = self.lines.remove(self.row);
            let tail = line.split_off(self.column);
            self.lines.insert(self.row, line);
            let len = self.lines.len();
            assert(self.row < len);
            self.lines.insert(self.row + 1, tail);
            self.row = self.row + 1;
            self.column = 0;
            proof {
                assert(self@.lines =~~= old(self)@.insert_char(ch).lines);
                assert(self@ =~= old(self)@.insert_char(ch));
                lemma_insert_char_wf(old(self)@, ch);
            }
        } else {
            let mut line = self.lines.remove(self.row);
            line.insert(self.column, ch);
            let n = line.len();
            self.lines.insert(self.row, line);
            assert(self.column < n);
            self.column = self.column + 1;
            proof {
                assert(self@.lines =~~= old(self)@.insert_char(ch).lines);
                assert(self@ =~= old(self)@.insert_char(ch));
                lemma_insert_char_wf(old(self)@, ch);
            }
        }
    }

    /// Move the cursor one step in the given direction, clamping and
    /// joining across line boundaries as the direction's rule says.
    pub fn move_cursor(&mut self, direction: Direction)
        requires
            old(self)@.wf(),
        ensures
            final(self)@ == old(self)@.move_cursor(direction),
            final(self)@.wf(),
    {
        match direction {
            Direction::Up => {
                if self.row > 0 {
                    self.row = self.row - 1;
                    let line_length = self.lines[self.row].len();
                    if self.column > line_length {
                        self.column = line_length;
                    }
                } else {
                    self.column = 0;
                }
            },
            Direction::Right => {
                let line_length = self.lines[self.row].len();
                if self.column < line_length {
                    self.column = self.column + 1;
                } else if self.row < self.lines.len() - 1 {
                    self.row = self.row + 1;
                    self.column = 0;
                }
            },
            Direction::Down => {
                if self.row < self.lines.len() - 1 {
                    self.row = self.row + 1;
                    let line_length = self.lines[self.row].len();
                    if self.column > line_length {
                        self.column = line_length;
                    }
                } else {
                    self.column = self.lines[self.row].len();
                }
            },
            Direction::Left => {
                if self.column > 0 {
                    self.column = self.column - 1;
                } else if self.row > 0 {
                    self.row = self.row - 1;
                    self.column = self.lines[self.row].len();
                }
            },
        }
        proof {
            assert(self@ =~= old(self)@.move_cursor(direction));
            lemma_move_cursor_wf(old(self)@, direction);
        }
    }

    /// Insert a whole text at the cursor, as if its characters — line
    /// breaks included — were inserted one at a time.
    pub fn insert_str(&mut self, s: &str)
        requires
            old(self)@.wf(),
        ensures
            final(self)@ == old(self)@.insert_text(s@),
            final(self)@.wf(),
    {
        let n = s.unicode_len();
        let mut i: usize = 0;
        while i < n
            invariant
                old(self)@.wf(),
                n == s@.len(),
                i <= n,
                self@ == old(self)@.insert_text(s@.take(i as int)),
                self@.wf(),
            decreases n - i,
        {
            let ch = s.get_char(i);
            self.insert(ch);
            proof {
                assert(s@.take(i as int + 1) =~= s@.take(i as int).push(s@[i as int]));
                lemma_insert_text_snoc(old(self)@, s@.take(i as int), ch);
            }
            i = i + 1;
        }
        proof {
            assert(s@.take(n as int) =~= s@);
        }
    }

    /// Delete the character just before the cursor; at the start of a
    /// line this merges the line onto the previous one, and at `(0, 0)`
    /// nothing happens.
    pub fn remove_char(&mut self)
        requires
            old(self)@.wf(),
        ensures
            final(self)@ == old(self)@.remove_char(),
            final(self)@.wf(),
    {
        if self.row == 0 && self.column == 0 {
            return;
        }
        if self.column == 0 {
            let mut current = self.lines.remove(self.row);
            let mut above = self.lines.remove(self.row - 1);
            let above_len = above.len();
            above.append(&mut current);
            self.lines.insert(self.row - 1, above);
            self.row = self.row - 1;
            self.column = above_len;
            proof {
                assert(self@.lines =~~= old(self)@.remove_char().lines);
                assert(self@ =~= old(self)@.remove_char());
                lemma_remove_char_wf(old(self)@);
            }
        } else {
            self.column = self.column - 1;
            let mut line = self.lines.remove(self.row);
            line.remove(self.column);
            self.lines.insert(self.row, line);
            proof {
                assert(self@.lines =~~= old(self)@.remove_char().lines);
                assert(self@ =~= old(self)@.remove_char());
                lemma_remove_char_wf(old(self)@);
            }
        }
    }

    /// The flat text form: all lines joined with a line break between
    /// consecutive lines, and no trailing line break.
    pub fn serialize(&self) -> (r: String)
        requires
            self@.wf(),
        ensures
            r@ == self@.serialized(),
    {
        let mut r = String::new();
        let n = self.lines.len();
        let mut i: usize = 0;
        while i < n
            invariant
                self@.wf(),
                n == self@.lines.len(),
                i <= n,
                r@ == join_lines(self@.lines.take(i as int)),
            decreases n - i,
        {
            if i > 0 {
                push_char(&mut r, '\n');
            }
            let ghost prefix = r@;
            let line = &self.lines[i];
            let m = line.len();
            let mut j: usize = 0;
            proof {
                assert(line.deep_view() =~= self@.lines[i as int]);
                assert(prefix + self@.lines[i as int].take(0) =~= prefix);
            }
            while j < m
                invariant
                    m == line@.len(),
                    j <= m,
                    line.deep_view() == self@.lines[i as int],
                    r@ == prefix + self@.lines[i as int].take(j as int),
                decreases m - j,
            {
                push_char(&mut r, line[j]);
                proof {
                    assert(self@.lines[i as int].take(j as int + 1) =~= self@.lines[
                        i as int
                    ].take(j as int).push(line@[j as int]));
                    assert(r@ =~= prefix + self@.lines[i as int].take(j as int + 1));
                }
                j = j + 1;
            }
            proof {
                assert(self@.lines[i as int].take(m as int) =~= self@.lines[i as int]);
                lemma_join_push(self@.lines.take(i as int), self@.lines[i as int]);
                assert(self@.lines.take(i as int + 1) =~= self@.lines.take(i as int).push(
                    self@.lines[i as int],
                ));
                if i > 0 {
                    assert(r@ =~= join_lines(self@.lines.take(i as int)).push('\n')
                        + self@.lines[i as int]);
                } else {
                    assert(r@ =~= self@.lines[0]);
                }
            }
            i = i + 1;
        }
        proof {
            assert(self@.lines.take(n as int) =~= self@.lines);
        }
        r
    }
}

/// Relies on `String::push`: appends the given character to the end of
/// the string.
#[verifier::external_body]
fn push_char(s: &mut String, ch: char)
    ensures
        final(s)@ == old(s)@.push(ch),
{
    s.push(ch);
}

impl Default for Backend {
    /// The same buffer `new` yields.
    fn default() -> (r: Self)
        ensures
            r@ == EditorState::init(),
            r@.wf(),
    {
        Backend::new()
    }
}

/// A read-only view over a buffer for a rendering collaborator: it hands
/// out the flat text form and nothing else.
pub struct Frontend<'a> {
    backend: &'a Backend,
}

impl<'a> Frontend<'a> {
    /// The state of the buffer this view reads.
    pub closed spec fn backend_view(self) -> EditorState {
        self.backend@
    }

    pub fn new(backend: &'a Backend) -> (r: Self)
        ensures
            r.backend_view() == backend@,
    {
        Frontend { backend }
    }

    /// The full text to paint, in its flat form.
    pub fn content(&self) -> (r: String)
        requires
            self.backend_view().wf(),
        ensures
            r@ == self.backend_view().serialized(),
    {
        self.backend.serialize()
    }
}

} // verus!
