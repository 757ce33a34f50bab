use vstd::prelude::*;

verus! {

/// The direction of a single cursor movement.
#[derive(Debug, Clone, Copy)]
pub enum Direction {
    Up,
    Right,
    Down,
    Left,
}

/// The abstract state of the text buffer: an ordered sequence of lines
/// together with the cursor position `(row, col)`.
///
/// `row` indexes a line; `col` is an offset into that line and may equal
/// the line's length (the end-of-line position).
#[verifier::ext_equal]
pub struct EditorState {
    pub lines: Seq<Seq<char>>,
    pub row: int,
    pub col: int,
}

/// The flat text form: all lines joined with a line break between
/// consecutive lines, and no trailing line break.
pub open spec fn join_lines(lines: Seq<Seq<char>>) -> Seq<char>
    decreases lines.len(),
{
    if lines.len() == 0 {
        Seq::empty()
    } else if lines.len() == 1 {
        lines[0]
    } else {
        lines[0].push('\n') + join_lines(lines.skip(1))
    }
}

impl EditorState {
    /// The invariant every operation preserves: at least one line exists,
    /// the cursor points into a live line at a valid offset, and no line
    /// contains a literal line break.
    pub open spec fn wf(self) -> bool {
        &&& self.lines.len() >= 1
        &&& 0 <= self.row < self.lines.len()
        &&& 0 <= self.col <= self.current_line().len()
        &&& forall|i: int| 0 <= i < self.lines.len() ==> !self.lines[i].contains('\n')
    }

    /// A freshly constructed buffer: a single empty line, cursor at `(0, 0)`.
    pub open spec fn init() -> EditorState {
        EditorState { lines: seq![Seq::<char>::empty()], row: 0, col: 0 }
    }

    /// The line the cursor is on.
    pub open spec fn current_line(self) -> Seq<char> {
        self.lines[self.row]
    }

    /// The cursor sits at the very end of the document: on the last line,
    /// past its last character.
    pub open spec fn at_end(self) -> bool {
        self.row == self.lines.len() - 1 && self.col == self.current_line().len()
    }

    /// The flat text form of this state's lines.
    pub open spec fn serialized(self) -> Seq<char> {
        join_lines(self.lines)
    }

    /// Inserting one character at the cursor. A line break splits the
    /// current line at the cursor and moves the cursor to the start of the
    /// new line; any other character lands at the cursor offset and the
    /// cursor advances past it.
    pub open spec fn insert_char(self, ch: char) -> EditorState {
        if ch == '\n' {
            EditorState {
                lines: self.lines.take(self.row).push(self.current_line().take(self.col)).push(
                    self.current_line().skip(self.col),
                ) + self.lines.skip(self.row + 1),
                row: self.row + 1,
                col: 0,
            }
        } else {
            EditorState {
                lines: self.lines.update(
                    self.row,
                    self.current_line().take(self.col).push(ch) + self.current_line().skip(
                        self.col,
                    ),
                ),
                row: self.row,
                col: self.col + 1,
            }
        }
    }

    /// Inserting a text is by definition inserting its characters one at a
    /// time, line breaks included.
    pub open spec fn insert_text(self, t: Seq<char>) -> EditorState
        decreases t.len(),
    {
        if t.len() == 0 {
            self
        } else {
            self.insert_char(t.first()).insert_text(t.drop_first())
        }
    }

    /// One cursor movement. Up at the first row snaps the column to 0;
    /// Down at the last row snaps it to the end of the line; Left at the
    /// start of a line joins the end of the previous line; Right at the
    /// end of a line joins the start of the next. Left at the start and
    /// Right at the end of the document do nothing.
    pub open spec fn move_cursor(self, direction: Direction) -> EditorState {
        match direction {
            Direction::Up => {
                if self.row > 0 {
                    let r = self.row - 1;
                    EditorState {
                        lines: self.lines,
                        row: r,
                        col: if self.col > self.lines[r].len() {
                            self.lines[r].len() as int
                        } else {
                            self.col
                        },
                    }
                } else {
                    EditorState { lines: self.lines, row: self.row, col: 0 }
                }
            },
            Direction::Right => {
                if self.col < self.current_line().len() {
                    EditorState { lines: self.lines, row: self.row, col: self.col + 1 }
                } else if self.row < self.lines.len() - 1 {
                    EditorState { lines: self.lines, row: self.row + 1, col: 0 }
                } else {
                    self
                }
            },
            Direction::Down => {
                if self.row < self.lines.len() - 1 {
                    let r = self.row + 1;
                    EditorState {
                        lines: self.lines,
                        row: r,
                        col: if self.col > self.lines[r].len() {
                            self.lines[r].len() as int
                        } else {
                            self.col
                        },
                    }
                } else {
                    EditorState {
                        lines: self.lines,
                        row: self.row,
                        col: self.current_line().len() as int,
                    }
                }
            },
            Direction::Left => {
                if self.col > 0 {
                    EditorState { lines: self.lines, row: self.row, col: self.col - 1 }
                } else if self.row > 0 {
                    EditorState {
                        lines: self.lines,
                        row: self.row - 1,
                        col: self.lines[self.row - 1].len() as int,
                    }
                } else {
                    self
                }
            },
        }
    }

    /// Deleting the character just before the cursor. At `(0, 0)` nothing
    /// happens; at the start of a later line the line is merged onto the
    /// previous one and the cursor lands on the join point; otherwise the
    /// character at `col - 1` disappears and the cursor steps back.
    pub open spec fn remove_char(self) -> EditorState {
        if self.row == 0 && self.col == 0 {
            self
        } else if self.col == 0 {
            EditorState {
                lines: self.lines.update(
                    self.row - 1,
                    self.lines[self.row - 1] + self.current_line(),
                ).remove(self.row),
                row: self.row - 1,
                col: self.lines[self.row - 1].len() as int,
            }
        } else {
            EditorState {
                lines: self.lines.update(self.row, self.current_line().remove(self.col - 1)),
                row: self.row,
                col: self.col - 1,
            }
        }
    }
}

/// Inserting a text character by character takes its characters in order:
/// inserting `t.push(ch)` is inserting `t`, then inserting `ch`.
pub proof fn lemma_insert_text_snoc(s: EditorState, t: Seq<char>, ch: char)
    ensures
        s.insert_text(t.push(ch)) == s.insert_text(t).insert_char(ch),
    decreases t.len(),
{
    if t.len() == 0 {
        assert(t.push(ch).first() == ch);
        assert(t.push(ch).drop_first() =~= Seq::<char>::empty());
        assert(s.insert_char(ch).insert_text(Seq::<char>::empty()) == s.insert_char(ch));
    } else {
        assert(t.push(ch).first() == t.first());
        assert(t.push(ch).drop_first() =~= t.drop_first().push(ch));
        lemma_insert_text_snoc(s.insert_char(t.first()), t.drop_first(), ch);
    }
}

/// Extending the line sequence by one line extends the flat form by a
/// line break (when any line came before) and the new line's characters.
pub proof fn lemma_join_push(l: Seq<Seq<char>>, x: Seq<char>)
    ensures
        join_lines(l.push(x)) == if l.len() == 0 {
            x
        } else {
            join_lines(l).push('\n') + x
        },
    decreases l.len(),
{
    if l.len() == 0 {
        assert(join_lines(l.push(x)) == l.push(x)[0]);
    } else if l.len() == 1 {
        assert(l.push(x).skip(1) =~= seq![x]);
        assert(join_lines(l) == l[0]);
        assert(join_lines(l.push(x)) == l.push(x)[0].push('\n') + join_lines(seq![x]));
        assert(join_lines(seq![x]) == x);
        assert(l.push(x)[0] == l[0]);
    } else {
        assert(l.push(x).skip(1) =~= l.skip(1).push(x));
        lemma_join_push(l.skip(1), x);
        assert(l.push(x)[0] == l[0]);
        assert((l[0].push('\n') + join_lines(l.skip(1))).push('\n') + x =~= l[0].push('\n') + (
        join_lines(l.skip(1)).push('\n') + x));
    }
}

/// Inserting any single character preserves the buffer invariant.
pub proof fn lemma_insert_char_wf(s: EditorState, ch: char)
    requires
        s.wf(),
    ensures
        s.insert_char(ch).wf(),
{
    let t = s.insert_char(ch);
    if ch == '\n' {
        let head = s.current_line().take(s.col);
        let tail = s.current_line().skip(s.col);
        assert(t.lines.len() == s.lines.len() + 1);
        assert(t.lines[s.row] == head);
        assert(t.lines[s.row + 1] == tail);
        assert forall|i: int| 0 <= i < t.lines.len() implies !t.lines[i].contains('\n') by {
            if i < s.row {
                assert(t.lines[i] == s.lines[i]);
            } else if i == s.row {
                assert(forall|j: int| 0 <= j < head.len() ==> head[j] == s.current_line()[j]);
            } else if i == s.row + 1 {
                assert(forall|j: int|
                    0 <= j < tail.len() ==> tail[j] == s.current_line()[j + s.col]);
            } else {
                assert(t.lines[i] == s.lines[i - 1]);
            }
        }
    } else {
        let new_line = s.current_line().take(s.col).push(ch) + s.current_line().skip(s.col);
        assert(t.lines[s.row] == new_line);
        assert(new_line.len() == s.current_line().len() + 1);
        assert forall|i: int| 0 <= i < t.lines.len() implies !t.lines[i].contains('\n') by {
            if i == s.row {
                assert(forall|j: int| 0 <= j < new_line.len() ==> new_line[j] != '\n') by {
                    assert(forall|j: int| 0 <= j < s.col ==> new_line[j] == s.current_line()[j]);
                    assert(new_line[s.col] == ch);
                    assert(forall|j: int|
                        s.col < j < new_line.len() ==> new_line[j] == s.current_line()[j - 1]);
                }
            } else {
                assert(t.lines[i] == s.lines[i]);
            }
        }
    }
}

/// Every cursor movement preserves the buffer invariant.
pub proof fn lemma_move_cursor_wf(s: EditorState, direction: Direction)
    requires
        s.wf(),
    ensures
        s.move_cursor(direction).wf(),
{
}

/// Deleting the character before the cursor preserves the buffer invariant.
pub proof fn lemma_remove_char_wf(s: EditorState)
    requires
        s.wf(),
    ensures
        s.remove_char().wf(),
{
    let t = s.remove_char();
    if s.row == 0 && s.col == 0 {
    } else if s.col == 0 {
        let merged = s.lines[s.row - 1] + s.current_line();
        assert(t.lines == s.lines.update(s.row - 1, merged).remove(s.row));
        assert(t.lines[s.row - 1] == merged);
        assert forall|i: int| 0 <= i < t.lines.len() implies !t.lines[i].contains('\n') by {
            if i < s.row - 1 {
                assert(t.lines[i] == s.lines[i]);
            } else if i == s.row - 1 {
                assert(forall|j: int| 0 <= j < merged.len() ==> merged[j] != '\n') by {
                    assert(forall|j: int|
                        0 <= j < s.lines[s.row - 1].len() ==> merged[j] == s.lines[s.row - 1][j]);
                    assert(forall|j: int|
                        s.lines[s.row - 1].len() <= j < merged.len() ==> merged[j]
                            == s.current_line()[j - s.lines[s.row - 1].len()]);
                }
            } else {
                assert(t.lines[i] == s.lines[i + 1]);
            }
        }
    } else {
        let shortened = s.current_line().remove(s.col - 1);
        assert(t.lines[s.row] == shortened);
        assert forall|i: int| 0 <= i < t.lines.len() implies !t.lines[i].contains('\n') by {
            if i == s.row {
                assert(forall|j: int| 0 <= j < shortened.len() ==> shortened[j] != '\n') by {
                    assert(forall|j: int|
                        0 <= j < s.col - 1 ==> shortened[j] == s.current_line()[j]);
                    assert(forall|j: int|
                        s.col - 1 <= j < shortened.len() ==> shortened[j]
                            == s.current_line()[j + 1]);
                }
            } else {
                assert(t.lines[i] == s.lines[i]);
            }
        }
    }
}

} // verus!
