use vstd::prelude::*;

use crate::state::Direction;
use crate::state::EditorState;
use crate::state::join_lines;
use crate::state::lemma_insert_char_wf;
use crate::state::lemma_join_push;

verus! {

/// With the cursor at the end of the document, inserting one character
/// appends exactly that character to the flat form and leaves the cursor
/// at the end again.
proof fn lemma_insert_char_at_end(s: EditorState, ch: char)
    requires
        s.wf(),
        s.at_end(),
    ensures
        s.insert_char(ch).wf(),
        s.insert_char(ch).at_end(),
        s.insert_char(ch).serialized() == s.serialized().push(ch),
{
    lemma_insert_char_wf(s, ch);
    let t = s.insert_char(ch);
    let line = s.current_line();
    if ch == '\n' {
        assert(line.take(s.col) =~= line);
        assert(line.skip(s.col) =~= Seq::<char>::empty());
        assert(s.lines.take(s.row) =~= s.lines.drop_last());
        assert(s.lines.skip(s.row + 1) =~= Seq::<Seq<char>>::empty());
        assert(t.lines =~= s.lines.push(Seq::<char>::empty()));
        lemma_join_push(s.lines, Seq::<char>::empty());
        assert(join_lines(s.lines).push('\n') + Seq::<char>::empty() =~= join_lines(
            s.lines,
        ).push('\n'));
    } else {
        assert(line.take(s.col) =~= line);
        assert(line.skip(s.col) =~= Seq::<char>::empty());
        assert(line.take(s.col).push(ch) + line.skip(s.col) =~= line.push(ch));
        assert(t.lines =~= s.lines.drop_last().push(line.push(ch)));
        assert(s.lines =~= s.lines.drop_last().push(line));
        lemma_join_push(s.lines.drop_last(), line.push(ch));
        lemma_join_push(s.lines.drop_last(), line);
        if s.lines.len() > 1 {
            assert((join_lines(s.lines.drop_last()).push('\n') + line).push(ch) =~= join_lines(
                s.lines.drop_last(),
            ).push('\n') + line.push(ch));
        }
    }
}

/// With the cursor at the end of the document, inserting a text appends
/// exactly that text to the flat form and leaves the cursor at the end.
proof fn lemma_insert_text_at_end(s: EditorState, t: Seq<char>)
    requires
        s.wf(),
        s.at_end(),
    ensures
        s.insert_text(t).wf(),
        s.insert_text(t).at_end(),
        s.insert_text(t).serialized() == s.serialized() + t,
    decreases t.len(),
{
    if t.len() == 0 {
        assert(s.serialized() + t =~= s.serialized());
    } else {
        lemma_insert_char_at_end(s, t.first());
        lemma_insert_text_at_end(s.insert_char(t.first()), t.drop_first());
        assert(s.serialized().push(t.first()) + t.drop_first() =~= s.serialized() + t);
    }
}

/// Round trip: inserting any text into a fresh buffer and serializing
/// gives back exactly that text.
pub proof fn lemma_round_trip(t: Seq<char>)
    ensures
        EditorState::init().insert_text(t).serialized() == t,
{
    let s = EditorState::init();
    assert(s.serialized() == Seq::<char>::empty());
    lemma_insert_text_at_end(s, t);
    assert(Seq::<char>::empty() + t =~= t);
}

/// Inserting a text is exactly inserting its characters one at a time,
/// line breaks included: the empty text does nothing, and a nonempty text
/// is its first character inserted, then the rest of the text.
pub proof fn lemma_insert_text_char_by_char(s: EditorState, t: Seq<char>)
    ensures
        t.len() == 0 ==> s.insert_text(t) == s,
        t.len() > 0 ==> s.insert_text(t) == s.insert_char(t.first()).insert_text(t.drop_first()),
{
}

/// The guards are no-ops: moving left at the start of the document,
/// deleting at the start of the document, and moving right at the end of
/// the document each leave the state unchanged.
pub proof fn lemma_guard_no_ops(s: EditorState)
    requires
        s.wf(),
    ensures
        s.row == 0 && s.col == 0 ==> s.move_cursor(Direction::Left) == s,
        s.row == 0 && s.col == 0 ==> s.remove_char() == s,
        s.at_end() ==> s.move_cursor(Direction::Right) == s,
{
}

} // verus!
