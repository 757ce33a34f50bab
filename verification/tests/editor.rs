use editor::Backend;
use editor::Direction;
use editor::Frontend;

#[test]
fn insert() {
    let mut editor = Backend::new();
    let text = "Hello\nWorld!";

    for ch in text.chars() {
        editor.insert(ch);
    }

    assert_eq!(editor.serialize(), text);
}

#[test]
fn insert_str() {
    let mut editor = Backend::new();
    let text = "Hello World!";

    editor.insert_str(text);

    assert_eq!(editor.serialize(), text);
}

#[test]
fn insert_str_with_newline() {
    let mut editor = Backend::new();
    let text = "Hello\nwonderful\nWorld!";

    editor.insert_str(text);

    assert!(editor.line_count() == 3);
    assert_eq!(editor.serialize(), text);
}

#[test]
fn check_movement() {
    let editor = &mut Backend::new();
    let text = "Short Line\n===Long Line===\n===Long Line==";

    editor.insert_str(text);
    move_and_check(editor, Direction::Up, (1, 14));
    // This should not only move us up, but also to the end of the line
    move_and_check(editor, Direction::Up, (0, 10));
    // If we go right, we end up at the start of the next line
    move_and_check(editor, Direction::Right, (1, 0));
    // And we go back
    move_and_check(editor, Direction::Left, (0, 10));
    // Going up moves us to the start of the line
    move_and_check(editor, Direction::Up, (0, 0));
    // Going left should do nothing
    move_and_check(editor, Direction::Left, (0, 0));
    // Now we go down two
    move_and_check(editor, Direction::Down, (1, 0));
    move_and_check(editor, Direction::Down, (2, 0));
    // And going down should bring us to the end again
    move_and_check(editor, Direction::Down, (2, 14));
    // Going right should do nothing
    move_and_check(editor, Direction::Right, (2, 14));
}

fn move_and_check(editor: &mut Backend, direction: Direction, position: (usize, usize)) {
    editor.move_cursor(direction);
    assert_eq!(editor.position(), position);
}

#[test]
fn remove_char() {
    let mut editor = Backend::new();

    // We insert the text, putting our cursor at the end.
    editor.insert_str("Hello\nWorld!");
    editor.remove_char();
    // This should have removed the exclamation mark.
    assert_eq!(editor.serialize(), "Hello\nWorld");
    editor.move_cursor(Direction::Up);
    editor.move_cursor(Direction::Right);
    editor.remove_char();
    // We moved to the start of 'World' and removed a character, making the entire text one line.
    assert_eq!(editor.serialize(), "HelloWorld");
    editor.move_cursor(Direction::Up);
    editor.remove_char();
    // We moved to the start of the document and tried to remove a character. Nothing should have happened.
    assert_eq!(editor.serialize(), "HelloWorld");
}

#[test]
fn insert_single_line_char_by_char() {
    let mut editor = Backend::new();
    let text = "Hello World!";

    for ch in text.chars() {
        editor.insert(ch);
    }

    assert_eq!(editor.serialize(), text);
}

#[test]
fn new_buffer_is_one_empty_line() {
    let editor = Backend::new();

    assert_eq!(editor.serialize(), "");
    assert_eq!(editor.position(), (0, 0));
    assert_eq!(editor.line_count(), 1);
}

#[test]
fn insert_newline_splits_line() {
    let mut editor = Backend::new();
    editor.insert_str("abcd");
    editor.move_cursor(Direction::Left);
    editor.move_cursor(Direction::Left);

    editor.insert('\n');

    assert_eq!(editor.serialize(), "ab\ncd");
    assert_eq!(editor.line_count(), 2);
    assert_eq!(editor.position(), (1, 0));
}

#[test]
fn insert_str_equals_insert_char_by_char() {
    let text = "one\ntwo three\n\nfour";

    let mut whole = Backend::new();
    whole.insert_str(text);

    let mut stepwise = Backend::new();
    for ch in text.chars() {
        stepwise.insert(ch);
    }

    assert_eq!(whole.serialize(), stepwise.serialize());
    assert_eq!(whole.position(), stepwise.position());
    assert_eq!(whole.line_count(), stepwise.line_count());
}

#[test]
fn guards_do_nothing() {
    let mut editor = Backend::new();
    editor.move_cursor(Direction::Left);
    assert_eq!(editor.position(), (0, 0));
    editor.remove_char();
    assert_eq!(editor.serialize(), "");
    assert_eq!(editor.position(), (0, 0));

    let mut editor = Backend::new();
    editor.insert_str("ab");
    editor.move_cursor(Direction::Right);
    assert_eq!(editor.position(), (0, 2));
    assert_eq!(editor.serialize(), "ab");
}

#[test]
fn remove_char_lands_on_join_point() {
    let mut editor = Backend::new();
    editor.insert_str("ab\ncd");
    editor.move_cursor(Direction::Up);
    editor.move_cursor(Direction::Right);
    assert_eq!(editor.position(), (1, 0));

    editor.remove_char();

    assert_eq!(editor.serialize(), "abcd");
    assert_eq!(editor.position(), (0, 2));
}

#[test]
fn remove_char_steps_back_one_column() {
    let mut editor = Backend::new();
    editor.insert_str("abc");
    editor.move_cursor(Direction::Left);

    editor.remove_char();

    assert_eq!(editor.serialize(), "ac");
    assert_eq!(editor.position(), (0, 1));
}

#[test]
fn insert_str_into_middle_of_line() {
    let mut editor = Backend::new();
    editor.insert_str("helloworld");
    for _ in 0..5 {
        editor.move_cursor(Direction::Left);
    }
    assert_eq!(editor.position(), (0, 5));

    editor.insert_str(", ");

    assert_eq!(editor.serialize(), "hello, world");
    assert_eq!(editor.position(), (0, 7));
}

#[test]
fn insert_str_with_newline_mid_line_splits() {
    let mut editor = Backend::new();
    editor.insert_str("aabb");
    editor.move_cursor(Direction::Left);
    editor.move_cursor(Direction::Left);

    editor.insert_str("x\ny");

    assert_eq!(editor.serialize(), "aax\nybb");
    assert_eq!(editor.line_count(), 2);
    assert_eq!(editor.position(), (1, 1));
}

#[test]
fn frontend_reads_content() {
    let mut editor = Backend::new();
    editor.insert_str("Hello\nWorld");

    let frontend = Frontend::new(&editor);

    assert_eq!(frontend.content(), "Hello\nWorld");
}

#[test]
fn default_is_new() {
    let editor = Backend::default();

    assert_eq!(editor.serialize(), "");
    assert_eq!(editor.position(), (0, 0));
    assert_eq!(editor.line_count(), 1);
}
