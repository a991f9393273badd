use x5::buffer::{BufferError, TextBuffer};
use x5::cursor::Cursor;
use x5::editor::{Command, Editor, DEFAULT_HEIGHT, DEFAULT_WIDTH};
use x5::viewport::Viewport;

fn chars(s: &str) -> Vec<char> {
    s.chars().collect()
}

fn text_lines(e: &Editor) -> Vec<String> {
    e.lines().iter().map(|l| l.iter().collect()).collect()
}

fn apply_all(e: &mut Editor, cmds: &[Command]) {
    for c in cmds {
        e.apply(*c);
    }
}

fn assert_cursor_on_text(e: &Editor) {
    assert!(e.row() < e.line_count());
    assert!(e.column() <= e.line(e.row()).unwrap().len());
}

#[test]
fn typing_on_empty_buffer_builds_two_lines() {
    let mut e = Editor::from_text(&Vec::new(), 80, 24);
    apply_all(
        &mut e,
        &[Command::InsertChar('a'), Command::InsertChar('b'), Command::Newline, Command::InsertChar('c')],
    );
    assert_eq!(text_lines(&e), vec!["ab", "c"]);
    assert_eq!((e.row(), e.column()), (1, 1));
}

#[test]
fn backspace_at_end_of_line_removes_last_char() {
    let mut e = Editor::from_text(&chars("abc"), 80, 24);
    apply_all(&mut e, &[Command::MoveRight, Command::MoveRight, Command::MoveRight]);
    assert_eq!((e.row(), e.column()), (0, 3));
    e.apply(Command::Backspace);
    assert_eq!(text_lines(&e), vec!["ab"]);
    assert_eq!((e.row(), e.column()), (0, 2));
}

#[test]
fn backspace_at_line_start_joins_lines() {
    let mut e = Editor::from_text(&chars("ab\ncd"), 80, 24);
    e.apply(Command::MoveDown);
    assert_eq!((e.row(), e.column()), (1, 0));
    e.apply(Command::Backspace);
    assert_eq!(text_lines(&e), vec!["abcd"]);
    assert_eq!((e.row(), e.column()), (0, 2));
}

#[test]
fn typing_past_wrap_width_splits_line() {
    let mut e = Editor::from_text(&chars("abcde"), 5, 24);
    for _ in 0..5 {
        e.apply(Command::MoveRight);
    }
    e.apply(Command::InsertChar('f'));
    assert_eq!(text_lines(&e), vec!["abcdef", ""]);
    assert_eq!((e.row(), e.column()), (1, 0));
}

#[test]
fn wrap_moves_rest_of_line_down() {
    let mut e = Editor::from_text(&chars("xy"), 3, 24);
    apply_all(&mut e, &[Command::InsertChar('a'), Command::InsertChar('b')]);
    assert_eq!(text_lines(&e), vec!["abxy"]);
    assert_eq!((e.row(), e.column()), (0, 2));
    e.apply(Command::InsertChar('c'));
    assert_eq!(text_lines(&e), vec!["abc", "xy"]);
    assert_eq!((e.row(), e.column()), (1, 0));
}

#[test]
fn insert_then_backspace_restores_state() {
    let mut e = Editor::from_text(&chars("hello\nworld"), 80, 24);
    apply_all(&mut e, &[Command::MoveDown, Command::MoveRight, Command::MoveRight]);
    let before = e.lines();
    let cursor = (e.row(), e.column());
    e.apply(Command::InsertChar('x'));
    assert_eq!(text_lines(&e), vec!["hello", "woxrld"]);
    e.apply(Command::Backspace);
    assert_eq!(e.lines(), before);
    assert_eq!((e.row(), e.column()), cursor);
}

#[test]
fn insert_then_backspace_after_wrap_keeps_the_character() {
    let mut e = Editor::from_text(&Vec::new(), 1, 24);
    e.apply(Command::InsertChar('a'));
    assert_eq!(text_lines(&e), vec!["a", ""]);
    e.apply(Command::Backspace);
    assert_eq!(text_lines(&e), vec!["a"]);
    assert_eq!((e.row(), e.column()), (0, 1));
}

#[test]
fn render_twice_gives_same_frame() {
    let mut e = Editor::from_text(&chars("one\ntwo\nthree"), 80, 2);
    apply_all(&mut e, &[Command::MoveDown, Command::MoveDown, Command::MoveRight]);
    let a = e.render(80, 2);
    let b = e.render(80, 2);
    assert_eq!(a, b);
    assert_eq!(a.lines, vec![chars("two"), chars("three")]);
    assert_eq!((a.cursor_row, a.cursor_col), (1, 1));
}

#[test]
fn serialize_of_fresh_editor_is_input() {
    for t in ["", "a", "a\n", "\n\n", "ab\ncd\n\nef", "trailing\n"] {
        let e = Editor::from_text(&chars(t), 80, 24);
        assert_eq!(e.serialize(), chars(t));
        assert_eq!(e.char_count(), t.chars().count());
    }
    assert_eq!(text_lines(&Editor::from_text(&chars("a\n"), 80, 24)), vec!["a", ""]);
}

#[test]
fn serialize_after_edits() {
    let mut e = Editor::from_text(&chars("ab\ncd"), 80, 24);
    apply_all(&mut e, &[Command::MoveRight, Command::Newline, Command::InsertChar('z')]);
    assert_eq!(e.serialize(), chars("a\nzb\ncd"));
    assert_eq!(e.char_count(), 7);
}

#[test]
fn ensure_visible_scrolls_minimally() {
    let mut v = Viewport { scroll_offset: 0, width: 80, height: 3 };
    v.ensure_visible(5, 3);
    assert_eq!(v.scroll_offset, 3);
    v.ensure_visible(4, 3);
    assert_eq!(v.scroll_offset, 3);
    v.ensure_visible(1, 3);
    assert_eq!(v.scroll_offset, 1);
    v.ensure_visible(7, 0);
    assert_eq!(v.scroll_offset, 8);
}

#[test]
fn visible_range_stops_at_last_line() {
    let v = Viewport { scroll_offset: 2, width: 80, height: 3 };
    assert_eq!(v.visible_range(10, 3), (2, 5));
    assert_eq!(v.visible_range(4, 3), (2, 4));
    assert_eq!(v.visible_range(10, 0), (2, 2));
}

#[test]
fn cursor_stays_on_text_over_many_commands() {
    let mut e = Editor::from_text(&chars("long line here\nx\n\nmid"), 6, 2);
    let cmds = [
        Command::MoveRight,
        Command::MoveRight,
        Command::MoveRight,
        Command::MoveDown,
        Command::MoveDown,
        Command::Backspace,
        Command::Backspace,
        Command::InsertChar('q'),
        Command::MoveUp,
        Command::MoveUp,
        Command::MoveUp,
        Command::MoveLeft,
        Command::Newline,
        Command::MoveDown,
        Command::MoveDown,
        Command::MoveDown,
        Command::MoveRight,
        Command::InsertChar('r'),
        Command::InsertChar('s'),
        Command::InsertChar('t'),
        Command::InsertChar('u'),
        Command::InsertChar('v'),
        Command::InsertChar('w'),
    ];
    for c in cmds {
        e.apply(c);
        assert_cursor_on_text(&e);
        assert!(e.scroll_offset() <= e.row() && e.row() < e.scroll_offset() + e.height());
    }
}

#[test]
fn motions_at_edges_are_no_ops() {
    let mut e = Editor::from_text(&chars("ab"), 80, 24);
    apply_all(&mut e, &[Command::MoveUp, Command::MoveLeft, Command::Backspace, Command::MoveDown]);
    assert_eq!((e.row(), e.column()), (0, 0));
    assert_eq!(text_lines(&e), vec!["ab"]);
    apply_all(&mut e, &[Command::MoveRight, Command::MoveRight, Command::MoveRight]);
    assert_eq!((e.row(), e.column()), (0, 2));
}

#[test]
fn vertical_motion_clamps_column() {
    let mut e = Editor::from_text(&chars("abcdef\nxy\nlonger"), 80, 24);
    for _ in 0..5 {
        e.apply(Command::MoveRight);
    }
    e.apply(Command::MoveDown);
    assert_eq!((e.row(), e.column()), (1, 2));
    e.apply(Command::MoveDown);
    assert_eq!((e.row(), e.column()), (2, 2));
    e.apply(Command::MoveUp);
    e.apply(Command::MoveUp);
    assert_eq!((e.row(), e.column()), (0, 2));
}

#[test]
fn newline_char_acts_as_newline() {
    let mut e = Editor::from_text(&chars("ab"), 80, 24);
    apply_all(&mut e, &[Command::MoveRight, Command::InsertChar('\n')]);
    assert_eq!(text_lines(&e), vec!["a", "b"]);
    assert_eq!((e.row(), e.column()), (1, 0));
}

#[test]
fn run_stops_at_quit() {
    let mut e = Editor::new();
    assert_eq!((e.width(), e.height()), (DEFAULT_WIDTH, DEFAULT_HEIGHT));
    let cmds = vec![Command::InsertChar('h'), Command::InsertChar('i'), Command::Quit, Command::InsertChar('!')];
    assert_eq!(e.run(&cmds), 3);
    assert!(e.should_quit());
    assert_eq!(e.serialize(), chars("hi"));
    let mut f = Editor::new();
    assert_eq!(f.run(&vec![Command::InsertChar('a'), Command::MoveLeft]), 2);
    assert!(!f.should_quit());
    assert_eq!(f.column(), 0);
}

#[test]
fn scrolling_follows_cursor_down_and_up() {
    let text: String = (0..30).map(|i| format!("line{}", i)).collect::<Vec<_>>().join("\n");
    let mut e = Editor::from_text(&chars(&text), 80, 10);
    for _ in 0..15 {
        e.apply(Command::MoveDown);
    }
    assert_eq!(e.scroll_offset(), 6);
    let f = e.render(3, 10);
    assert_eq!(f.lines.len(), 10);
    assert_eq!(f.lines[0], chars("lin"));
    assert_eq!((f.cursor_row, f.cursor_col), (9, 0));
    for _ in 0..10 {
        e.apply(Command::MoveUp);
    }
    assert_eq!(e.scroll_offset(), 5);
    assert_eq!(e.render(80, 10).cursor_row, 0);
}

#[test]
fn render_in_other_window_shows_cursor() {
    let text: String = (0..8).map(|i| i.to_string()).collect::<Vec<_>>().join("\n");
    let mut e = Editor::from_text(&chars(&text), 80, 24);
    for _ in 0..7 {
        e.apply(Command::MoveDown);
    }
    let f = e.render(80, 3);
    assert_eq!(f.lines, vec![chars("5"), chars("6"), chars("7")]);
    assert_eq!(f.cursor_row, 2);
    let g = e.render(80, 0);
    assert!(g.lines.is_empty());
    assert_eq!(g.cursor_row, 0);
}

#[test]
fn resize_rescrolls_and_changes_wrap() {
    let mut e = Editor::from_text(&chars("a\nb\nc\nd"), 80, 24);
    for _ in 0..3 {
        e.apply(Command::MoveDown);
    }
    e.resize(2, 2);
    assert_eq!(e.scroll_offset(), 2);
    e.apply(Command::InsertChar('x'));
    assert_eq!(text_lines(&e), vec!["a", "b", "c", "xd"]);
    e.apply(Command::InsertChar('y'));
    assert_eq!(text_lines(&e), vec!["a", "b", "c", "xy", "d"]);
    assert_eq!((e.row(), e.column()), (4, 0));
    assert_eq!(e.scroll_offset(), 3);
}

#[test]
fn buffer_insert_and_remove_by_offset() {
    let mut b = TextBuffer::from_text(&chars("ab\ncd"));
    assert_eq!(b.line_count(), 2);
    assert_eq!(b.insert(4, 'X'), Ok(()));
    assert_eq!(b.to_text(), chars("ab\ncXd"));
    assert_eq!(b.insert(1, '\n'), Ok(()));
    assert_eq!(b.to_text(), chars("a\nb\ncXd"));
    assert_eq!(b.line_count(), 3);
    assert_eq!(b.insert(7, 'e'), Ok(()));
    assert_eq!(b.to_text(), chars("a\nb\ncXde"));
    assert_eq!(b.insert(10, 'e'), Err(BufferError::OutOfBounds));
    assert_eq!(b.remove(2, 4), Ok(()));
    assert_eq!(b.to_text(), chars("a\ncXde"));
    assert_eq!(b.line_count(), 2);
    assert_eq!(b.remove(3, 2), Err(BufferError::OutOfBounds));
    assert_eq!(b.remove(0, 7), Err(BufferError::OutOfBounds));
    assert_eq!(b.remove(0, 6), Ok(()));
    assert_eq!(b.to_text(), Vec::<char>::new());
    assert_eq!(b.line_count(), 1);
    assert_eq!(b.char_count(), 0);
}

#[test]
fn buffer_line_queries() {
    let b = TextBuffer::from_text(&chars("ab\n\ncde\n"));
    assert_eq!(b.line_count(), 4);
    assert_eq!(b.char_count(), 8);
    assert_eq!(b.line(2), Ok(chars("cde")));
    assert_eq!(b.line(3), Ok(Vec::new()));
    assert_eq!(b.line(4), Err(BufferError::OutOfBounds));
    assert_eq!(b.line_to_offset(0), Ok(0));
    assert_eq!(b.line_to_offset(1), Ok(3));
    assert_eq!(b.line_to_offset(2), Ok(4));
    assert_eq!(b.line_to_offset(3), Ok(8));
    assert_eq!(b.line_to_offset(4), Err(BufferError::OutOfBounds));
    let empty = TextBuffer::new();
    assert_eq!(empty.line_count(), 1);
    assert_eq!(empty.line(0), Ok(Vec::new()));
}

#[test]
fn cursor_clamp_pulls_column_back() {
    let mut c = Cursor { row: 2, column: 9 };
    c.clamp(4);
    assert_eq!(c, Cursor { row: 2, column: 4 });
    c.clamp(7);
    assert_eq!(c.column, 4);
}
