//! What holds of every editor state and every command.
use vstd::prelude::*;

use crate::editor::{
    broken, edit, end_shown, first_shown, frame_of, opened, step, steps, view_wf, Command,
    EditorView, FrameView,
};
use crate::text::{
    joined, lemma_insert_in_line, lemma_join_at, lemma_join_split, lemma_remove_in_line,
    lemma_split_at,
};
use crate::viewport::lemma_scrolled_shows_row;

verus! {

proof fn lemma_broken_wf(v: EditorView)
    requires
        view_wf(v),
    ensures
        view_wf(broken(v)),
{
    lemma_split_at(v.lines, v.row, v.col);
}

/// Every command leaves the cursor on a line of the document, at most one
/// past that line's last character.
pub proof fn lemma_step_keeps_cursor_on_text(v: EditorView, cmd: Command)
    requires
        view_wf(v),
    ensures
        view_wf(step(v, cmd)),
{
    match cmd {
        Command::InsertChar(c) => {
            if c == '\n' {
                lemma_broken_wf(v);
            } else {
                lemma_insert_in_line(v.lines, v.row, v.col, c);
                let t = EditorView {
                    lines: v.lines.update(v.row, v.lines[v.row].insert(v.col, c)),
                    col: v.col + 1,
                    ..v
                };
                assert(view_wf(t));
                lemma_broken_wf(t);
            }
        },
        Command::Newline => {
            lemma_broken_wf(v);
        },
        Command::Backspace => {
            if v.col > 0 {
                lemma_remove_in_line(v.lines, v.row, v.col - 1);
            } else if v.row > 0 {
                lemma_join_at(v.lines, v.row - 1);
            }
        },
        _ => {},
    }
}

/// Any sequence of commands leaves the cursor on a line of the document, at
/// most one past that line's last character.
pub proof fn lemma_steps_keep_cursor_on_text(v: EditorView, cmds: Seq<Command>)
    requires
        view_wf(v),
    ensures
        view_wf(steps(v, cmds)),
    decreases cmds.len(),
{
    if cmds.len() > 0 && !v.quit {
        lemma_step_keeps_cursor_on_text(v, cmds[0]);
        lemma_steps_keep_cursor_on_text(step(v, cmds[0]), cmds.drop_first());
    }
}

/// After any command, the window shows the cursor's row whenever it has a row.
pub proof fn lemma_step_shows_cursor(v: EditorView, cmd: Command)
    requires
        v.height > 0,
    ensures
        step(v, cmd).scroll <= step(v, cmd).row < step(v, cmd).scroll + step(v, cmd).height,
{
    let e = edit(v, cmd);
    lemma_scrolled_shows_row(e.scroll, e.row, e.height);
}

/// Two frames drawn of one state in one window are the same frame.
pub proof fn lemma_render_repeats(
    v: EditorView,
    width: int,
    height: int,
    a: FrameView,
    b: FrameView,
)
    requires
        a == frame_of(v, width, height),
        b == frame_of(v, width, height),
    ensures
        a == b,
{
}

/// A frame of a window with a row holds the cursor's row.
pub proof fn lemma_frame_shows_cursor(v: EditorView, width: int, height: int)
    requires
        view_wf(v),
        height > 0,
    ensures
        0 <= frame_of(v, width, height).cursor_row < frame_of(v, width, height).lines.len(),
{
    lemma_scrolled_shows_row(v.scroll, v.row, height);
    assert(first_shown(v, height) <= v.row < end_shown(v, height));
}

/// The text written out from an editor just opened on a text is that text.
pub proof fn lemma_serialize_opened(text: Seq<char>, width: int, height: int)
    ensures
        joined(opened(text, width, height).lines) == text,
        view_wf(opened(text, width, height)),
{
    lemma_join_split(text);
}

/// Typing a character other than a newline and then erasing it restores the
/// document and the cursor, when the character does not reach the
/// line-width limit.
pub proof fn lemma_insert_then_backspace(v: EditorView, c: char)
    requires
        view_wf(v),
        c != '\n',
        v.col + 1 < v.width,
    ensures
        step(step(v, Command::InsertChar(c)), Command::Backspace).lines == v.lines,
        step(step(v, Command::InsertChar(c)), Command::Backspace).row == v.row,
        step(step(v, Command::InsertChar(c)), Command::Backspace).col == v.col,
{
    let t = step(v, Command::InsertChar(c));
    let l = v.lines[v.row];
    assert(t.lines == v.lines.update(v.row, l.insert(v.col, c)));
    assert(l.insert(v.col, c).remove(v.col) =~= l);
    assert(t.lines.update(v.row, t.lines[v.row].remove(v.col)) =~= v.lines);
}

} // verus!
