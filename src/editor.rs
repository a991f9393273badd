//! The editing engine: a document, a cursor and a viewport, moved from state
//! to state by commands and projected onto frames.
use vstd::prelude::*;

use crate::buffer::{lines_of, TextBuffer};
use crate::cursor::Cursor;
use crate::text::{
    join_at, joined, lemma_join_at, lemma_join_split, lemma_line_end, lemma_split_at,
    lemma_terminated_len, lines_wf, split_at, split_lines,
};
use crate::viewport::{scrolled, Viewport};

verus! {

/// The width of a new editor's window, which is also its line-width limit.
pub const DEFAULT_WIDTH: usize = 80;

/// The height of a new editor's window.
pub const DEFAULT_HEIGHT: usize = 24;

/// A decoded user command.
#[derive(Debug, Clone, Copy, PartialEq, Eq, Structural)]
pub enum Command {
    MoveUp,
    MoveDown,
    MoveLeft,
    MoveRight,
    InsertChar(char),
    Newline,
    Backspace,
    Quit,
}

/// What an editor is: its lines, cursor, first visible row, window size
/// (the width is also the line-width limit), and whether it was told to quit.
pub struct EditorView {
    pub lines: Seq<Seq<char>>,
    pub row: int,
    pub col: int,
    pub scroll: int,
    pub width: int,
    pub height: int,
    pub quit: bool,
}

/// The cursor stands on a line, at most one past its last character.
pub open spec fn view_wf(v: EditorView) -> bool {
    &&& lines_wf(v.lines)
    &&& 0 <= v.row < v.lines.len()
    &&& 0 <= v.col <= v.lines[v.row].len()
}

pub open spec fn lesser(a: int, b: int) -> int {
    if a < b {
        a
    } else {
        b
    }
}

/// The current line cut at the cursor, the cursor at the start of the new line.
pub open spec fn broken(v: EditorView) -> EditorView {
    EditorView { lines: split_at(v.lines, v.row, v.col), row: v.row + 1, col: 0, ..v }
}

/// `c` typed at the cursor; the line is cut after it when the cursor reaches
/// the line-width limit.
pub open spec fn typed(v: EditorView, c: char) -> EditorView {
    let t = EditorView {
        lines: v.lines.update(v.row, v.lines[v.row].insert(v.col, c)),
        col: v.col + 1,
        ..v
    };
    if t.col >= t.width {
        broken(t)
    } else {
        t
    }
}

/// The character before the cursor erased, or the line joined to the one
/// above when the cursor is at the start of a line.
pub open spec fn erased(v: EditorView) -> EditorView {
    if v.col > 0 {
        EditorView {
            lines: v.lines.update(v.row, v.lines[v.row].remove(v.col - 1)),
            col: v.col - 1,
            ..v
        }
    } else if v.row > 0 {
        EditorView {
            lines: join_at(v.lines, v.row - 1),
            row: v.row - 1,
            col: v.lines[v.row - 1].len() as int,
            ..v
        }
    } else {
        v
    }
}

/// What a command does to the document and the cursor.
pub open spec fn edit(v: EditorView, cmd: Command) -> EditorView {
    match cmd {
        Command::MoveUp => if v.row > 0 {
            EditorView { row: v.row - 1, col: lesser(v.col, v.lines[v.row - 1].len() as int), ..v }
        } else {
            v
        },
        Command::MoveDown => if v.row + 1 < v.lines.len() {
            EditorView { row: v.row + 1, col: lesser(v.col, v.lines[v.row + 1].len() as int), ..v }
        } else {
            v
        },
        Command::MoveLeft => if v.col > 0 {
            EditorView { col: v.col - 1, ..v }
        } else {
            v
        },
        Command::MoveRight => if v.col < v.lines[v.row].len() {
            EditorView { col: v.col + 1, ..v }
        } else {
            v
        },
        Command::InsertChar(c) => if c == '\n' {
            broken(v)
        } else {
            typed(v, c)
        },
        Command::Newline => broken(v),
        Command::Backspace => erased(v),
        Command::Quit => EditorView { quit: true, ..v },
    }
}

/// A command, followed by the least scroll that shows the cursor.
pub open spec fn step(v: EditorView, cmd: Command) -> EditorView {
    let e = edit(v, cmd);
    EditorView { scroll: scrolled(e.scroll, e.row, e.height), ..e }
}

/// Commands applied in order until one of them quits.
pub open spec fn steps(v: EditorView, cmds: Seq<Command>) -> EditorView
    decreases cmds.len(),
{
    if cmds.len() == 0 || v.quit {
        v
    } else {
        steps(step(v, cmds[0]), cmds.drop_first())
    }
}

/// A fresh editor on `text`.
pub open spec fn opened(text: Seq<char>, width: int, height: int) -> EditorView {
    EditorView {
        lines: split_lines(text),
        row: 0,
        col: 0,
        scroll: 0,
        width,
        height,
        quit: false,
    }
}

/// The first row that a window of `height` rows shows: the scroll offset,
/// moved the least that shows the cursor.
pub open spec fn first_shown(v: EditorView, height: int) -> int {
    if height == 0 {
        v.row
    } else {
        scrolled(v.scroll, v.row, height)
    }
}

/// One past the last row that a window of `height` rows shows.
pub open spec fn end_shown(v: EditorView, height: int) -> int {
    let f = first_shown(v, height);
    if f + height < v.lines.len() {
        f + height
    } else {
        v.lines.len() as int
    }
}

/// At most the first `width` characters of a line.
pub open spec fn clipped(l: Seq<char>, width: int) -> Seq<char> {
    if l.len() <= width {
        l
    } else {
        l.take(width)
    }
}

/// What a frame is: the screen lines, top to bottom, and the cursor's cell.
pub struct FrameView {
    pub lines: Seq<Seq<char>>,
    pub cursor_row: int,
    pub cursor_col: int,
}

/// The frame that an editor shows in a window of `width` by `height` cells.
pub open spec fn frame_of(v: EditorView, width: int, height: int) -> FrameView {
    let f = first_shown(v, height);
    FrameView {
        lines: Seq::new(
            (end_shown(v, height) - f) as nat,
            |i: int| clipped(v.lines[f + i], width),
        ),
        cursor_row: v.row - f,
        cursor_col: v.col,
    }
}

/// One drawing of the editor: the lines to print from the top of the
/// window, and where the cursor goes.
#[derive(Debug, Clone, PartialEq, Eq)]
pub struct Frame {
    pub lines: Vec<Vec<char>>,
    pub cursor_row: usize,
    pub cursor_col: usize,
}

impl View for Frame {
    type V = FrameView;

    open spec fn view(&self) -> FrameView {
        FrameView {
            lines: lines_of(self.lines@),
            cursor_row: self.cursor_row as int,
            cursor_col: self.cursor_col as int,
        }
    }
}

pub struct Editor {
    buffer: TextBuffer,
    cursor: Cursor,
    viewport: Viewport,
    should_quit: bool,
}

impl View for Editor {
    type V = EditorView;

    closed spec fn view(&self) -> EditorView {
        EditorView {
            lines: self.buffer@,
            row: self.cursor.row as int,
            col: self.cursor.column as int,
            scroll: self.viewport.scroll_offset as int,
            width: self.viewport.width as int,
            height: self.viewport.height as int,
            quit: self.should_quit,
        }
    }
}

impl Editor {
    pub closed spec fn wf(&self) -> bool {
        self.buffer.wf() && view_wf(self@)
    }

    /// The length of the flat text.
    pub open spec fn text_len(&self) -> int {
        joined(self@.lines).len() as int
    }

    proof fn lemma_sizes(&self)
        requires
            self.wf(),
        ensures
            self@.lines.len() <= self.text_len() + 1,
            self@.lines[self@.row].len() <= self.text_len(),
    {
        lemma_terminated_len(self@.lines);
        lemma_line_end(self@.lines, self@.row);
    }

    /// An empty document in a window of the default size.
    pub fn new() -> (r: Editor)
        ensures
            r.wf(),
            view_wf(r@),
            r@ == opened(Seq::empty(), DEFAULT_WIDTH as int, DEFAULT_HEIGHT as int),
    {
        let r = Editor {
            buffer: TextBuffer::new(),
            cursor: Cursor { row: 0, column: 0 },
            viewport: Viewport { scroll_offset: 0, width: DEFAULT_WIDTH, height: DEFAULT_HEIGHT },
            should_quit: false,
        };
        proof {
            lemma_join_split(Seq::<char>::empty());
            assert(split_lines(Seq::<char>::empty()) =~= seq![Seq::<char>::empty()]);
        }
        r
    }

    /// The document whose flat text is `text`, in a window of `width` by
    /// `height` cells, with the cursor at its start.
    pub fn from_text(text: &Vec<char>, width: usize, height: usize) -> (r: Editor)
        ensures
            r.wf(),
            view_wf(r@),
            r@ == opened(text@, width as int, height as int),
    {
        let r = Editor {
            buffer: TextBuffer::from_text(text),
            cursor: Cursor { row: 0, column: 0 },
            viewport: Viewport { scroll_offset: 0, width, height },
            should_quit: false,
        };
        r
    }

    /// Scrolls the least amount that shows the cursor's row.
    fn scroll_to_cursor(&mut self)
        requires
            old(self).wf(),
        ensures
            final(self).wf(),
            final(self)@ == (EditorView {
                scroll: scrolled(old(self)@.scroll, old(self)@.row, old(self)@.height),
                ..old(self)@
            }),
    {
        // the row lies below the line count, which a usize holds
        let n = self.buffer.line_count();
        assert(self.cursor.row < n);
        let h = self.viewport.height;
        self.viewport.ensure_visible(self.cursor.row, h);
    }

    pub fn move_up(&mut self)
        requires
            old(self).wf(),
        ensures
            final(self).wf(),
            final(self)@ == step(old(self)@, Command::MoveUp),
    {
        if self.cursor.row > 0 {
            self.cursor.row = self.cursor.row - 1;
            let len = self.buffer.line_len(self.cursor.row);
            self.cursor.clamp(len);
        }
        self.scroll_to_cursor();
    }

    pub fn move_down(&mut self)
        requires
            old(self).wf(),
        ensures
            final(self).wf(),
            final(self)@ == step(old(self)@, Command::MoveDown),
    {
        let n = self.buffer.line_count();
        if self.cursor.row < n - 1 {
            self.cursor.row = self.cursor.row + 1;
            let len = self.buffer.line_len(self.cursor.row);
            self.cursor.clamp(len);
        }
        self.scroll_to_cursor();
    }

    pub fn move_left(&mut self)
        requires
            old(self).wf(),
        ensures
            final(self).wf(),
            final(self)@ == step(old(self)@, Command::MoveLeft),
    {
        if self.cursor.column > 0 {
            self.cursor.column = self.cursor.column - 1;
        }
        self.scroll_to_cursor();
    }

    pub fn move_right(&mut self)
        requires
            old(self).wf(),
        ensures
            final(self).wf(),
            final(self)@ == step(old(self)@, Command::MoveRight),
    {
        if self.cursor.column < self.buffer.line_len(self.cursor.row) {
            self.cursor.column = self.cursor.column + 1;
        }
        self.scroll_to_cursor();
    }

    /// Cuts the current line at the cursor and moves to the new line.
    pub fn newline(&mut self)
        requires
            old(self).wf(),
            old(self).text_len() + 1 <= usize::MAX,
        ensures
            final(self).wf(),
            final(self)@ == step(old(self)@, Command::Newline),
            final(self).text_len() == old(self).text_len() + 1,
    {
        proof {
            self.lemma_sizes();
            lemma_split_at(self@.lines, self@.row, self@.col);
        }
        let row = self.cursor.row;
        self.buffer.split_line(row, self.cursor.column);
        self.cursor.row = row + 1;
        self.cursor.column = 0;
        proof {
            lemma_line_end(old(self)@.lines, row as int);
        }
        self.scroll_to_cursor();
    }
    /// Types `c` at the cursor; a newline character cuts the line instead.
    /// When the cursor reaches the line-width limit the line is cut after `c`.
    pub fn insert_char(&mut self, c: char)
        requires
            old(self).wf(),
            old(self).text_len() + 2 <= usize::MAX,
        ensures
            final(self).wf(),
            final(self)@ == step(old(self)@, Command::InsertChar(c)),
            final(self).text_len() <= old(self).text_len() + 2,
    {
        if c == '\n' {
            self.newline();
            return;
        }
        let ghost v = self@;
        proof {
            self.lemma_sizes();
            lemma_line_end(v.lines, v.row);
        }
        let row = self.cursor.row;
        let col = self.cursor.column;
        self.buffer.insert_in_line(row, col, c);
        assert(self.text_len() == joined(v.lines).len() + 1);
        self.cursor.column = col + 1;
        if self.cursor.column >= self.viewport.width {
            proof {
                self.lemma_sizes();
                lemma_split_at(self@.lines, self@.row, self@.col);
                lemma_line_end(self@.lines, row as int);
            }
            self.buffer.split_line(row, col + 1);
            self.cursor.row = row + 1;
            self.cursor.column = 0;
        }
        assert(self@ == edit(v, Command::InsertChar(c)));
        self.scroll_to_cursor();
    }

    /// Erases the character before the cursor, or joins the current line to
    /// the one above when the cursor is at the start of a line.
    pub fn backspace(&mut self)
        requires
            old(self).wf(),
        ensures
            final(self).wf(),
            final(self)@ == step(old(self)@, Command::Backspace),
            final(self).text_len() <= old(self).text_len(),
    {
        let ghost v = self@;
        let row = self.cursor.row;
        let col = self.cursor.column;
        proof {
            lemma_line_end(v.lines, v.row);
        }
        if col > 0 {
            self.buffer.remove_in_line(row, col - 1);
            self.cursor.column = col - 1;
        } else if row > 0 {
            let above = self.buffer.line_len(row - 1);
            proof {
                lemma_join_at(self@.lines, row - 1);
                lemma_line_end(v.lines, row - 1);
            }
            self.buffer.join_with_next(row - 1);
            self.cursor.row = row - 1;
            self.cursor.column = above;
        }
        assert(self@ == edit(v, Command::Backspace));
        self.scroll_to_cursor();
    }

    /// Marks the session as over.
    pub fn quit(&mut self)
        requires
            old(self).wf(),
        ensures
            final(self).wf(),
            final(self)@ == step(old(self)@, Command::Quit),
    {
        self.should_quit = true;
        self.scroll_to_cursor();
    }

    /// Carries out one command. Motions past an edge and a backspace at the
    /// start of the document change nothing.
    pub fn apply(&mut self, cmd: Command)
        requires
            old(self).wf(),
            old(self).text_len() + 2 <= usize::MAX,
        ensures
            final(self).wf(),
            final(self)@ == step(old(self)@, cmd),
            view_wf(final(self)@),
            final(self).text_len() <= old(self).text_len() + 2,
    {
        match cmd {
            Command::MoveUp => self.move_up(),
            Command::MoveDown => self.move_down(),
            Command::MoveLeft => self.move_left(),
            Command::MoveRight => self.move_right(),
            Command::InsertChar(c) => self.insert_char(c),
            Command::Newline => self.newline(),
            Command::Backspace => self.backspace(),
            Command::Quit => self.quit(),
        }
    }

    /// Carries out `cmds` in order, stopping once a command has quit; returns
    /// how many were carried out.
    pub fn run(&mut self, cmds: &Vec<Command>) -> (n: usize)
        requires
            old(self).wf(),
            old(self).text_len() + 2 * cmds@.len() <= usize::MAX,
        ensures
            final(self).wf(),
            final(self)@ == steps(old(self)@, cmds@),
            view_wf(final(self)@),
            n <= cmds@.len(),
    {
        let mut i: usize = 0;
        assert(cmds@.skip(0) =~= cmds@);
        while i < cmds.len()
            invariant
                self.wf(),
                i <= cmds@.len(),
                self.text_len() + 2 * (cmds@.len() - i) <= usize::MAX,
                steps(old(self)@, cmds@) == steps(self@, cmds@.skip(i as int)),
            ensures
                self.wf(),
                steps(old(self)@, cmds@) == steps(self@, cmds@.skip(i as int)),
                i <= cmds@.len(),
                i == cmds@.len() || self@.quit,
            decreases cmds@.len() - i,
        {
            if self.should_quit {
                break;
            }
            let ghost before = self@;
            self.apply(cmds[i]);
            assert(cmds@.skip(i as int).drop_first() =~= cmds@.skip(i as int + 1));
            i += 1;
        }
        assert(i == cmds@.len() ==> cmds@.skip(i as int).len() == 0);
        assert(steps(self@, cmds@.skip(i as int)) == self@);
        i
    }
    /// Takes a new window size; the width is the new line-width limit.
    pub fn resize(&mut self, width: usize, height: usize)
        requires
            old(self).wf(),
        ensures
            final(self).wf(),
            final(self)@ == (EditorView {
                width: width as int,
                height: height as int,
                scroll: scrolled(old(self)@.scroll, old(self)@.row, height as int),
                ..old(self)@
            }),
    {
        self.viewport.width = width;
        self.viewport.height = height;
        self.scroll_to_cursor();
    }

    /// The frame for a window of `width` by `height` cells. The state is
    /// left as it is.
    pub fn render(&self, width: usize, height: usize) -> (r: Frame)
        requires
            self.wf(),
        ensures
            r@ == frame_of(self@, width as int, height as int),
    {
        let ghost v = self@;
        let row = self.cursor.row;
        let n = self.buffer.line_count();
        let mut vp = self.viewport;
        if height == 0 {
            vp.scroll_offset = row;
        } else {
            vp.ensure_visible(row, height);
        }
        let (first, end) = vp.visible_range(n, height);
        let ghost want = frame_of(v, width as int, height as int).lines;
        let mut lines: Vec<Vec<char>> = Vec::new();
        let mut i: usize = first;
        while i < end
            invariant
                first <= i <= end,
                end <= n,
                n == v.lines.len(),
                self@ == v,
                want.len() == end - first,
                lines_of(lines@) == want.take(i - first),
                forall|k: int| 0 <= k < want.len() ==> #[trigger] want[k] == clipped(v.lines[first + k], width as int),
            decreases end - i,
        {
            let mut l = match self.buffer.line(i) {
                Ok(l) => l,
                Err(_) => Vec::new(),
            };
            l.truncate(width);
            assert(l@ =~= clipped(v.lines[i as int], width as int));
            assert(want[i - first] == clipped(v.lines[first + (i - first)], width as int));
            let ghost prior = lines_of(lines@);
            lines.push(l);
            assert(lines_of(lines@) =~= prior.push(l@));
            i += 1;
            assert(lines_of(lines@) =~= want.take(i - first));
        }
        assert(want.take(end - first) =~= want);
        Frame { lines, cursor_row: row - first, cursor_col: self.cursor.column }
    }

    /// The flat text of the document, for writing out.
    pub fn serialize(&self) -> (r: Vec<char>)
        requires
            self.wf(),
        ensures
            r@ == joined(self@.lines),
    {
        self.buffer.to_text()
    }

    /// Every line of the document.
    pub fn lines(&self) -> (r: Vec<Vec<char>>)
        requires
            self.wf(),
        ensures
            lines_of(r@) == self@.lines,
    {
        let n = self.buffer.line_count();
        let mut out: Vec<Vec<char>> = Vec::new();
        let mut i: usize = 0;
        while i < n
            invariant
                i <= n,
                n == self@.lines.len(),
                lines_of(out@) == self@.lines.take(i as int),
            decreases n - i,
        {
            let l = match self.buffer.line(i) {
                Ok(l) => l,
                Err(_) => Vec::new(),
            };
            let ghost prior = lines_of(out@);
            out.push(l);
            assert(lines_of(out@) =~= prior.push(l@));
            i += 1;
            assert(lines_of(out@) =~= self@.lines.take(i as int));
        }
        assert(self@.lines.take(n as int) =~= self@.lines);
        out
    }

    /// Line `index` of the document, if there is one.
    pub fn line(&self, index: usize) -> (r: Option<Vec<char>>)
        ensures
            index < self@.lines.len() <==> r is Some,
            r matches Some(l) ==> l@ == self@.lines[index as int],
    {
        match self.buffer.line(index) {
            Ok(l) => Some(l),
            Err(_) => None,
        }
    }

    pub fn line_count(&self) -> (r: usize)
        ensures
            r == self@.lines.len(),
    {
        self.buffer.line_count()
    }

    pub fn char_count(&self) -> (r: usize)
        requires
            self.wf(),
        ensures
            r == self.text_len(),
    {
        self.buffer.char_count()
    }

    pub fn row(&self) -> (r: usize)
        ensures
            r == self@.row,
    {
        self.cursor.row
    }

    pub fn column(&self) -> (r: usize)
        ensures
            r == self@.col,
    {
        self.cursor.column
    }

    pub fn scroll_offset(&self) -> (r: usize)
        ensures
            r == self@.scroll,
    {
        self.viewport.scroll_offset
    }

    pub fn width(&self) -> (r: usize)
        ensures
            r == self@.width,
    {
        self.viewport.width
    }

    pub fn height(&self) -> (r: usize)
        ensures
            r == self@.height,
    {
        self.viewport.height
    }

    pub fn should_quit(&self) -> (r: bool)
        ensures
            r == self@.quit,
    {
        self.should_quit
    }
}

} // verus!
