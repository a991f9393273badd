//! The document store: lines of characters, addressed either by line and
//! column or by an offset into the flat text.
use vstd::prelude::*;

use crate::text::{
    joined, join_at, line_start, lines_wf, split_at, split_lines, terminated, lemma_join_split,
    lemma_insert_in_line, lemma_join_at, lemma_remove_in_line, lemma_split_at, lemma_line_end, lemma_line_start_next, lemma_terminated_at, lemma_terminated_len,
};

verus! {

/// An offset or a line index outside the document.
#[derive(Debug, Clone, Copy, PartialEq, Eq, Structural)]
pub enum BufferError {
    OutOfBounds,
}

/// The characters of each stored line.
pub open spec fn lines_of(v: Seq<Vec<char>>) -> Seq<Seq<char>> {
    v.map_values(|l: Vec<char>| l@)
}

pub struct TextBuffer {
    lines: Vec<Vec<char>>,
    count: usize,
}

impl View for TextBuffer {
    type V = Seq<Seq<char>>;

    closed spec fn view(&self) -> Seq<Seq<char>> {
        lines_of(self.lines@)
    }
}

/// A copy of a sequence of characters.
fn copy_chars(s: &Vec<char>) -> (r: Vec<char>)
    ensures
        r@ == s@,
{
    let mut r: Vec<char> = Vec::new();
    let mut i: usize = 0;
    while i < s.len()
        invariant
            i <= s.len(),
            r@ == s@.take(i as int),
        decreases s.len() - i,
    {
        r.push(s[i]);
        i += 1;
        assert(r@ =~= s@.take(i as int));
    }
    assert(r@ =~= s@);
    r
}

impl TextBuffer {
    /// The cached character count agrees with the lines.
    pub closed spec fn count_ok(&self) -> bool {
        self.count == joined(self@).len()
    }

    pub open spec fn wf(&self) -> bool {
        lines_wf(self@) && self.count_ok()
    }

    /// The flat text of the document.
    pub open spec fn text(&self) -> Seq<char> {
        joined(self@)
    }

    /// The empty document: one empty line.
    pub fn new() -> (r: TextBuffer)
        ensures
            r.wf(),
            r@ == seq![Seq::<char>::empty()],
            r.text() == Seq::<char>::empty(),
    {
        let mut lines: Vec<Vec<char>> = Vec::new();
        lines.push(Vec::new());
        let r = TextBuffer { lines, count: 0 };
        assert(r@ =~= seq![Seq::<char>::empty()]);
        proof {
            lemma_join_split(Seq::<char>::empty());
            assert(split_lines(Seq::<char>::empty()) == r@);
        }
        r
    }

    /// The document whose flat text is `text`.
    pub fn from_text(text: &Vec<char>) -> (r: TextBuffer)
        ensures
            r.wf(),
            r@ == split_lines(text@),
            r.text() == text@,
    {
        let mut lines: Vec<Vec<char>> = Vec::new();
        let mut cur: Vec<char> = Vec::new();
        let mut i: usize = 0;
        while i < text.len()
            invariant
                i <= text.len(),
                lines_of(lines@).push(cur@) == split_lines(text@.take(i as int)),
            decreases text.len() - i,
        {
            let ch = text[i];
            let ghost before = text@.take(i as int);
            assert(text@.take(i as int + 1).drop_last() =~= before);
            if ch == '\n' {
                let done = cur;
                lines.push(done);
                cur = Vec::new();
                assert(lines_of(lines@).push(cur@) =~= split_lines(before).push(Seq::empty()));
            } else {
                cur.push(ch);
                let ghost s = split_lines(before);
                assert(lines_of(lines@).push(cur@) =~= s.update(s.len() - 1, s.last().push(ch)));
            }
            i += 1;
        }
        let ghost last = cur@;
        let ghost prior = lines_of(lines@);
        lines.push(cur);
        assert(lines_of(lines@) =~= prior.push(last));
        assert(text@.take(text.len() as int) =~= text@);
        let r = TextBuffer { lines, count: text.len() };
        proof {
            lemma_join_split(text@);
        }
        r
    }

    pub fn line_count(&self) -> (r: usize)
        ensures
            r == self@.len(),
    {
        self.lines.len()
    }

    pub fn char_count(&self) -> (r: usize)
        requires
            self.wf(),
        ensures
            r == self.text().len(),
    {
        self.count
    }

    /// The length of line `r`.
    pub fn line_len(&self, r: usize) -> (n: usize)
        requires
            r < self@.len(),
        ensures
            n == self@[r as int].len(),
    {
        self.lines[r].len()
    }

    /// The characters of line `index`, without its newline.
    pub fn line(&self, index: usize) -> (r: Result<Vec<char>, BufferError>)
        ensures
            index < self@.len() <==> r is Ok,
            r matches Ok(l) ==> l@ == self@[index as int],
    {
        if index < self.lines.len() {
            Ok(copy_chars(&self.lines[index]))
        } else {
            Err(BufferError::OutOfBounds)
        }
    }

    /// Where line `r` begins in the flat text; never past the text's end.
    fn start_of(&self, r: usize) -> (off: usize)
        requires
            self.wf(),
            r < self@.len(),
        ensures
            off == line_start(self@, r as int),
    {
        let mut off: usize = 0;
        let mut i: usize = 0;
        proof {
            lemma_line_start_next(self@, 0);
        }
        while i < r
            invariant
                self.wf(),
                r < self@.len(),
                i <= r,
                off == line_start(self@, i as int),
            decreases r - i,
        {
            proof {
                lemma_line_start_next(self@, i as int);
                lemma_line_end(self@, r as int);
                lemma_line_start_next(self@, r as int);
                lemma_line_starts_grow(self@, i as int + 1, r as int);
                lemma_terminated_len(self@);
            }
            off = off + self.lines[i].len() + 1;
            i += 1;
        }
        off
    }

    /// Where line `index` begins in the flat text.
    pub fn line_to_offset(&self, index: usize) -> (r: Result<usize, BufferError>)
        requires
            self.wf(),
        ensures
            index < self@.len() <==> r is Ok,
            r matches Ok(off) ==> off == line_start(self@, index as int),
    {
        if index < self.lines.len() {
            Ok(self.start_of(index))
        } else {
            Err(BufferError::OutOfBounds)
        }
    }

    /// Puts `ch` into line `r` before column `c`.
    pub fn insert_in_line(&mut self, r: usize, c: usize, ch: char)
        requires
            old(self).wf(),
            ch != '\n',
            r < old(self)@.len(),
            c <= old(self)@[r as int].len(),
            old(self).text().len() < usize::MAX,
        ensures
            final(self).wf(),
            final(self)@ == old(self)@.update(r as int, old(self)@[r as int].insert(c as int, ch)),
            final(self).text() == old(self).text().insert(line_start(old(self)@, r as int) + c, ch),
    {
        let ghost ls = self@;
        self.lines[r].insert(c, ch);
        self.count = self.count + 1;
        assert(self@ =~= ls.update(r as int, ls[r as int].insert(c as int, ch)));
        proof {
            lemma_insert_in_line(ls, r as int, c as int, ch);
            lemma_line_end(ls, r as int);
        }
    }

    /// Removes the character at column `c` of line `r`.
    pub fn remove_in_line(&mut self, r: usize, c: usize)
        requires
            old(self).wf(),
            r < old(self)@.len(),
            c < old(self)@[r as int].len(),
        ensures
            final(self).wf(),
            final(self)@ == old(self)@.update(r as int, old(self)@[r as int].remove(c as int)),
            final(self).text() == old(self).text().remove(line_start(old(self)@, r as int) + c),
    {
        let ghost ls = self@;
        proof {
            lemma_line_end(ls, r as int);
        }
        self.lines[r].remove(c);
        self.count = self.count - 1;
        assert(self@ =~= ls.update(r as int, ls[r as int].remove(c as int)));
        proof {
            lemma_remove_in_line(ls, r as int, c as int);
        }
    }

    /// Cuts line `r` in two at column `c`: a newline goes into the text there.
    pub fn split_line(&mut self, r: usize, c: usize)
        requires
            old(self).wf(),
            r < old(self)@.len(),
            c <= old(self)@[r as int].len(),
            old(self).text().len() < usize::MAX,
        ensures
            final(self).wf(),
            final(self)@ == split_at(old(self)@, r as int, c as int),
            final(self).text() == old(self).text().insert(line_start(old(self)@, r as int) + c, '\n'),
    {
        let ghost ls = self@;
        let n = self.lines.len();
        assert(n == ls.len());
        let below: usize = r + 1;
        let tail = self.lines[r].split_off(c);
        self.lines.insert(below, tail);
        self.count = self.count + 1;
        assert(self@ =~= split_at(ls, r as int, c as int));
        proof {
            lemma_split_at(ls, r as int, c as int);
            lemma_line_end(ls, r as int);
            assert(joined(self@).len() == joined(ls).len() + 1);
        }
    }

    /// Makes line `r` and line `r + 1` one: the newline between them leaves the text.
    pub fn join_with_next(&mut self, r: usize)
        requires
            old(self).wf(),
            r + 1 < old(self)@.len(),
        ensures
            final(self).wf(),
            final(self)@ == join_at(old(self)@, r as int),
            final(self).text() == old(self).text().remove(
                line_start(old(self)@, r as int) + old(self)@[r as int].len(),
            ),
    {
        let ghost ls = self@;
        proof {
            lemma_line_end(ls, r as int);
        }
        let n = self.lines.len();
        assert(n == ls.len());
        let below: usize = r + 1;
        let mut next = self.lines.remove(below);
        self.lines[r].append(&mut next);
        self.count = self.count - 1;
        assert(self@ =~= join_at(ls, r as int));
        proof {
            lemma_join_at(ls, r as int);
        }
    }

    /// The line and column of offset `offset` of the flat text.
    fn locate(&self, offset: usize) -> (rc: (usize, usize))
        requires
            self.wf(),
            offset <= self.text().len(),
        ensures
            rc.0 < self@.len(),
            rc.1 <= self@[rc.0 as int].len(),
            line_start(self@, rc.0 as int) + rc.1 == offset,
    {
        let mut i: usize = 0;
        let mut acc: usize = 0;
        proof {
            lemma_line_start_next(self@, 0);
            lemma_terminated_len(self@);
            lemma_line_end(self@, 0);
        }
        while acc + self.lines[i].len() < offset
            invariant
                self.wf(),
                offset <= self.text().len(),
                self@.len() == self.lines@.len(),
                i < self@.len(),
                acc == line_start(self@, i as int),
                acc <= offset,
                acc + self@[i as int].len() <= self.text().len(),
            decreases self@.len() - i,
        {
            proof {
                lemma_terminated_len(self@);
                lemma_line_end(self@, i as int);
                lemma_line_start_next(self@, i as int);
                lemma_line_end(self@, i as int + 1);
            }
            acc = acc + self.lines[i].len() + 1;
            i += 1;
        }
        proof {
            lemma_line_end(self@, i as int);
        }
        (i, offset - acc)
    }

    /// Puts `ch` into the flat text before offset `offset`.
    pub fn insert(&mut self, offset: usize, ch: char) -> (r: Result<(), BufferError>)
        requires
            old(self).wf(),
            old(self).text().len() < usize::MAX,
        ensures
            final(self).wf(),
            r is Ok <==> offset <= old(self).text().len(),
            r is Ok ==> final(self).text() == old(self).text().insert(offset as int, ch),
            r is Err ==> final(self)@ == old(self)@,
    {
        if offset > self.count {
            return Err(BufferError::OutOfBounds);
        }
        let (row, col) = self.locate(offset);
        if ch == '\n' {
            self.split_line(row, col);
        } else {
            self.insert_in_line(row, col, ch);
        }
        Ok(())
    }

    /// Takes the character at offset `offset` out of the flat text.
    fn remove_at(&mut self, offset: usize)
        requires
            old(self).wf(),
            offset < old(self).text().len(),
        ensures
            final(self).wf(),
            final(self).text() == old(self).text().remove(offset as int),
    {
        let (row, col) = self.locate(offset);
        proof {
            lemma_line_end(self@, row as int);
            lemma_terminated_len(self@);
        }
        if col < self.lines[row].len() {
            self.remove_in_line(row, col);
        } else {
            self.join_with_next(row);
        }
    }

    /// Takes the characters at offsets `start .. end` out of the flat text.
    pub fn remove(&mut self, start: usize, end: usize) -> (r: Result<(), BufferError>)
        requires
            old(self).wf(),
        ensures
            final(self).wf(),
            r is Ok <==> start <= end && end <= old(self).text().len(),
            r is Ok ==> final(self).text() == old(self).text().take(start as int) + old(self).text().skip(
                end as int,
            ),
            r is Err ==> final(self)@ == old(self)@,
    {
        if start > end || end > self.count {
            return Err(BufferError::OutOfBounds);
        }
        let ghost t = self.text();
        let mut k: usize = start;
        assert(t =~= t.take(start as int) + t.skip(start as int));
        while k < end
            invariant
                self.wf(),
                start <= k <= end,
                end <= t.len(),
                self.text() == t.take(start as int) + t.skip(k as int),
            decreases end - k,
        {
            self.remove_at(start);
            k += 1;
            assert(self.text() =~= t.take(start as int) + t.skip(k as int));
        }
        Ok(())
    }

    /// The flat text: every line, with a newline between neighbours.
    pub fn to_text(&self) -> (r: Vec<char>)
        requires
            self.wf(),
        ensures
            r@ == self.text(),
    {
        let mut out: Vec<char> = Vec::new();
        let mut i: usize = 0;
        while i < self.lines.len()
            invariant
                i <= self@.len(),
                self@.len() == self.lines@.len(),
                out@ == terminated(self@.take(i as int)),
            decreases self@.len() - i,
        {
            let line = &self.lines[i];
            let mut j: usize = 0;
            let ghost head = out@;
            while j < line.len()
                invariant
                    j <= line@.len(),
                    out@ == head + line@.take(j as int),
                decreases line@.len() - j,
            {
                out.push(line[j]);
                j += 1;
                assert(out@ =~= head + line@.take(j as int));
            }
            out.push('\n');
            assert(self@.take(i as int + 1).drop_last() =~= self@.take(i as int));
            assert(line@.take(j as int) =~= line@);
            i += 1;
            assert(out@ =~= terminated(self@.take(i as int)));
        }
        assert(self@.take(i as int) =~= self@);
        proof {
            lemma_terminated_len(self@);
        }
        out.pop();
        out
    }
}

/// Line starts do not decrease.
proof fn lemma_line_starts_grow(ls: Seq<Seq<char>>, a: int, b: int)
    requires
        0 <= a <= b <= ls.len(),
    ensures
        line_start(ls, a) <= line_start(ls, b),
    decreases b - a,
{
    if a < b {
        lemma_line_start_next(ls, a);
        lemma_line_starts_grow(ls, a + 1, b);
    }
}

} // verus!
