//! The mathematical model of a document: lines, the text they join to, and
//! the split of a text into lines.
use vstd::prelude::*;

verus! {

/// Every line followed by a newline character.
pub open spec fn terminated(ls: Seq<Seq<char>>) -> Seq<char>
    decreases ls.len(),
{
    if ls.len() == 0 {
        Seq::empty()
    } else {
        terminated(ls.drop_last()) + ls.last().push('\n')
    }
}

/// The flat text of a document: its lines joined by newline characters.
pub open spec fn joined(ls: Seq<Seq<char>>) -> Seq<char> {
    if ls.len() == 0 {
        Seq::empty()
    } else {
        terminated(ls).drop_last()
    }
}

/// The lines of a flat text: the pieces between its newline characters.
/// The empty text is one empty line; a trailing newline ends in an empty line.
pub open spec fn split_lines(t: Seq<char>) -> Seq<Seq<char>>
    decreases t.len(),
{
    if t.len() == 0 {
        seq![Seq::empty()]
    } else {
        let s = split_lines(t.drop_last());
        if t.last() == '\n' {
            s.push(Seq::empty())
        } else {
            s.update(s.len() - 1, s.last().push(t.last()))
        }
    }
}

/// A document is well formed when it has a line and no line holds a newline.
pub open spec fn lines_wf(ls: Seq<Seq<char>>) -> bool {
    &&& ls.len() >= 1
    &&& forall|i: int, j: int|
        0 <= i < ls.len() && 0 <= j < ls[i].len() ==> #[trigger] ls[i][j] != '\n'
}

/// The offset in the flat text at which line `r` begins.
pub open spec fn line_start(ls: Seq<Seq<char>>, r: int) -> int {
    terminated(ls.take(r)).len() as int
}

/// Line `r` cut in two at column `c`.
pub open spec fn split_at(ls: Seq<Seq<char>>, r: int, c: int) -> Seq<Seq<char>> {
    ls.take(r) + seq![ls[r].take(c), ls[r].skip(c)] + ls.skip(r + 1)
}

/// Line `r` and line `r + 1` made one.
pub open spec fn join_at(ls: Seq<Seq<char>>, r: int) -> Seq<Seq<char>> {
    ls.take(r) + seq![ls[r] + ls[r + 1]] + ls.skip(r + 2)
}

pub proof fn lemma_terminated_concat(a: Seq<Seq<char>>, b: Seq<Seq<char>>)
    ensures
        terminated(a + b) == terminated(a) + terminated(b),
    decreases b.len(),
{
    if b.len() == 0 {
        assert(a + b =~= a);
        assert(terminated(a) + terminated(b) =~= terminated(a));
    } else {
        lemma_terminated_concat(a, b.drop_last());
        assert((a + b).drop_last() =~= a + b.drop_last());
        assert(terminated(a) + terminated(b) =~= terminated(a) + terminated(b.drop_last())
            + b.last().push('\n'));
    }
}

pub proof fn lemma_terminated_one(l: Seq<char>)
    ensures
        terminated(seq![l]) == l.push('\n'),
{
    assert(seq![l].drop_last() =~= Seq::<Seq<char>>::empty());
    assert(terminated(Seq::<Seq<char>>::empty()) == Seq::<char>::empty());
    assert(seq![l].last() == l);
    assert(terminated(seq![l]) == terminated(seq![l].drop_last()) + l.push('\n'));
    assert(terminated(seq![l]) =~= l.push('\n'));
}

/// The terminated text around line `r`.
pub proof fn lemma_terminated_at(ls: Seq<Seq<char>>, r: int)
    requires
        0 <= r < ls.len(),
    ensures
        terminated(ls) == terminated(ls.take(r)) + ls[r].push('\n') + terminated(ls.skip(r + 1)),
{
    assert(ls =~= ls.take(r) + seq![ls[r]] + ls.skip(r + 1));
    lemma_terminated_concat(ls.take(r), seq![ls[r]]);
    lemma_terminated_concat(ls.take(r) + seq![ls[r]], ls.skip(r + 1));
    lemma_terminated_one(ls[r]);
}

pub proof fn lemma_terminated_len(ls: Seq<Seq<char>>)
    ensures
        ls.len() >= 1 ==> terminated(ls).len() >= 1,
        terminated(ls).len() >= ls.len(),
    decreases ls.len(),
{
    if ls.len() > 0 {
        lemma_terminated_len(ls.drop_last());
    }
}

/// Line `r + 1` begins one past the end of line `r`.
pub proof fn lemma_line_start_next(ls: Seq<Seq<char>>, r: int)
    requires
        0 <= r < ls.len(),
    ensures
        line_start(ls, r + 1) == line_start(ls, r) + ls[r].len() + 1,
        line_start(ls, 0) == 0,
{
    assert(ls.take(r + 1).drop_last() =~= ls.take(r));
    assert(ls.take(0) =~= Seq::<Seq<char>>::empty());
}

/// Every line ends inside the text: the last one at its very end, the others
/// before a newline.
pub proof fn lemma_line_end(ls: Seq<Seq<char>>, r: int)
    requires
        0 <= r < ls.len(),
    ensures
        line_start(ls, r) + ls[r].len() < terminated(ls).len(),
        r == ls.len() - 1 ==> line_start(ls, r) + ls[r].len() + 1 == terminated(ls).len(),
        r < ls.len() - 1 ==> line_start(ls, r) + ls[r].len() + 1 < terminated(ls).len(),
{
    lemma_terminated_at(ls, r);
    lemma_terminated_len(ls.skip(r + 1));
}

/// Splitting a text yields a well formed document.
pub proof fn lemma_split_wf(t: Seq<char>)
    ensures
        lines_wf(split_lines(t)),
    decreases t.len(),
{
    if t.len() > 0 {
        lemma_split_wf(t.drop_last());
        let s = split_lines(t.drop_last());
        if t.last() != '\n' {
            let u = s.update(s.len() - 1, s.last().push(t.last()));
            assert forall|i: int, j: int| 0 <= i < u.len() && 0 <= j < u[i].len() implies #[trigger] u[i][j]
                != '\n' by {
                if i == s.len() - 1 && j == s.last().len() {
                } else {
                    assert(u[i][j] == s[i][j]);
                }
            }
        } else {
            let u = s.push(Seq::<char>::empty());
            assert forall|i: int, j: int| 0 <= i < u.len() && 0 <= j < u[i].len() implies #[trigger] u[i][j]
                != '\n' by {
                assert(u[i][j] == s[i][j]);
            }
        }
    }
}

proof fn lemma_terminated_split(t: Seq<char>)
    ensures
        terminated(split_lines(t)) == t.push('\n'),
    decreases t.len(),
{
    if t.len() == 0 {
        lemma_terminated_one(Seq::<char>::empty());
        assert(t.push('\n') =~= seq!['\n']);
    } else {
        let p = t.drop_last();
        lemma_terminated_split(p);
        lemma_split_wf(p);
        let s = split_lines(p);
        if t.last() == '\n' {
            let u = s.push(Seq::<char>::empty());
            assert(u.drop_last() =~= s);
            assert(t.push('\n') =~= p.push('\n') + Seq::<char>::empty().push('\n'));
        } else {
            let u = s.update(s.len() - 1, s.last().push(t.last()));
            assert(u.drop_last() =~= s.drop_last());
            let q = terminated(s.drop_last());
            assert(terminated(s) == q + s.last().push('\n'));
            assert(p =~= (q + s.last().push('\n')).drop_last());
            assert(p =~= q + s.last());
            assert(u.last() == s.last().push(t.last()));
            assert(terminated(u) == q + u.last().push('\n'));
            assert(t =~= p.push(t.last()));
            assert(t.push('\n') =~= q + s.last().push(t.last()).push('\n'));
        }
    }
}

/// Joining the lines of a text gives the text back.
pub proof fn lemma_join_split(t: Seq<char>)
    ensures
        joined(split_lines(t)) == t,
        lines_wf(split_lines(t)),
{
    lemma_split_wf(t);
    lemma_terminated_split(t);
    assert(t.push('\n').drop_last() =~= t);
}

/// Putting a character other than a newline into line `r` before column `c`
/// puts it into the text at the matching offset.
pub proof fn lemma_insert_in_line(ls: Seq<Seq<char>>, r: int, c: int, ch: char)
    requires
        lines_wf(ls),
        ch != '\n',
        0 <= r < ls.len(),
        0 <= c <= ls[r].len(),
    ensures
        lines_wf(ls.update(r, ls[r].insert(c, ch))),
        joined(ls.update(r, ls[r].insert(c, ch))) == joined(ls).insert(line_start(ls, r) + c, ch),
{
    let ls2 = ls.update(r, ls[r].insert(c, ch));
    assert forall|i: int, j: int| 0 <= i < ls2.len() && 0 <= j < ls2[i].len() implies #[trigger] ls2[i][j]
        != '\n' by {
        if i == r {
            if j < c {
                assert(ls2[i][j] == ls[i][j]);
            } else if j > c {
                assert(ls2[i][j] == ls[i][j - 1]);
            }
        } else {
            assert(ls2[i][j] == ls[i][j]);
        }
    }
    lemma_terminated_at(ls, r);
    lemma_terminated_at(ls2, r);
    assert(ls2.take(r) =~= ls.take(r));
    assert(ls2.skip(r + 1) =~= ls.skip(r + 1));
    lemma_line_end(ls, r);
    let k = line_start(ls, r) + c;
    assert(terminated(ls2) =~= terminated(ls).insert(k, ch));
    assert(joined(ls2) =~= joined(ls).insert(k, ch));
}

/// Removing the character at column `c` of line `r` removes it from the text
/// at the matching offset.
pub proof fn lemma_remove_in_line(ls: Seq<Seq<char>>, r: int, c: int)
    requires
        lines_wf(ls),
        0 <= r < ls.len(),
        0 <= c < ls[r].len(),
    ensures
        lines_wf(ls.update(r, ls[r].remove(c))),
        joined(ls.update(r, ls[r].remove(c))) == joined(ls).remove(line_start(ls, r) + c),
{
    let ls2 = ls.update(r, ls[r].remove(c));
    assert forall|i: int, j: int| 0 <= i < ls2.len() && 0 <= j < ls2[i].len() implies #[trigger] ls2[i][j]
        != '\n' by {
        if i == r {
            if j < c {
                assert(ls2[i][j] == ls[i][j]);
            } else {
                assert(ls2[i][j] == ls[i][j + 1]);
            }
        } else {
            assert(ls2[i][j] == ls[i][j]);
        }
    }
    lemma_line_end(ls, r);
    lemma_terminated_at(ls, r);
    lemma_terminated_at(ls2, r);
    assert(ls2.take(r) =~= ls.take(r));
    assert(ls2.skip(r + 1) =~= ls.skip(r + 1));
    let k = line_start(ls, r) + c;
    assert(terminated(ls2) =~= terminated(ls).remove(k));
    assert(joined(ls2) =~= joined(ls).remove(k));
}

/// Joining line `r` to the next removes the newline that ends line `r`.
pub proof fn lemma_join_at(ls: Seq<Seq<char>>, r: int)
    requires
        lines_wf(ls),
        0 <= r && r + 1 < ls.len(),
    ensures
        lines_wf(join_at(ls, r)),
        joined(join_at(ls, r)) == joined(ls).remove(line_start(ls, r) + ls[r].len()),
{
    let ls2 = join_at(ls, r);
    let lr = ls[r];
    assert forall|i: int, j: int| 0 <= i < ls2.len() && 0 <= j < ls2[i].len() implies #[trigger] ls2[i][j]
        != '\n' by {
        if i < r {
            assert(ls2[i][j] == ls[i][j]);
        } else if i == r {
            if j < lr.len() {
                assert(ls2[i][j] == lr[j]);
            } else {
                assert(ls2[i][j] == ls[r + 1][j - lr.len()]);
            }
        } else {
            assert(ls2[i][j] == ls[i + 1][j]);
        }
    }
    lemma_line_end(ls, r);
    lemma_terminated_at(ls, r + 1);
    lemma_terminated_at(ls2, r);
    assert(ls.take(r + 1).drop_last() =~= ls.take(r));
    assert(ls2.take(r) =~= ls.take(r));
    assert(ls2.skip(r + 1) =~= ls.skip(r + 2));
    let k = line_start(ls, r) + lr.len();
    let p = terminated(ls.take(r));
    assert(terminated(ls.take(r + 1)) == p + lr.push('\n'));
    assert(terminated(ls2) =~= terminated(ls).remove(k));
    assert(joined(ls2) =~= joined(ls).remove(k));
}

/// Cutting line `r` at column `c` puts a newline into the text there.
pub proof fn lemma_split_at(ls: Seq<Seq<char>>, r: int, c: int)
    requires
        lines_wf(ls),
        0 <= r < ls.len(),
        0 <= c <= ls[r].len(),
    ensures
        lines_wf(split_at(ls, r, c)),
        joined(split_at(ls, r, c)) == joined(ls).insert(line_start(ls, r) + c, '\n'),
{
    let ls2 = split_at(ls, r, c);
    assert forall|i: int, j: int| 0 <= i < ls2.len() && 0 <= j < ls2[i].len() implies #[trigger] ls2[i][j]
        != '\n' by {
        if i < r {
            assert(ls2[i][j] == ls[i][j]);
        } else if i == r {
            assert(ls2[i][j] == ls[r][j]);
        } else if i == r + 1 {
            assert(ls2[i][j] == ls[r][j + c]);
        } else {
            assert(ls2[i][j] == ls[i - 1][j]);
        }
    }
    let a = ls[r].take(c);
    let b = ls[r].skip(c);
    lemma_line_end(ls, r);
    lemma_terminated_at(ls, r);
    lemma_terminated_at(ls2, r + 1);
    assert(ls2.take(r + 1).drop_last() =~= ls.take(r));
    assert(ls2.take(r + 1).last() == a);
    assert(ls2.skip(r + 2) =~= ls.skip(r + 1));
    let p = terminated(ls.take(r));
    assert(terminated(ls2.take(r + 1)) == p + a.push('\n'));
    let k = line_start(ls, r) + c;
    assert(terminated(ls2) =~= terminated(ls).insert(k, '\n'));
    assert(joined(ls2) =~= joined(ls).insert(k, '\n'));
}

} // verus!
