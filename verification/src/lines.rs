//! Texts as sequences of lines: `str::lines` as a function on `Seq<char>`,
//! the two ways the launcher writes lines back (each line followed by a
//! newline, or lines joined by newlines), and what reading those back gives.
use vstd::prelude::*;

verus! {

/// The pieces of `s` between newline characters; a text with `n` newlines
/// has `n + 1` pieces.
pub open spec fn split_newlines(s: Seq<char>) -> Seq<Seq<char>>
    decreases s.len(),
{
    if s.len() == 0 {
        seq![Seq::<char>::empty()]
    } else {
        let p = split_newlines(s.drop_last());
        if s.last() == '\n' {
            p.push(Seq::<char>::empty())
        } else {
            p.update(p.len() - 1, p.last().push(s.last()))
        }
    }
}

/// `l` without one final carriage return.
pub open spec fn strip_cr(l: Seq<char>) -> Seq<char> {
    if l.len() > 0 && l.last() == '\r' {
        l.drop_last()
    } else {
        l
    }
}

/// The lines of `s` as `str::lines` yields them: split at `\n`, a `\r` right
/// before a `\n` dropped, and no empty last line after a final newline.
pub open spec fn lines_of(s: Seq<char>) -> Seq<Seq<char>> {
    let p = split_newlines(s);
    let body = Seq::new((p.len() - 1) as nat, |i: int| strip_cr(p[i]));
    if p.last().len() == 0 {
        body
    } else {
        body.push(p.last())
    }
}

/// Every line followed by a newline.
pub open spec fn terminate_lines(ls: Seq<Seq<char>>) -> Seq<char>
    decreases ls.len(),
{
    if ls.len() == 0 {
        Seq::empty()
    } else {
        terminate_lines(ls.drop_last()) + ls.last() + seq!['\n']
    }
}

/// The lines joined by newlines (`[String]::join("\n")`).
pub open spec fn join_lines(ls: Seq<Seq<char>>) -> Seq<char>
    decreases ls.len(),
{
    if ls.len() == 0 {
        Seq::empty()
    } else if ls.len() == 1 {
        ls[0]
    } else {
        join_lines(ls.drop_last()) + seq!['\n'] + ls.last()
    }
}

/// No line holds a newline.
pub open spec fn no_newlines(ls: Seq<Seq<char>>) -> bool {
    forall|i: int, j: int| 0 <= i < ls.len() && 0 <= j < ls[i].len() ==> #[trigger] ls[i][j] != '\n'
}

/// No line ends with a carriage return.
pub open spec fn no_trailing_cr(ls: Seq<Seq<char>>) -> bool {
    forall|i: int| 0 <= i < ls.len() ==> strip_cr(#[trigger] ls[i]) == ls[i]
}

pub proof fn lemma_split_nonempty(s: Seq<char>)
    ensures
        split_newlines(s).len() >= 1,
    decreases s.len(),
{
    if s.len() > 0 {
        lemma_split_nonempty(s.drop_last());
    }
}

/// Appending text without newlines extends the last piece.
pub proof fn lemma_split_append_plain(s: Seq<char>, t: Seq<char>)
    requires
        forall|j: int| 0 <= j < t.len() ==> #[trigger] t[j] != '\n',
    ensures
        split_newlines(s + t) == split_newlines(s).update(
            split_newlines(s).len() - 1,
            split_newlines(s).last() + t,
        ),
    decreases t.len(),
{
    lemma_split_nonempty(s);
    if t.len() == 0 {
        assert(s + t =~= s);
        assert(split_newlines(s).last() + t =~= split_newlines(s).last());
        assert(split_newlines(s).update(split_newlines(s).len() - 1, split_newlines(s).last())
            =~= split_newlines(s));
    } else {
        let t0 = t.drop_last();
        lemma_split_append_plain(s, t0);
        assert((s + t).drop_last() =~= s + t0);
        assert((s + t).last() == t.last());
        assert(t[t.len() - 1] != '\n');
        let q = split_newlines(s + t0);
        assert(q.len() == split_newlines(s).len());
        assert(q.last() == split_newlines(s).last() + t0);
        assert(split_newlines(s + t) == q.update(q.len() - 1, q.last().push(t.last())));
        assert(split_newlines(s).last() + t0 + seq![t.last()] =~= split_newlines(s).last() + t);
        assert(q.last().push(t.last()) =~= split_newlines(s).last() + t);
        assert(split_newlines(s + t) =~= split_newlines(s).update(
            split_newlines(s).len() - 1,
            split_newlines(s).last() + t,
        ));
    }
}

/// Appending a newline starts a new, empty piece.
pub proof fn lemma_split_append_newline(s: Seq<char>)
    ensures
        split_newlines(s + seq!['\n']) == split_newlines(s).push(Seq::<char>::empty()),
{
    assert((s + seq!['\n']).drop_last() =~= s);
}

/// Reading back lines that were each written with a final newline.
pub proof fn lemma_split_terminated(ls: Seq<Seq<char>>)
    requires
        no_newlines(ls),
    ensures
        split_newlines(terminate_lines(ls)) == ls.push(Seq::<char>::empty()),
    decreases ls.len(),
{
    if ls.len() == 0 {
        assert(split_newlines(Seq::<char>::empty()) =~= seq![Seq::<char>::empty()]);
    } else {
        let ls0 = ls.drop_last();
        assert(no_newlines(ls0)) by {
            assert forall|i: int, j: int| 0 <= i < ls0.len() && 0 <= j < ls0[i].len() implies #[trigger] ls0[i][j]
                != '\n' by {
                assert(ls0[i] == ls[i]);
            }
        }
        lemma_split_terminated(ls0);
        let l = ls.last();
        assert forall|j: int| 0 <= j < l.len() implies #[trigger] l[j] != '\n' by {
            assert(ls[ls.len() - 1][j] != '\n');
        }
        lemma_split_append_plain(terminate_lines(ls0), l);
        lemma_split_append_newline(terminate_lines(ls0) + l);
        assert(Seq::<char>::empty() + l =~= l);
        assert(ls0.push(Seq::<char>::empty()).update(ls0.len() as int, l) =~= ls);
    }
}

/// `str::lines` of a text written line by line with final newlines gives
/// the lines back, each without one final carriage return.
pub proof fn lemma_lines_of_terminated(ls: Seq<Seq<char>>)
    requires
        no_newlines(ls),
    ensures
        lines_of(terminate_lines(ls)) == Seq::new(ls.len(), |i: int| strip_cr(ls[i])),
{
    lemma_split_terminated(ls);
    let p = split_newlines(terminate_lines(ls));
    assert(p.last().len() == 0);
    assert(lines_of(terminate_lines(ls)) =~= Seq::new(ls.len(), |i: int| strip_cr(ls[i])));
}

/// Reading back lines joined by newlines.
pub proof fn lemma_split_joined(ls: Seq<Seq<char>>)
    requires
        no_newlines(ls),
        ls.len() >= 1,
    ensures
        split_newlines(join_lines(ls)) == ls,
    decreases ls.len(),
{
    if ls.len() == 1 {
        lemma_split_append_plain(Seq::<char>::empty(), ls[0]);
        assert(Seq::<char>::empty() + ls[0] =~= ls[0]);
        assert(split_newlines(Seq::<char>::empty()) =~= seq![Seq::<char>::empty()]);
        assert(seq![Seq::<char>::empty()].update(0, Seq::<char>::empty() + ls[0]) =~= ls);
    } else {
        let ls0 = ls.drop_last();
        assert(no_newlines(ls0)) by {
            assert forall|i: int, j: int| 0 <= i < ls0.len() && 0 <= j < ls0[i].len() implies #[trigger] ls0[i][j]
                != '\n' by {
                assert(ls0[i] == ls[i]);
            }
        }
        lemma_split_joined(ls0);
        let l = ls.last();
        assert forall|j: int| 0 <= j < l.len() implies #[trigger] l[j] != '\n' by {
            assert(ls[ls.len() - 1][j] != '\n');
        }
        lemma_split_append_newline(join_lines(ls0));
        lemma_split_append_plain(join_lines(ls0) + seq!['\n'], l);
        assert(Seq::<char>::empty() + l =~= l);
        assert(ls0.push(Seq::<char>::empty()).update(ls0.len() as int, l) =~= ls);
    }
}

/// `str::lines` of lines joined by newlines: every line but the last loses
/// one final carriage return, and an empty last line is not read back.
pub proof fn lemma_lines_of_joined(ls: Seq<Seq<char>>)
    requires
        no_newlines(ls),
        ls.len() >= 1,
    ensures
        lines_of(join_lines(ls)) == ({
            let body = Seq::new((ls.len() - 1) as nat, |i: int| strip_cr(ls[i]));
            if ls.last().len() == 0 {
                body
            } else {
                body.push(ls.last())
            }
        }),
{
    lemma_split_joined(ls);
}

/// Lines split from a text hold no newline.
pub proof fn lemma_lines_no_newlines(s: Seq<char>)
    ensures
        no_newlines(split_newlines(s)),
        no_newlines(lines_of(s)),
    decreases s.len(),
{
    lemma_split_nonempty(s);
    if s.len() > 0 {
        lemma_lines_no_newlines(s.drop_last());
        lemma_split_nonempty(s.drop_last());
        let p0 = split_newlines(s.drop_last());
        let p = split_newlines(s);
        assert forall|i: int, j: int| 0 <= i < p.len() && 0 <= j < p[i].len() implies #[trigger] p[i][j]
            != '\n' by {
            if s.last() != '\n' && i == p0.len() - 1 {
                if j < p0[i].len() {
                    assert(p[i][j] == p0[i][j]);
                }
            } else if i < p0.len() {
                assert(p[i] == p0[i]);
            }
        }
    }
    let p = split_newlines(s);
    let ls = lines_of(s);
    assert forall|i: int, j: int| 0 <= i < ls.len() && 0 <= j < ls[i].len() implies #[trigger] ls[i][j]
        != '\n' by {
        if i < p.len() - 1 {
            assert(ls[i] == strip_cr(p[i]));
            assert(ls[i][j] == p[i][j]);
        } else {
            assert(ls[i] == p[i]);
        }
    }
}

/// The lines of `text`, as `str::lines` yields them.
pub fn split_lines(text: &Vec<char>) -> (ls: Vec<Vec<char>>)
    ensures
        ls.deep_view() == lines_of(text@),
{
    let mut done: Vec<Vec<char>> = Vec::new();
    let mut cur: Vec<char> = Vec::new();
    let mut i: usize = 0;
    while i < text.len()
        invariant
            i <= text.len(),
            split_newlines(text@.take(i as int)).len() == done.len() + 1,
            forall|j: int|
                0 <= j < done.len() ==> #[trigger] done@[j]@ == strip_cr(
                    split_newlines(text@.take(i as int))[j],
                ),
            cur@ == split_newlines(text@.take(i as int)).last(),
        decreases text.len() - i,
    {
        let ghost before = text@.take(i as int);
        assert(text@.take(i + 1).drop_last() =~= before);
        let c = text[i];
        if c == '\n' {
            let line = strip_cr_vec(cur);
            done.push(line);
            cur = Vec::new();
        } else {
            cur.push(c);
        }
        i = i + 1;
        proof {
            let p = split_newlines(text@.take(i as int));
            assert forall|j: int| 0 <= j < done.len() implies #[trigger] done@[j]@ == strip_cr(p[j]) by {
                if j < done.len() - 1 || c != '\n' {
                    assert(p[j] == split_newlines(before)[j]);
                }
            }
        }
    }
    assert(text@.take(text.len() as int) =~= text@);
    let ghost p = split_newlines(text@);
    let ghost body = Seq::new((p.len() - 1) as nat, |j: int| strip_cr(p[j]));
    assert(done.deep_view() =~= body) by {
        assert forall|j: int| 0 <= j < done.len() implies done.deep_view()[j] == body[j] by {
            assert(done@[j]@ == strip_cr(p[j]));
        }
    }
    if cur.len() > 0 {
        let ghost dv = done.deep_view();
        let ghost cv = cur@;
        done.push(cur);
        assert(done.deep_view() =~= dv.push(cv)) by {
            assert forall|j: int| 0 <= j < done.len() implies done.deep_view()[j] == dv.push(cv)[j] by {
                if j < done.len() - 1 {
                    assert(done.deep_view()[j] == done@[j]@);
                }
            }
        }
    }
    done
}

/// `l` without one final carriage return.
fn strip_cr_vec(l: Vec<char>) -> (r: Vec<char>)
    ensures
        r@ == strip_cr(l@),
{
    let mut l = l;
    if l.len() > 0 && l[l.len() - 1] == '\r' {
        l.pop();
    }
    l
}

} // verus!
