//! Splitting a text buffer into lines, and small character-level helpers.
use vstd::prelude::*;
use vstd::string::StrSliceExecFns;

verus! {

broadcast use vstd::string::group_string_axioms;

/// The pieces of `t` between `'\n'` separators, as `str::split('\n')`
/// yields them: always at least one piece, the last one possibly empty.
pub open spec fn split_at_newlines(t: Seq<char>) -> Seq<Seq<char>>
    decreases t.len(),
{
    if t.len() == 0 {
        seq![Seq::<char>::empty()]
    } else {
        let prev = split_at_newlines(t.drop_last());
        if t.last() == '\n' {
            prev.push(Seq::<char>::empty())
        } else {
            prev.update(prev.len() - 1, prev.last().push(t.last()))
        }
    }
}

/// The lines of `t`: no lines for an empty text; otherwise the
/// `'\n'`-separated pieces, where a final `'\n'` ends the last line
/// instead of starting an empty one.
pub open spec fn text_lines(t: Seq<char>) -> Seq<Seq<char>> {
    if t.len() == 0 {
        Seq::empty()
    } else if t.last() == '\n' {
        split_at_newlines(t).drop_last()
    } else {
        split_at_newlines(t)
    }
}

/// How many `'\n'` characters `t` holds.
pub open spec fn newline_count(t: Seq<char>) -> nat
    decreases t.len(),
{
    if t.len() == 0 {
        0
    } else {
        newline_count(t.drop_last()) + if t.last() == '\n' { 1nat } else { 0nat }
    }
}

/// `ls` joined with a `'\n'` between consecutive elements.
pub open spec fn join_lines(ls: Seq<Seq<char>>) -> Seq<char>
    decreases ls.len(),
{
    if ls.len() == 0 {
        Seq::empty()
    } else if ls.len() == 1 {
        ls[0]
    } else {
        join_lines(ls.drop_last()) + seq!['\n'] + ls.last()
    }
}

/// `l` without one trailing carriage return, if it has one.
pub open spec fn without_cr(l: Seq<char>) -> Seq<char> {
    if l.len() > 0 && l.last() == '\r' {
        l.drop_last()
    } else {
        l
    }
}

/// The views of a sequence of strings.
pub open spec fn strings_view(v: Seq<String>) -> Seq<Seq<char>> {
    Seq::new(v.len(), |i: int| v[i]@)
}

/// Appends `c` to `s` (std's `String::push`): the string grows by that
/// one character.
#[verifier::external_body]
pub(crate) fn push_char(s: &mut String, c: char)
    ensures
        final(s)@ == old(s)@.push(c),
{
    s.push(c)
}

proof fn lemma_split_nonempty(t: Seq<char>)
    ensures
        split_at_newlines(t).len() >= 1,
        split_at_newlines(t).len() <= t.len() + 1,
        forall|i: int|
            0 <= i < split_at_newlines(t).len() ==> #[trigger] split_at_newlines(t)[i].len()
                <= t.len(),
    decreases t.len(),
{
    if t.len() > 0 {
        lemma_split_nonempty(t.drop_last());
    }
}

/// Splits `text` into its lines, as `text_lines` describes them.
pub fn split_lines(text: &str) -> (lines: Vec<String>)
    ensures
        strings_view(lines@) == text_lines(text@),
        text@.len() > 0 ==> lines@.len() == newline_count(text@) + if text@.last() == '\n' {
            0nat
        } else {
            1nat
        },
{
    let mut done: Vec<String> = Vec::new();
    let mut cur = String::new();
    let mut last: Option<char> = None;
    for c in it: text.chars()
        invariant
            it.seq() == text@,
            strings_view(done@).push(cur@) == split_at_newlines(
                it.seq().take(it.index() as int),
            ),
            it.index() == 0 ==> last is None,
            it.index() > 0 ==> last == Some(it.seq()[it.index() - 1]),
            last == Some('\n') ==> cur@.len() == 0,
    {
        let ghost prefix = it.seq().take(it.index() as int);
        let ghost next = it.seq().take(it.index() + 1);
        proof {
            assert(next.drop_last() =~= prefix);
            lemma_split_nonempty(prefix);
        }
        if c == '\n' {
            let mut finished = String::new();
            std::mem::swap(&mut finished, &mut cur);
            done.push(finished);
            assert(strings_view(done@).push(cur@) =~= split_at_newlines(next));
        } else {
            push_char(&mut cur, c);
            assert(strings_view(done@).push(cur@) =~= split_at_newlines(next));
        }
        last = Some(c);
    }
    proof {
        assert(text@.take(text@.len() as int) =~= text@);
        lemma_lines_count(text@);
    }
    match last {
        None => {
            assert(text@.len() == 0);
            Vec::new()
        },
        Some(l) => {
            if l == '\n' {
                assert(strings_view(done@) =~= split_at_newlines(text@).drop_last());
                done
            } else {
                done.push(cur);
                done
            }
        },
    }
}

/// `line` without one trailing carriage return, if it has one.
pub fn strip_cr(line: &str) -> (res: &str)
    ensures
        res@ == without_cr(line@),
        line@.len() > 0 && line@.last() == '\r' ==> res@ == line@.drop_last(),
        !(line@.len() > 0 && line@.last() == '\r') ==> res@ == line@,
{
    let n = line.unicode_len();
    if n > 0 && line.get_char(n - 1) == '\r' {
        line.substring_char(0, n - 1)
    } else {
        line
    }
}

proof fn lemma_split_count(t: Seq<char>)
    ensures
        split_at_newlines(t).len() == newline_count(t) + 1,
    decreases t.len(),
{
    if t.len() > 0 {
        lemma_split_count(t.drop_last());
    }
}

/// A non-empty text has one line per `'\n'`, and one more when it does not
/// end with a `'\n'`.
pub proof fn lemma_lines_count(t: Seq<char>)
    ensures
        t.len() > 0 ==> text_lines(t).len() == newline_count(t) + if t.last() == '\n' {
            0nat
        } else {
            1nat
        },
{
    lemma_split_count(t);
}

/// Rejoining the lines of a text with `'\n'`, plus the final `'\n'` where
/// the text ends with one, gives the text back; no line holds a `'\n'`.
pub proof fn lemma_lines_rejoin(t: Seq<char>)
    ensures
        t.len() > 0 && t.last() == '\n' ==> join_lines(text_lines(t)) + seq!['\n'] == t,
        t.len() > 0 && t.last() != '\n' ==> join_lines(text_lines(t)) == t,
        forall|i: int, j: int|
            0 <= i < text_lines(t).len() && 0 <= j < text_lines(t)[i].len() ==> #[trigger] text_lines(
                t,
            )[i][j] != '\n',
{
    lemma_split_rejoin(t);
    if t.len() > 0 && t.last() == '\n' {
        let p = t.drop_last();
        lemma_split_rejoin(p);
        lemma_split_nonempty(p);
        assert(split_at_newlines(t).drop_last() =~= split_at_newlines(p));
        assert(p + seq!['\n'] =~= t);
    }
}

proof fn lemma_split_rejoin(t: Seq<char>)
    ensures
        join_lines(split_at_newlines(t)) == t,
        forall|i: int, j: int|
            0 <= i < split_at_newlines(t).len() && 0 <= j < split_at_newlines(t)[i].len()
                ==> #[trigger] split_at_newlines(t)[i][j] != '\n',
    decreases t.len(),
{
    if t.len() == 0 {
        assert(join_lines(split_at_newlines(t)) =~= t);
    } else {
        let p = t.drop_last();
        let c = t.last();
        let prev = split_at_newlines(p);
        lemma_split_rejoin(p);
        lemma_split_nonempty(p);
        let cur = split_at_newlines(t);
        if c == '\n' {
            assert(cur.drop_last() =~= prev);
            assert(join_lines(cur) =~= t);
        } else {
            assert(cur.drop_last() =~= prev.drop_last());
            if prev.len() == 1 {
                assert(join_lines(cur) =~= t);
            } else {
                let a = join_lines(prev.drop_last()) + seq!['\n'];
                assert(join_lines(prev) == a + prev.last());
                assert(cur.last() == prev.last().push(c));
                assert(join_lines(cur) == a + prev.last().push(c));
                assert(a + prev.last().push(c) =~= (a + prev.last()).push(c));
                assert(p.push(c) =~= t);
            }
            assert forall|i: int, j: int|
                0 <= i < cur.len() && 0 <= j < cur[i].len() implies #[trigger] cur[i][j] != '\n' by {
                if i == cur.len() - 1 && j == cur[i].len() - 1 {
                } else if i == cur.len() - 1 {
                    assert(cur[i][j] == prev[i][j]);
                } else {
                    assert(cur[i] == prev[i]);
                }
            }
        }
    }
}

/// A text has no more lines than characters, and no line is longer than
/// the text.
pub proof fn lemma_lines_bounded(t: Seq<char>)
    ensures
        text_lines(t).len() <= t.len(),
        forall|i: int| 0 <= i < text_lines(t).len() ==> #[trigger] text_lines(t)[i].len() <= t.len(),
{
    lemma_split_nonempty(t);
    if t.len() > 0 && t.last() != '\n' {
        lemma_split_nonempty(t.drop_last());
    }
}

} // verus!
