//! Properties of the rows built from a line diff: how they cover the two
//! inputs, what the statistics and change positions say of them, and what
//! identical inputs give.
use vstd::prelude::*;
use crate::rows::{
    aligns, change_positions, count_kind, line_no, new_len_of, new_start_of, old_len_of,
    old_start_of, op_in_bounds, op_rows, ops_in_bounds, reach, rows_of,
    steps_chain, unchanged_script, LineOp, RowKind, RowModel,
};

verus! {

/// The left column of `rows`: for each row with a left line, its number
/// and its text, in order.
pub open spec fn left_side(rows: Seq<RowModel>) -> Seq<(Option<u32>, Seq<char>)>
    decreases rows.len(),
{
    if rows.len() == 0 {
        Seq::empty()
    } else if rows.last().left_text is Some {
        left_side(rows.drop_last()).push((rows.last().left_no, rows.last().left_text->0))
    } else {
        left_side(rows.drop_last())
    }
}

/// The right column of `rows`: for each row with a right line, its number
/// and its text, in order.
pub open spec fn right_side(rows: Seq<RowModel>) -> Seq<(Option<u32>, Seq<char>)>
    decreases rows.len(),
{
    if rows.len() == 0 {
        Seq::empty()
    } else if rows.last().right_text is Some {
        right_side(rows.drop_last()).push((rows.last().right_no, rows.last().right_text->0))
    } else {
        right_side(rows.drop_last())
    }
}

/// Each of `lines` with its 1-based number.
pub open spec fn numbered(lines: Seq<Seq<char>>) -> Seq<(Option<u32>, Seq<char>)> {
    Seq::new(lines.len(), |i: int| (Some(line_no(i)), lines[i]))
}

/// Whether every row has a number exactly on the sides where it has text.
pub open spec fn numbers_match_texts(rows: Seq<RowModel>) -> bool {
    forall|i: int|
        0 <= i < rows.len() ==> {
            &&& ((#[trigger] rows[i]).left_no is Some <==> rows[i].left_text is Some)
            &&& (rows[i].right_no is Some <==> rows[i].right_text is Some)
        }
}

/// Whether every equal row shows the same text on both sides.
pub open spec fn equal_rows_match(rows: Seq<RowModel>) -> bool {
    forall|i: int|
        0 <= i < rows.len() && (#[trigger] rows[i]).kind == RowKind::Equal ==> {
            &&& rows[i].left_text is Some
            &&& rows[i].left_text == rows[i].right_text
        }
}

/// Whether `rows` are all equal rows.
pub open spec fn all_equal(rows: Seq<RowModel>) -> bool {
    forall|i: int| 0 <= i < rows.len() ==> (#[trigger] rows[i]).kind == RowKind::Equal
}

proof fn lemma_left_side_concat(a: Seq<RowModel>, b: Seq<RowModel>)
    ensures
        left_side(a + b) == left_side(a) + left_side(b),
        right_side(a + b) == right_side(a) + right_side(b),
    decreases b.len(),
{
    if b.len() == 0 {
        assert(a + b =~= a);
        assert(left_side(a) + left_side(b) =~= left_side(a));
        assert(right_side(a) + right_side(b) =~= right_side(a));
    } else {
        lemma_left_side_concat(a, b.drop_last());
        assert((a + b).drop_last() =~= a + b.drop_last());
        assert((a + b).last() == b.last());
        assert(left_side(a) + left_side(b.drop_last()).push((b.last().left_no, b.last().left_text->0))
            =~= (left_side(a) + left_side(b.drop_last())).push((b.last().left_no, b.last().left_text->0)));
        assert(right_side(a) + right_side(b.drop_last()).push((b.last().right_no, b.last().right_text->0))
            =~= (right_side(a) + right_side(b.drop_last())).push((b.last().right_no, b.last().right_text->0)));
    }
}

/// Rows whose first `m` have left line `o + i` and whose others have none
/// contribute exactly those `m` numbered lines to the left column.
proof fn lemma_left_block(s: Seq<RowModel>, lines: Seq<Seq<char>>, o: int, m: int)
    requires
        0 <= m <= s.len(),
        forall|i: int|
            0 <= i < s.len() ==> ((#[trigger] s[i]).left_text is Some <==> i < m),
        forall|i: int|
            0 <= i < m ==> (#[trigger] s[i]).left_text == Some(lines[o + i]) && s[i].left_no == Some(
                line_no(o + i),
            ),
    ensures
        left_side(s) == Seq::new(m as nat, |i: int| (Some(line_no(o + i)), lines[o + i])),
    decreases s.len(),
{
    if s.len() > 0 {
        let p = s.drop_last();
        let mp = if m == s.len() { m - 1 } else { m };
        assert forall|i: int| 0 <= i < p.len() implies ((#[trigger] p[i]).left_text is Some <==> i < mp) by {
            assert(p[i] == s[i]);
        }
        assert forall|i: int| 0 <= i < mp implies (#[trigger] p[i]).left_text == Some(lines[o + i])
            && p[i].left_no == Some(line_no(o + i)) by {
            assert(p[i] == s[i]);
        }
        lemma_left_block(p, lines, o, mp);
        assert(left_side(s) =~= Seq::new(m as nat, |i: int| (Some(line_no(o + i)), lines[o + i])));
    } else {
        assert(left_side(s) =~= Seq::new(m as nat, |i: int| (Some(line_no(o + i)), lines[o + i])));
    }
}

/// Rows whose first `m` have right line `n + i` and whose others have none
/// contribute exactly those `m` numbered lines to the right column.
proof fn lemma_right_block(s: Seq<RowModel>, lines: Seq<Seq<char>>, n: int, m: int)
    requires
        0 <= m <= s.len(),
        forall|i: int|
            0 <= i < s.len() ==> ((#[trigger] s[i]).right_text is Some <==> i < m),
        forall|i: int|
            0 <= i < m ==> (#[trigger] s[i]).right_text == Some(lines[n + i]) && s[i].right_no
                == Some(line_no(n + i)),
    ensures
        right_side(s) == Seq::new(m as nat, |i: int| (Some(line_no(n + i)), lines[n + i])),
    decreases s.len(),
{
    if s.len() > 0 {
        let p = s.drop_last();
        let mp = if m == s.len() { m - 1 } else { m };
        assert forall|i: int| 0 <= i < p.len() implies ((#[trigger] p[i]).right_text is Some <==> i < mp) by {
            assert(p[i] == s[i]);
        }
        assert forall|i: int| 0 <= i < mp implies (#[trigger] p[i]).right_text == Some(lines[n + i])
            && p[i].right_no == Some(line_no(n + i)) by {
            assert(p[i] == s[i]);
        }
        lemma_right_block(p, lines, n, mp);
        assert(right_side(s) =~= Seq::new(m as nat, |i: int| (Some(line_no(n + i)), lines[n + i])));
    } else {
        assert(right_side(s) =~= Seq::new(m as nat, |i: int| (Some(line_no(n + i)), lines[n + i])));
    }
}

/// The rows of one step hold its old lines on the left and its new lines
/// on the right, numbered, in order.
proof fn lemma_op_sides(old: Seq<Seq<char>>, new: Seq<Seq<char>>, op: LineOp)
    ensures
        left_side(op_rows(old, new, op)) == Seq::new(
            old_len_of(op) as nat,
            |i: int| (Some(line_no(old_start_of(op) + i)), old[old_start_of(op) + i]),
        ),
        right_side(op_rows(old, new, op)) == Seq::new(
            new_len_of(op) as nat,
            |i: int| (Some(line_no(new_start_of(op) + i)), new[new_start_of(op) + i]),
        ),
{
    let s = op_rows(old, new, op);
    match op {
        LineOp::Equal { old_index, new_index, len } => {
            lemma_left_block(s, old, old_index as int, len as int);
            lemma_right_block(s, new, new_index as int, len as int);
        },
        LineOp::Delete { old_index, old_len, new_index } => {
            lemma_left_block(s, old, old_index as int, old_len as int);
            lemma_right_block(s, new, new_index as int, 0);
        },
        LineOp::Insert { old_index, new_index, new_len } => {
            lemma_left_block(s, old, old_index as int, 0);
            lemma_right_block(s, new, new_index as int, new_len as int);
        },
        LineOp::Replace { old_index, old_len, new_index, new_len } => {
            lemma_left_block(s, old, old_index as int, old_len as int);
            lemma_right_block(s, new, new_index as int, new_len as int);
        },
    }
}

proof fn lemma_chain_sides(old: Seq<Seq<char>>, new: Seq<Seq<char>>, ops: Seq<LineOp>)
    requires
        steps_chain(ops, old, new),
    ensures
        left_side(rows_of(old, new, ops)) == numbered(old).take(reach(ops).0),
        right_side(rows_of(old, new, ops)) == numbered(new).take(reach(ops).1),
        0 <= reach(ops).0 <= old.len(),
        0 <= reach(ops).1 <= new.len(),
    decreases ops.len(),
{
    if ops.len() == 0 {
        assert(numbered(old).take(0) =~= Seq::<(Option<u32>, Seq<char>)>::empty());
        assert(numbered(new).take(0) =~= Seq::<(Option<u32>, Seq<char>)>::empty());
    } else {
        let init = ops.drop_last();
        let op = ops.last();
        lemma_chain_sides(old, new, init);
        lemma_op_sides(old, new, op);
        lemma_left_side_concat(rows_of(old, new, init), op_rows(old, new, op));
        let (o, n) = reach(init);
        assert(old_start_of(op) == o || old_len_of(op) == 0);
        assert(new_start_of(op) == n || new_len_of(op) == 0);
        assert(left_side(rows_of(old, new, ops)) =~= numbered(old).take(reach(ops).0));
        assert(right_side(rows_of(old, new, ops)) =~= numbered(new).take(reach(ops).1));
    }
}

/// The rows of an edit script list every old line on the left and every
/// new line on the right, each once, in order, numbered from 1.
pub proof fn lemma_rows_cover_inputs(old: Seq<Seq<char>>, new: Seq<Seq<char>>, ops: Seq<LineOp>)
    requires
        aligns(ops, old, new),
    ensures
        left_side(rows_of(old, new, ops)) == numbered(old),
        right_side(rows_of(old, new, ops)) == numbered(new),
{
    lemma_chain_sides(old, new, ops);
    assert(numbered(old).take(old.len() as int) =~= numbered(old));
    assert(numbered(new).take(new.len() as int) =~= numbered(new));
}

/// The steps of an edit script read only lines that exist.
pub proof fn lemma_chain_in_bounds(ops: Seq<LineOp>, old: Seq<Seq<char>>, new: Seq<Seq<char>>)
    requires
        steps_chain(ops, old, new),
    ensures
        ops_in_bounds(ops, old.len() as int, new.len() as int),
    decreases ops.len(),
{
    if ops.len() > 0 {
        lemma_chain_in_bounds(ops.drop_last(), old, new);
        assert forall|k: int| 0 <= k < ops.len() implies op_in_bounds(
            #[trigger] ops[k],
            old.len() as int,
            new.len() as int,
        ) by {
            if k < ops.len() - 1 {
                assert(ops[k] == ops.drop_last()[k]);
            }
        }
    }
}

/// Every row has a line number exactly on the sides where it has text.
pub proof fn lemma_numbers_match_texts(old: Seq<Seq<char>>, new: Seq<Seq<char>>, ops: Seq<LineOp>)
    ensures
        numbers_match_texts(rows_of(old, new, ops)),
    decreases ops.len(),
{
    if ops.len() > 0 {
        lemma_numbers_match_texts(old, new, ops.drop_last());
        let a = rows_of(old, new, ops.drop_last());
        let b = op_rows(old, new, ops.last());
        let s = rows_of(old, new, ops);
        assert forall|i: int| 0 <= i < s.len() implies {
            &&& ((#[trigger] s[i]).left_no is Some <==> s[i].left_text is Some)
            &&& (s[i].right_no is Some <==> s[i].right_text is Some)
        } by {
            if i < a.len() {
                assert(s[i] == a[i]);
            } else {
                assert(s[i] == b[i - a.len()]);
            }
        }
    }
}

/// In an edit script every equal row shows the same line on both sides.
pub proof fn lemma_equal_rows_match(old: Seq<Seq<char>>, new: Seq<Seq<char>>, ops: Seq<LineOp>)
    requires
        steps_chain(ops, old, new),
    ensures
        equal_rows_match(rows_of(old, new, ops)),
    decreases ops.len(),
{
    if ops.len() > 0 {
        lemma_equal_rows_match(old, new, ops.drop_last());
        let a = rows_of(old, new, ops.drop_last());
        let op = ops.last();
        let b = op_rows(old, new, op);
        let s = rows_of(old, new, ops);
        assert forall|i: int| 0 <= i < s.len() && (#[trigger] s[i]).kind == RowKind::Equal implies {
            &&& s[i].left_text is Some
            &&& s[i].left_text == s[i].right_text
        } by {
            if i < a.len() {
                assert(s[i] == a[i]);
            } else {
                let j = i - a.len();
                assert(s[i] == b[j]);
                match op {
                    LineOp::Equal { old_index, new_index, len } => {
                        let (o, n) = reach(ops.drop_last());
                        assert(old.subrange(o, o + len)[j] == new.subrange(n, n + len)[j]);
                    },
                    _ => {},
                }
            }
        }
    }
}

/// Whether `changes` lists exactly the positions of the rows that are not
/// equal, in increasing order.
pub open spec fn lists_changes(changes: Seq<usize>, rows: Seq<RowModel>) -> bool {
    &&& forall|k: int|
        0 <= k < changes.len() ==> {
            &&& 0 <= #[trigger] changes[k] < rows.len()
            &&& rows[changes[k] as int].kind != RowKind::Equal
        }
    &&& forall|k: int, l: int| 0 <= k < l < changes.len() ==> #[trigger] changes[k] < #[trigger] changes[l]
    &&& forall|i: int|
        0 <= i < rows.len() && (#[trigger] rows[i]).kind != RowKind::Equal ==> changes.contains(
            i as usize,
        )
}

/// Whether each row's kind matches the sides it has text on: an insert row
/// has no left line, a delete row no right line, every other row both, and
/// exactly the replace rows carry spans.
pub open spec fn kinds_match_texts(rows: Seq<RowModel>) -> bool {
    forall|i: int|
        0 <= i < rows.len() ==> {
            &&& ((#[trigger] rows[i]).kind == RowKind::Insert <==> rows[i].left_text is None)
            &&& (rows[i].kind == RowKind::Delete <==> rows[i].right_text is None)
            &&& (rows[i].left_spans is Some <==> rows[i].kind == RowKind::Replace)
            &&& (rows[i].right_spans is Some <==> rows[i].kind == RowKind::Replace)
        }
}

/// Each row's kind matches the sides it has text on, and exactly the
/// replace rows carry spans.
pub proof fn lemma_kinds_match_texts(old: Seq<Seq<char>>, new: Seq<Seq<char>>, ops: Seq<LineOp>)
    ensures
        kinds_match_texts(rows_of(old, new, ops)),
    decreases ops.len(),
{
    if ops.len() > 0 {
        lemma_kinds_match_texts(old, new, ops.drop_last());
        let a = rows_of(old, new, ops.drop_last());
        let b = op_rows(old, new, ops.last());
        let s = rows_of(old, new, ops);
        assert forall|i: int| 0 <= i < s.len() implies {
            &&& ((#[trigger] s[i]).kind == RowKind::Insert <==> s[i].left_text is None)
            &&& (s[i].kind == RowKind::Delete <==> s[i].right_text is None)
            &&& (s[i].left_spans is Some <==> s[i].kind == RowKind::Replace)
            &&& (s[i].right_spans is Some <==> s[i].kind == RowKind::Replace)
        } by {
            if i < a.len() {
                assert(s[i] == a[i]);
            } else {
                assert(s[i] == b[i - a.len()]);
            }
        }
    }
}

/// The change positions are exactly the positions of the rows that are not
/// equal, in increasing order; there are as many as such rows.
pub proof fn lemma_change_positions(rows: Seq<RowModel>)
    requires
        rows.len() <= usize::MAX,
    ensures
        lists_changes(change_positions(rows), rows),
        change_positions(rows).len() + count_kind(rows, RowKind::Equal) == rows.len(),
    decreases rows.len(),
{
    if rows.len() > 0 {
        let p = rows.drop_last();
        lemma_change_positions(p);
        let cp = change_positions(p);
        let c = change_positions(rows);
        assert forall|i: int| 0 <= i < p.len() implies #[trigger] p[i] == rows[i] by {}
        if rows.last().kind == RowKind::Equal {
            assert forall|i: int|
                0 <= i < rows.len() && (#[trigger] rows[i]).kind != RowKind::Equal implies c.contains(
                i as usize,
            ) by {
                assert(p[i] == rows[i]);
            }
        } else {
            let last = (rows.len() - 1) as usize;
            assert(c == cp.push(last));
            assert forall|i: int|
                0 <= i < rows.len() && (#[trigger] rows[i]).kind != RowKind::Equal implies c.contains(
                i as usize,
            ) by {
                if i == rows.len() - 1 {
                    assert(c[cp.len() as int] == last);
                } else {
                    assert(p[i] == rows[i]);
                    let k = choose|k: int| 0 <= k < cp.len() && cp[k] == i as usize;
                    assert(c[k] == i as usize);
                }
            }
            assert forall|k: int| 0 <= k < c.len() implies {
                &&& 0 <= #[trigger] c[k] < rows.len()
                &&& rows[c[k] as int].kind != RowKind::Equal
            } by {
                if k < cp.len() {
                    assert(c[k] == cp[k]);
                    assert(p[cp[k] as int] == rows[cp[k] as int]);
                } else {
                    assert(c[k] == last);
                    assert(rows[last as int] == rows.last());
                }
            }
            assert forall|k: int, l: int| 0 <= k < l < c.len() implies #[trigger] c[k] < #[trigger] c[l] by {
                if l < cp.len() {
                    assert(c[k] == cp[k] && c[l] == cp[l]);
                } else {
                    assert(c[k] == cp[k]);
                    assert(0 <= cp[k] < p.len());
                    assert(c[l] == last);
                }
            }
        }
    }
}

/// Rows that are all equal rows have no change positions, and the equal
/// count is their number.
pub proof fn lemma_all_equal_rows(rows: Seq<RowModel>)
    requires
        all_equal(rows),
    ensures
        change_positions(rows).len() == 0,
        count_kind(rows, RowKind::Equal) == rows.len(),
        count_kind(rows, RowKind::Insert) == 0,
        count_kind(rows, RowKind::Delete) == 0,
        count_kind(rows, RowKind::Replace) == 0,
    decreases rows.len(),
{
    if rows.len() > 0 {
        let p = rows.drop_last();
        assert forall|i: int| 0 <= i < p.len() implies (#[trigger] p[i]).kind == RowKind::Equal by {
            assert(p[i] == rows[i]);
        }
        lemma_all_equal_rows(p);
    }
}

/// Identical line sequences give only equal rows, one per line.
pub proof fn lemma_unchanged_rows(lines: Seq<Seq<char>>)
    requires
        lines.len() <= usize::MAX,
    ensures
        all_equal(rows_of(lines, lines, unchanged_script(lines.len()))),
        rows_of(lines, lines, unchanged_script(lines.len())).len() == lines.len(),
{
    let ops = unchanged_script(lines.len());
    if lines.len() > 0 {
        assert(ops.drop_last() =~= Seq::<LineOp>::empty());
        assert(rows_of(lines, lines, ops.drop_last()) =~= Seq::<RowModel>::empty());
        assert(rows_of(lines, lines, ops) =~= op_rows(lines, lines, ops.last()));
    }
}

/// Each per-kind count is the number of rows of that kind.
pub proof fn lemma_count_is_filter(rows: Seq<RowModel>, k: RowKind)
    ensures
        count_kind(rows, k) == rows.filter(|r: RowModel| r.kind == k).len(),
    decreases rows.len(),
{
    reveal(Seq::filter);
    if rows.len() > 0 {
        lemma_count_is_filter(rows.drop_last(), k);
    }
}

} // verus!
