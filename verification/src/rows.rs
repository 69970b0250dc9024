//! Aligned side-by-side rows built from a line diff, with their
//! statistics and the positions of the changed rows.
use vstd::prelude::*;
use similar::{DiffOp, TextDiff};
use crate::inline::{
    char_diff, compute_inline_spans, has_white_space, inline_changes, inline_fits, left_piece,
    left_spans_of, right_piece, right_spans_of, span_text, spans_view, word_diff, InlineSpan, SpanTag,
};
use crate::laws::lemma_count_is_filter;
use crate::text::strings_view;

verus! {

broadcast use vstd::string::group_string_axioms;

/// The kind of a side-by-side row.
#[derive(Debug, Clone, Copy, PartialEq, Eq, Structural)]
pub enum RowKind {
    Equal,
    Insert,
    Delete,
    Replace,
}

/// One row of the side-by-side view. Line numbers count from 1.
#[derive(Debug, Clone, PartialEq, Eq)]
pub struct DiffRow {
    pub kind: RowKind,
    pub left_no: Option<u32>,
    pub right_no: Option<u32>,
    pub left_text: Option<String>,
    pub right_text: Option<String>,
    /// Word/char-level spans for in-line highlight (replace rows with both sides).
    pub left_spans: Option<Vec<InlineSpan>>,
    pub right_spans: Option<Vec<InlineSpan>>,
}

/// What a row holds, as mathematical values.
pub struct RowModel {
    pub kind: RowKind,
    pub left_no: Option<u32>,
    pub right_no: Option<u32>,
    pub left_text: Option<Seq<char>>,
    pub right_text: Option<Seq<char>>,
    pub left_spans: Option<Seq<(Seq<char>, bool)>>,
    pub right_spans: Option<Seq<(Seq<char>, bool)>>,
}

/// The view of an optional string.
pub open spec fn opt_text(s: Option<String>) -> Option<Seq<char>> {
    match s {
        Some(t) => Some(t@),
        None => None,
    }
}

/// The view of an optional span list.
pub open spec fn opt_spans(s: Option<Vec<InlineSpan>>) -> Option<Seq<(Seq<char>, bool)>> {
    match s {
        Some(v) => Some(spans_view(v@)),
        None => None,
    }
}

impl View for DiffRow {
    type V = RowModel;

    open spec fn view(&self) -> RowModel {
        RowModel {
            kind: self.kind,
            left_no: self.left_no,
            right_no: self.right_no,
            left_text: opt_text(self.left_text),
            right_text: opt_text(self.right_text),
            left_spans: opt_spans(self.left_spans),
            right_spans: opt_spans(self.right_spans),
        }
    }
}

/// Row counts per kind.
#[derive(Debug, Clone, PartialEq, Eq, Structural)]
pub struct DiffStats {
    pub equal: usize,
    pub insert: usize,
    pub delete: usize,
    pub replace: usize,
    pub total_rows: usize,
}

/// One step of a line diff: a run of equal lines, of deleted lines, of
/// inserted lines, or of old lines replaced by new ones.
#[derive(Debug, Clone, Copy, PartialEq, Eq)]
pub enum LineOp {
    Equal { old_index: usize, new_index: usize, len: usize },
    Delete { old_index: usize, old_len: usize, new_index: usize },
    Insert { old_index: usize, new_index: usize, new_len: usize },
    Replace { old_index: usize, old_len: usize, new_index: usize, new_len: usize },
}

/// The views of a sequence of rows.
pub open spec fn rows_view(v: Seq<DiffRow>) -> Seq<RowModel> {
    Seq::new(v.len(), |i: int| v[i]@)
}

/// The steps of the line diff of `old` against `new`, in order.
pub uninterp spec fn line_diff(old: Seq<Seq<char>>, new: Seq<Seq<char>>) -> Seq<LineOp>;

/// How many old lines a step covers.
pub open spec fn old_len_of(op: LineOp) -> int {
    match op {
        LineOp::Equal { len, .. } => len as int,
        LineOp::Delete { old_len, .. } => old_len as int,
        LineOp::Insert { .. } => 0,
        LineOp::Replace { old_len, .. } => old_len as int,
    }
}

/// How many new lines a step covers.
pub open spec fn new_len_of(op: LineOp) -> int {
    match op {
        LineOp::Equal { len, .. } => len as int,
        LineOp::Delete { .. } => 0,
        LineOp::Insert { new_len, .. } => new_len as int,
        LineOp::Replace { new_len, .. } => new_len as int,
    }
}

/// Where a step starts in the old lines.
pub open spec fn old_start_of(op: LineOp) -> int {
    match op {
        LineOp::Equal { old_index, .. } => old_index as int,
        LineOp::Delete { old_index, .. } => old_index as int,
        LineOp::Insert { old_index, .. } => old_index as int,
        LineOp::Replace { old_index, .. } => old_index as int,
    }
}

/// Where a step starts in the new lines.
pub open spec fn new_start_of(op: LineOp) -> int {
    match op {
        LineOp::Equal { new_index, .. } => new_index as int,
        LineOp::Delete { new_index, .. } => new_index as int,
        LineOp::Insert { new_index, .. } => new_index as int,
        LineOp::Replace { new_index, .. } => new_index as int,
    }
}

/// Whether the lines that a step reads lie within `old_n` old lines and
/// `new_n` new lines.
pub open spec fn op_in_bounds(op: LineOp, old_n: int, new_n: int) -> bool {
    match op {
        LineOp::Equal { old_index, new_index, len } => old_index + len <= old_n && new_index
            + len <= new_n,
        LineOp::Delete { old_index, old_len, .. } => old_index + old_len <= old_n,
        LineOp::Insert { new_index, new_len, .. } => new_index + new_len <= new_n,
        LineOp::Replace { old_index, old_len, new_index, new_len } => old_index + old_len <= old_n
            && new_index + new_len <= new_n,
    }
}

/// Whether every step reads within `old_n` old lines and `new_n` new lines.
pub open spec fn ops_in_bounds(ops: Seq<LineOp>, old_n: int, new_n: int) -> bool {
    forall|k: int| 0 <= k < ops.len() ==> op_in_bounds(#[trigger] ops[k], old_n, new_n)
}

/// The positions in the old and new lines that the steps reach.
pub open spec fn reach(ops: Seq<LineOp>) -> (int, int)
    decreases ops.len(),
{
    if ops.len() == 0 {
        (0, 0)
    } else {
        let (o, n) = reach(ops.drop_last());
        (o + old_len_of(ops.last()), n + new_len_of(ops.last()))
    }
}

/// Whether each step starts where the previous ones end (on the sides it
/// covers), and each run of equal lines is equal on both sides.
pub open spec fn steps_chain(ops: Seq<LineOp>, old: Seq<Seq<char>>, new: Seq<Seq<char>>) -> bool
    decreases ops.len(),
{
    if ops.len() == 0 {
        true
    } else {
        let (o, n) = reach(ops.drop_last());
        let op = ops.last();
        &&& steps_chain(ops.drop_last(), old, new)
        &&& op_in_bounds(op, old.len() as int, new.len() as int)
        &&& match op {
            LineOp::Equal { old_index, new_index, len } => {
                &&& old_index == o
                &&& new_index == n
                &&& old.subrange(o, o + len) == new.subrange(n, n + len)
            },
            LineOp::Delete { old_index, .. } => old_index == o,
            LineOp::Insert { new_index, .. } => new_index == n,
            LineOp::Replace { old_index, new_index, .. } => old_index == o && new_index == n,
        }
    }
}

/// Whether `ops` is an edit script from `old` to `new`: the steps cover
/// both sequences in order, from start to end.
pub open spec fn aligns(ops: Seq<LineOp>, old: Seq<Seq<char>>, new: Seq<Seq<char>>) -> bool {
    &&& steps_chain(ops, old, new)
    &&& reach(ops) == (old.len() as int, new.len() as int)
}

/// The script of identical sequences of `n` lines: one run of equal lines,
/// or none for empty sequences.
pub open spec fn unchanged_script(n: nat) -> Seq<LineOp> {
    if n == 0 {
        Seq::empty()
    } else {
        seq![LineOp::Equal { old_index: 0, new_index: 0, len: n as usize }]
    }
}

/// The line diff of `old` against `new` (similar's
/// `TextDiff::from_slices`, then `ops`), each step converted one for one.
/// The steps form an edit script from `old` to `new`, and identical
/// sequences give a single run of equal lines (none when empty). Inputs of
/// more than `u32::MAX` lines in all are left out: the diff numbers the
/// distinct lines of long inputs with `u32` counters. Which edit script the
/// Myers algorithm picks is left to the name `line_diff`.
#[verifier::external_body]
pub(crate) fn line_ops(old: &Vec<String>, new: &Vec<String>) -> (res: Vec<LineOp>)
    requires
        old@.len() + new@.len() <= u32::MAX,
    ensures
        res@ == line_diff(strings_view(old@), strings_view(new@)),
        aligns(res@, strings_view(old@), strings_view(new@)),
        strings_view(old@) == strings_view(new@) ==> res@ == unchanged_script(old@.len()),
{
    let old_refs: Vec<&str> = old.iter().map(String::as_str).collect();
    let new_refs: Vec<&str> = new.iter().map(String::as_str).collect();
    let mut out = Vec::new();
    for op in TextDiff::from_slices(&old_refs, &new_refs).ops() {
        out.push(match *op {
            DiffOp::Equal { old_index, new_index, len } => LineOp::Equal { old_index, new_index, len },
            DiffOp::Delete { old_index, old_len, new_index } => LineOp::Delete { old_index, old_len, new_index },
            DiffOp::Insert { old_index, new_index, new_len } => LineOp::Insert { old_index, new_index, new_len },
            DiffOp::Replace { old_index, old_len, new_index, new_len } => LineOp::Replace { old_index, old_len, new_index, new_len },
        });
    }
    out
}


/// A line number: the 1-based position `i + 1`, as a `u32`.
pub open spec fn line_no(i: int) -> u32 {
    (i + 1) as u32
}

/// The row of the given kind, numbers and texts; a replace row with text
/// on both sides also carries the in-line spans of its two texts.
pub open spec fn row_model(
    kind: RowKind,
    left_no: Option<u32>,
    right_no: Option<u32>,
    left_text: Option<Seq<char>>,
    right_text: Option<Seq<char>>,
) -> RowModel {
    if kind == RowKind::Replace && left_text is Some && right_text is Some {
        let cs = inline_changes(left_text->0, right_text->0);
        RowModel {
            kind,
            left_no,
            right_no,
            left_text,
            right_text,
            left_spans: Some(left_spans_of(cs)),
            right_spans: Some(right_spans_of(cs)),
        }
    } else {
        RowModel { kind, left_no, right_no, left_text, right_text, left_spans: None, right_spans: None }
    }
}

/// Row `i` of a replaced block of `old_len` old lines from `o` and
/// `new_len` new lines from `n`: a replace row while both sides have a
/// line, then delete or insert rows for the longer side.
pub open spec fn replace_row(
    old: Seq<Seq<char>>,
    new: Seq<Seq<char>>,
    o: int,
    old_len: int,
    n: int,
    new_len: int,
    i: int,
) -> RowModel {
    let l = if i < old_len { Some(old[o + i]) } else { None };
    let r = if i < new_len { Some(new[n + i]) } else { None };
    let lno = if i < old_len { Some(line_no(o + i)) } else { None };
    let rno = if i < new_len { Some(line_no(n + i)) } else { None };
    let kind = if i < old_len && i < new_len {
        RowKind::Replace
    } else if i < old_len {
        RowKind::Delete
    } else {
        RowKind::Insert
    };
    row_model(kind, lno, rno, l, r)
}

/// The rows of one step.
pub open spec fn op_rows(old: Seq<Seq<char>>, new: Seq<Seq<char>>, op: LineOp) -> Seq<RowModel> {
    match op {
        LineOp::Equal { old_index, new_index, len } => Seq::new(
            len as nat,
            |i: int|
                row_model(
                    RowKind::Equal,
                    Some(line_no(old_index + i)),
                    Some(line_no(new_index + i)),
                    Some(old[old_index + i]),
                    Some(new[new_index + i]),
                ),
        ),
        LineOp::Delete { old_index, old_len, .. } => Seq::new(
            old_len as nat,
            |i: int|
                row_model(
                    RowKind::Delete,
                    Some(line_no(old_index + i)),
                    None,
                    Some(old[old_index + i]),
                    None,
                ),
        ),
        LineOp::Insert { new_index, new_len, .. } => Seq::new(
            new_len as nat,
            |i: int|
                row_model(
                    RowKind::Insert,
                    None,
                    Some(line_no(new_index + i)),
                    None,
                    Some(new[new_index + i]),
                ),
        ),
        LineOp::Replace { old_index, old_len, new_index, new_len } => Seq::new(
            (if old_len >= new_len { old_len } else { new_len }) as nat,
            |i: int| replace_row(old, new, old_index as int, old_len as int, new_index as int, new_len as int, i),
        ),
    }
}

/// The rows of a sequence of steps: the rows of each step, in order.
pub open spec fn rows_of(old: Seq<Seq<char>>, new: Seq<Seq<char>>, ops: Seq<LineOp>) -> Seq<RowModel>
    decreases ops.len(),
{
    if ops.len() == 0 {
        Seq::empty()
    } else {
        rows_of(old, new, ops.drop_last()) + op_rows(old, new, ops.last())
    }
}

/// How many of `rows` are of kind `k`.
pub open spec fn count_kind(rows: Seq<RowModel>, k: RowKind) -> nat
    decreases rows.len(),
{
    if rows.len() == 0 {
        0
    } else {
        count_kind(rows.drop_last(), k) + if rows.last().kind == k { 1nat } else { 0nat }
    }
}

/// The positions of the rows that are not of kind `Equal`, in increasing
/// order.
pub open spec fn change_positions(rows: Seq<RowModel>) -> Seq<usize>
    decreases rows.len(),
{
    if rows.len() == 0 {
        Seq::empty()
    } else if rows.last().kind == RowKind::Equal {
        change_positions(rows.drop_last())
    } else {
        change_positions(rows.drop_last()).push((rows.len() - 1) as usize)
    }
}

/// Whether `s` holds the statistics of `rows`.
pub open spec fn stats_of(s: DiffStats, rows: Seq<RowModel>) -> bool {
    &&& s.equal == count_kind(rows, RowKind::Equal)
    &&& s.insert == count_kind(rows, RowKind::Insert)
    &&& s.delete == count_kind(rows, RowKind::Delete)
    &&& s.replace == count_kind(rows, RowKind::Replace)
    &&& s.total_rows == rows.len()
}

/// Whether every row that carries spans has span texts that make up its
/// own text, on each side.
pub open spec fn spans_rebuild_texts(rows: Seq<RowModel>) -> bool {
    forall|i: int|
        0 <= i < rows.len() ==> {
            &&& (#[trigger] rows[i]).left_spans is Some ==> rows[i].left_text is Some
                && span_text(rows[i].left_spans->0) == rows[i].left_text->0
            &&& rows[i].right_spans is Some ==> rows[i].right_text is Some && span_text(
                rows[i].right_spans->0,
            ) == rows[i].right_text->0
        }
}

/// Whether every replace row with text on both sides carries, on each side,
/// the pieces of the in-line diff of its two texts (word-level when either
/// holds white space, otherwise character-level) taken by their tags, and
/// at character level one span per character.
pub open spec fn replace_rows_highlighted(rows: Seq<RowModel>) -> bool {
    forall|i: int|
        0 <= i < rows.len() && (#[trigger] rows[i]).kind == RowKind::Replace
            && rows[i].left_text is Some && rows[i].right_text is Some ==> {
            let l = rows[i].left_text->0;
            let r = rows[i].right_text->0;
            let words = has_white_space(l) || has_white_space(r);
            let cs = if words {
                word_diff(l, r)
            } else {
                char_diff(l, r)
            };
            &&& rows[i].left_spans == Some(cs.filter_map(|c: (SpanTag, Seq<char>)| left_piece(c)))
            &&& rows[i].right_spans == Some(cs.filter_map(|c: (SpanTag, Seq<char>)| right_piece(c)))
            &&& !words ==> rows[i].left_spans->0.len() == l.len() && forall|k: int|
                0 <= k < l.len() ==> (#[trigger] rows[i].left_spans->0[k]).0 == seq![l[k]]
            &&& !words ==> rows[i].right_spans->0.len() == r.len() && forall|k: int|
                0 <= k < r.len() ==> (#[trigger] rows[i].right_spans->0[k]).0 == seq![r[k]]
        }
}

proof fn lemma_highlighted_push(s: Seq<RowModel>, x: RowModel)
    requires
        replace_rows_highlighted(s),
        replace_rows_highlighted(seq![x]),
    ensures
        replace_rows_highlighted(s.push(x)),
{
    let t = s.push(x);
    assert forall|i: int|
        0 <= i < t.len() && (#[trigger] t[i]).kind == RowKind::Replace && t[i].left_text is Some
            && t[i].right_text is Some implies {
        let l = t[i].left_text->0;
        let r = t[i].right_text->0;
        let words = has_white_space(l) || has_white_space(r);
        let cs = if words {
            word_diff(l, r)
        } else {
            char_diff(l, r)
        };
        &&& t[i].left_spans == Some(cs.filter_map(|c: (SpanTag, Seq<char>)| left_piece(c)))
        &&& t[i].right_spans == Some(cs.filter_map(|c: (SpanTag, Seq<char>)| right_piece(c)))
        &&& !words ==> t[i].left_spans->0.len() == l.len() && forall|k: int|
            0 <= k < l.len() ==> (#[trigger] t[i].left_spans->0[k]).0 == seq![l[k]]
        &&& !words ==> t[i].right_spans->0.len() == r.len() && forall|k: int|
            0 <= k < r.len() ==> (#[trigger] t[i].right_spans->0[k]).0 == seq![r[k]]
    } by {
        let y = if i < s.len() { s[i] } else { seq![x][0] };
        assert(t[i] == y);
        if i < s.len() {
            assert(replace_rows_highlighted(s));
        } else {
            assert(seq![x][0] == x);
        }
    }
}

/// The four per-kind counts add up to the number of rows.
pub proof fn lemma_counts_add_up(rows: Seq<RowModel>)
    ensures
        count_kind(rows, RowKind::Equal) + count_kind(rows, RowKind::Insert) + count_kind(
            rows,
            RowKind::Delete,
        ) + count_kind(rows, RowKind::Replace) == rows.len(),
    decreases rows.len(),
{
    if rows.len() > 0 {
        lemma_counts_add_up(rows.drop_last());
    }
}

/// Builds one row; a replace row with text on both sides also gets the
/// in-line spans of its two texts.
pub fn row(
    kind: RowKind,
    left_no: Option<u32>,
    right_no: Option<u32>,
    left_text: Option<String>,
    right_text: Option<String>,
) -> (r: DiffRow)
    requires
        kind == RowKind::Replace && left_text is Some && right_text is Some ==> inline_fits(
            left_text->0@,
            right_text->0@,
        ),
    ensures
        r@ == row_model(kind, left_no, right_no, opt_text(left_text), opt_text(right_text)),
        spans_rebuild_texts(seq![r@]),
        replace_rows_highlighted(seq![r@]),
{
    let (left_spans, right_spans) = match (&kind, &left_text, &right_text) {
        (RowKind::Replace, Some(l), Some(r)) => {
            let (ls, rs) = compute_inline_spans(l.as_str(), r.as_str());
            proof {
                assert forall|k: int| 0 <= k < ls@.len() implies spans_view(ls@)[k] == ls@[k]@ by {}
                assert forall|k: int| 0 <= k < rs@.len() implies spans_view(rs@)[k] == rs@[k]@ by {}
            }
            (Some(ls), Some(rs))
        },
        _ => (None, None),
    };
    let r = DiffRow { kind, left_no, right_no, left_text, right_text, left_spans, right_spans };
    assert(seq![r@][0] == r@);
    r
}


/// Whether `stats` (but for its total) and `changes` describe `rows`, and
/// every row with spans is rebuilt by them.
pub open spec fn built(rows: Seq<RowModel>, stats: DiffStats, changes: Seq<usize>) -> bool {
    &&& stats.equal == count_kind(rows, RowKind::Equal)
    &&& stats.insert == count_kind(rows, RowKind::Insert)
    &&& stats.delete == count_kind(rows, RowKind::Delete)
    &&& stats.replace == count_kind(rows, RowKind::Replace)
    &&& changes == change_positions(rows)
    &&& spans_rebuild_texts(rows)
    &&& replace_rows_highlighted(rows)
}

/// Whether each pair of an old line and a new line fits the size that the
/// in-line diff accepts.
pub open spec fn line_pairs_fit(old: Seq<Seq<char>>, new: Seq<Seq<char>>) -> bool {
    forall|i: int, j: int|
        0 <= i < old.len() && 0 <= j < new.len() ==> #[trigger] inline_fits(old[i], new[j])
}

/// Appends `r`, counting it and recording its position when it is a change.
fn push_row(rows: &mut Vec<DiffRow>, stats: &mut DiffStats, changes: &mut Vec<usize>, r: DiffRow)
    requires
        built(rows_view(old(rows)@), *old(stats), old(changes)@),
        spans_rebuild_texts(seq![r@]),
        replace_rows_highlighted(seq![r@]),
    ensures
        rows_view(final(rows)@) == rows_view(old(rows)@).push(r@),
        built(rows_view(final(rows)@), *final(stats), final(changes)@),
        final(stats).total_rows == old(stats).total_rows,
{
    let ghost before = rows_view(rows@);
    let pos = rows.len();
    let kind = r.kind;
    if kind != RowKind::Equal {
        changes.push(pos);
    }
    rows.push(r);
    let n = rows.len();
    let ghost after = rows_view(rows@);
    proof {
        assert(after =~= before.push(r@));
        assert(after.drop_last() =~= before);
        lemma_counts_add_up(after);
        lemma_highlighted_push(before, r@);
        assert forall|i: int| 0 <= i < after.len() implies {
            &&& (#[trigger] after[i]).left_spans is Some ==> after[i].left_text is Some
                && span_text(after[i].left_spans->0) == after[i].left_text->0
            &&& after[i].right_spans is Some ==> after[i].right_text is Some && span_text(
                after[i].right_spans->0,
            ) == after[i].right_text->0
        } by {
            if i < before.len() {
                assert(after[i] == before[i]);
            } else {
                assert(after[i] == seq![r@][0]);
            }
        }
    }
    match kind {
        RowKind::Equal => stats.equal = stats.equal + 1,
        RowKind::Insert => stats.insert = stats.insert + 1,
        RowKind::Delete => stats.delete = stats.delete + 1,
        RowKind::Replace => stats.replace = stats.replace + 1,
    }
}

/// Appends the rows of one step.
fn push_op_rows(
    left: &Vec<String>,
    right: &Vec<String>,
    op: LineOp,
    rows: &mut Vec<DiffRow>,
    stats: &mut DiffStats,
    changes: &mut Vec<usize>,
)
    requires
        op_in_bounds(op, left@.len() as int, right@.len() as int),
        line_pairs_fit(strings_view(left@), strings_view(right@)),
        built(rows_view(old(rows)@), *old(stats), old(changes)@),
    ensures
        rows_view(final(rows)@) == rows_view(old(rows)@) + op_rows(
            strings_view(left@),
            strings_view(right@),
            op,
        ),
        built(rows_view(final(rows)@), *final(stats), final(changes)@),
        final(stats).total_rows == old(stats).total_rows,
{
    let ghost lv = strings_view(left@);
    let ghost rv = strings_view(right@);
    let ghost start = rows_view(rows@);
    let ghost total = stats.total_rows;
    let ghost all = op_rows(lv, rv, op);
    let left_len = left.len();
    let right_len = right.len();
    match op {
        LineOp::Equal { old_index, new_index, len } => {
            for i in 0..len
                invariant
                    lv == strings_view(left@),
                    rv == strings_view(right@),
                    all == op_rows(lv, rv, op),
                    op == (LineOp::Equal { old_index, new_index, len }),
                    old_index + len <= left_len == left@.len(),
                    new_index + len <= right_len == right@.len(),
                    rows_view(rows@) == start + all.take(i as int),
                    built(rows_view(rows@), *stats, changes@),
                    stats.total_rows == total,
            {
                let r = row(
                    RowKind::Equal,
                    Some(#[verifier::truncate] ((old_index + i + 1) as u32)),
                    Some(#[verifier::truncate] ((new_index + i + 1) as u32)),
                    Some(left[old_index + i].clone()),
                    Some(right[new_index + i].clone()),
                );
                push_row(rows, stats, changes, r);
                assert(all.take(i + 1) =~= all.take(i as int).push(all[i as int]));
                assert(rows_view(rows@) =~= start + all.take(i + 1));
            }
            assert(all.take(len as int) =~= all);
        },
        LineOp::Delete { old_index, old_len, new_index } => {
            for i in 0..old_len
                invariant
                    lv == strings_view(left@),
                    all == op_rows(lv, rv, op),
                    op == (LineOp::Delete { old_index, old_len, new_index }),
                    old_index + old_len <= left_len == left@.len(),
                    rows_view(rows@) == start + all.take(i as int),
                    built(rows_view(rows@), *stats, changes@),
                    stats.total_rows == total,
            {
                let r = row(
                    RowKind::Delete,
                    Some(#[verifier::truncate] ((old_index + i + 1) as u32)),
                    None,
                    Some(left[old_index + i].clone()),
                    None,
                );
                push_row(rows, stats, changes, r);
                assert(all.take(i + 1) =~= all.take(i as int).push(all[i as int]));
                assert(rows_view(rows@) =~= start + all.take(i + 1));
            }
            assert(all.take(old_len as int) =~= all);
        },
        LineOp::Insert { old_index, new_index, new_len } => {
            for i in 0..new_len
                invariant
                    rv == strings_view(right@),
                    all == op_rows(lv, rv, op),
                    op == (LineOp::Insert { old_index, new_index, new_len }),
                    new_index + new_len <= right_len == right@.len(),
                    rows_view(rows@) == start + all.take(i as int),
                    built(rows_view(rows@), *stats, changes@),
                    stats.total_rows == total,
            {
                let r = row(
                    RowKind::Insert,
                    None,
                    Some(#[verifier::truncate] ((new_index + i + 1) as u32)),
                    None,
                    Some(right[new_index + i].clone()),
                );
                push_row(rows, stats, changes, r);
                assert(all.take(i + 1) =~= all.take(i as int).push(all[i as int]));
                assert(rows_view(rows@) =~= start + all.take(i + 1));
            }
            assert(all.take(new_len as int) =~= all);
        },
        LineOp::Replace { old_index, old_len, new_index, new_len } => {
            let max = if old_len >= new_len {
                old_len
            } else {
                new_len
            };
            for i in 0..max
                invariant
                    lv == strings_view(left@),
                    rv == strings_view(right@),
                    all == op_rows(lv, rv, op),
                    op == (LineOp::Replace { old_index, old_len, new_index, new_len }),
                    max == (if old_len >= new_len { old_len } else { new_len }),
                    old_index + old_len <= left_len == left@.len(),
                    new_index + new_len <= right_len == right@.len(),
                    line_pairs_fit(lv, rv),
                    rows_view(rows@) == start + all.take(i as int),
                    built(rows_view(rows@), *stats, changes@),
                    stats.total_rows == total,
            {
                let l = if i < old_len {
                    Some(left[old_index + i].clone())
                } else {
                    None
                };
                let r = if i < new_len {
                    Some(right[new_index + i].clone())
                } else {
                    None
                };
                let left_no = if i < old_len {
                    Some(#[verifier::truncate] ((old_index + i + 1) as u32))
                } else {
                    None
                };
                let right_no = if i < new_len {
                    Some(#[verifier::truncate] ((new_index + i + 1) as u32))
                } else {
                    None
                };
                let kind = if i < old_len && i < new_len {
                    RowKind::Replace
                } else if i < old_len {
                    RowKind::Delete
                } else {
                    RowKind::Insert
                };
                proof {
                    if i < old_len && i < new_len {
                        assert(lv[old_index + i] == left@[old_index + i]@);
                        assert(rv[new_index + i] == right@[new_index + i]@);
                        assert(inline_fits(lv[old_index + i], rv[new_index + i]));
                    }
                }
                let rw = row(kind, left_no, right_no, l, r);
                assert(rw@ == all[i as int]);
                push_row(rows, stats, changes, rw);
                assert(all.take(i + 1) =~= all.take(i as int).push(all[i as int]));
                assert(rows_view(rows@) =~= start + all.take(i + 1));
            }
            assert(all.take(max as int) =~= all);
        },
    }
}

/// Builds the side-by-side rows of a step list over `left` and `right`,
/// with their statistics and the positions of the rows that are not equal.
pub fn rows_from_ops(left: &Vec<String>, right: &Vec<String>, ops: &Vec<LineOp>) -> (res: (
    Vec<DiffRow>,
    DiffStats,
    Vec<usize>,
))
    requires
        ops_in_bounds(ops@, left@.len() as int, right@.len() as int),
        line_pairs_fit(strings_view(left@), strings_view(right@)),
    ensures
        rows_view(res.0@) == rows_of(strings_view(left@), strings_view(right@), ops@),
        stats_of(res.1, rows_view(res.0@)),
        res.2@ == change_positions(rows_view(res.0@)),
        spans_rebuild_texts(rows_view(res.0@)),
        replace_rows_highlighted(rows_view(res.0@)),
        res.1.equal == rows_view(res.0@).filter(|x: RowModel| x.kind == RowKind::Equal).len(),
        res.1.insert == rows_view(res.0@).filter(|x: RowModel| x.kind == RowKind::Insert).len(),
        res.1.delete == rows_view(res.0@).filter(|x: RowModel| x.kind == RowKind::Delete).len(),
        res.1.replace == rows_view(res.0@).filter(|x: RowModel| x.kind == RowKind::Replace).len(),
{
    let ghost lv = strings_view(left@);
    let ghost rv = strings_view(right@);
    let mut rows: Vec<DiffRow> = Vec::new();
    let mut stats = DiffStats { equal: 0, insert: 0, delete: 0, replace: 0, total_rows: 0 };
    let mut change_indices: Vec<usize> = Vec::new();
    assert(rows_view(rows@) =~= Seq::<RowModel>::empty());
    let n = ops.len();
    for k in 0..n
        invariant
            n == ops@.len(),
            lv == strings_view(left@),
            rv == strings_view(right@),
            ops_in_bounds(ops@, left@.len() as int, right@.len() as int),
            line_pairs_fit(lv, rv),
            rows_view(rows@) == rows_of(lv, rv, ops@.take(k as int)),
            built(rows_view(rows@), stats, change_indices@),
    {
        let op = ops[k];
        assert(op_in_bounds(ops@[k as int], left@.len() as int, right@.len() as int));
        push_op_rows(left, right, op, &mut rows, &mut stats, &mut change_indices);
        assert(ops@.take(k + 1).drop_last() =~= ops@.take(k as int));
    }
    assert(ops@.take(n as int) =~= ops@);
    stats.total_rows = rows.len();
    proof {
        lemma_count_is_filter(rows_view(rows@), RowKind::Equal);
        lemma_count_is_filter(rows_view(rows@), RowKind::Insert);
        lemma_count_is_filter(rows_view(rows@), RowKind::Delete);
        lemma_count_is_filter(rows_view(rows@), RowKind::Replace);
    }
    (rows, stats, change_indices)
}

} // verus!
