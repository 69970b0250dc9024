//! The side-by-side diff of two text buffers.
use vstd::prelude::*;
use crate::laws::{
    all_equal, equal_rows_match, kinds_match_texts, lemma_change_positions,
    lemma_count_is_filter, lemma_kinds_match_texts, lists_changes, lemma_all_equal_rows, lemma_chain_in_bounds,
    lemma_equal_rows_match, lemma_numbers_match_texts,
    lemma_rows_cover_inputs, lemma_unchanged_rows, left_side, numbered, numbers_match_texts,
    right_side,
};
use crate::rows::{
    change_positions, line_diff, line_ops, line_pairs_fit, rows_from_ops, rows_of, rows_view,
    line_no, replace_rows_highlighted, spans_rebuild_texts, stats_of, DiffRow, DiffStats, RowKind,
    RowModel,
};
use crate::text::{split_lines, strings_view, strip_cr, text_lines, without_cr};

verus! {

broadcast use vstd::string::group_string_axioms;

/// The lines that are compared: the lines of `t`, each without a trailing
/// carriage return.
pub open spec fn compared_lines(t: Seq<char>) -> Seq<Seq<char>> {
    Seq::new(text_lines(t).len(), |i: int| without_cr(text_lines(t)[i]))
}

/// `lines` with a trailing carriage return taken off each.
fn strip_crs(lines: &Vec<String>) -> (res: Vec<String>)
    ensures
        strings_view(res@) == Seq::new(lines@.len(), |i: int| without_cr(lines@[i]@)),
{
    let mut out: Vec<String> = Vec::new();
    let n = lines.len();
    for i in 0..n
        invariant
            n == lines@.len(),
            strings_view(out@) == Seq::new(i as nat, |j: int| without_cr(lines@[j]@)),
    {
        let ghost before = strings_view(out@);
        let line = strip_cr(lines[i].as_str()).to_owned();
        assert(line@ == without_cr(lines@[i as int]@));
        out.push(line);
        assert(strings_view(out@) =~= before.push(without_cr(lines@[i as int]@)));
        assert(strings_view(out@) =~= Seq::new((i + 1) as nat, |j: int| without_cr(lines@[j]@)));
    }
    out
}

/// What the comparison of `left` with `right` gives: the rows of the line
/// diff of their compared lines, with exact statistics and change
/// positions; every line of each side in its column once, in order,
/// numbered `k + 1` and with only a final carriage return removed; each row's
/// kind matching its sides; replace rows highlighted by the in-line diff.
pub open spec fn diff_outcome(
    left: Seq<char>,
    right: Seq<char>,
    rows_exec: Seq<DiffRow>,
    stats: DiffStats,
    changes: Seq<usize>,
) -> bool {
    let l = compared_lines(left);
    let r = compared_lines(right);
    let rows = rows_view(rows_exec);
    &&& rows == rows_of(l, r, line_diff(l, r))
    &&& stats_of(stats, rows)
    &&& changes == change_positions(rows)
    &&& left_side(rows) == numbered(l)
    &&& right_side(rows) == numbered(r)
    &&& numbers_match_texts(rows)
    &&& kinds_match_texts(rows)
    &&& lists_changes(changes, rows)
    &&& replace_rows_highlighted(rows)
    &&& stats.equal == rows.filter(|x: RowModel| x.kind == RowKind::Equal).len()
    &&& stats.insert == rows.filter(|x: RowModel| x.kind == RowKind::Insert).len()
    &&& stats.delete == rows.filter(|x: RowModel| x.kind == RowKind::Delete).len()
    &&& stats.replace == rows.filter(|x: RowModel| x.kind == RowKind::Replace).len()
    &&& stats.total_rows == rows_exec.len()
    &&& left_side(rows).len() == text_lines(left).len()
    &&& right_side(rows).len() == text_lines(right).len()
    &&& forall|k: int|
        0 <= k < text_lines(left).len() ==> {
            let t = #[trigger] text_lines(left)[k];
            &&& left_side(rows)[k].0 is Some
            &&& left_side(rows)[k].0->0 == k + 1
            &&& left_side(rows)[k].1 == if t.len() > 0 && t.last() == '\r' {
                t.drop_last()
            } else {
                t
            }
        }
    &&& forall|k: int|
        0 <= k < text_lines(right).len() ==> {
            let t = #[trigger] text_lines(right)[k];
            &&& right_side(rows)[k].0 is Some
            &&& right_side(rows)[k].0->0 == k + 1
            &&& right_side(rows)[k].1 == if t.len() > 0 && t.last() == '\r' {
                t.drop_last()
            } else {
                t
            }
        }
    &&& equal_rows_match(rows)
    &&& spans_rebuild_texts(rows)
    &&& stats.equal + stats.insert + stats.delete + stats.replace == stats.total_rows
    &&& (l == r ==> all_equal(rows) && changes.len() == 0 && stats.equal == l.len())
}

/// Builds the aligned side-by-side rows of two text buffers, with the
/// per-kind statistics and the positions of the rows that are not equal.
///
/// The compared lines are those of each text without a trailing carriage
/// return; the rows are those of the line diff of the two line lists.
/// The two sides together have at most `u32::MAX` lines, and each pair of
/// lines that a word-level diff may compare at most `u32::MAX` characters:
/// the underlying diff numbers the distinct lines and words with `u32`
/// counters.
pub fn compute_text_diff(left: &str, right: &str) -> (res: (Vec<DiffRow>, DiffStats, Vec<usize>))
    requires
        compared_lines(left@).len() + compared_lines(right@).len() <= u32::MAX,
        line_pairs_fit(compared_lines(left@), compared_lines(right@)),
    ensures
        diff_outcome(left@, right@, res.0@, res.1, res.2@),
{
    let left_lines = split_lines(left);
    let right_lines = split_lines(right);
    let left_owned = strip_crs(&left_lines);
    let right_owned = strip_crs(&right_lines);
    let ghost l = compared_lines(left@);
    let ghost r = compared_lines(right@);
    proof {
        assert(strings_view(left_owned@) =~= l);
        assert(strings_view(right_owned@) =~= r);
    }
    let ops = line_ops(&left_owned, &right_owned);
    proof {
        lemma_chain_in_bounds(ops@, l, r);
    }
    let (rows, stats, change_indices) = rows_from_ops(&left_owned, &right_owned, &ops);
    proof {
        let rv = rows_view(rows@);
        lemma_rows_cover_inputs(l, r, ops@);
        lemma_numbers_match_texts(l, r, ops@);
        lemma_kinds_match_texts(l, r, ops@);
        lemma_change_positions(rv);
        lemma_count_is_filter(rv, RowKind::Equal);
        lemma_count_is_filter(rv, RowKind::Insert);
        lemma_count_is_filter(rv, RowKind::Delete);
        lemma_count_is_filter(rv, RowKind::Replace);
        assert forall|k: int| 0 <= k < text_lines(left@).len() implies left_side(rv)[k] == (
            Some((k + 1) as u32),
            l[k],
        ) by {
            assert(numbered(l)[k] == (Some(line_no(k)), l[k]));
        }
        assert forall|k: int| 0 <= k < text_lines(right@).len() implies right_side(rv)[k] == (
            Some((k + 1) as u32),
            r[k],
        ) by {
            assert(numbered(r)[k] == (Some(line_no(k)), r[k]));
        }
        lemma_equal_rows_match(l, r, ops@);
        crate::rows::lemma_counts_add_up(rv);
        if l == r {
            lemma_unchanged_rows(l);
            lemma_all_equal_rows(rv);
        }
    }
    (rows, stats, change_indices)
}

} // verus!
