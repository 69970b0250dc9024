//! In-line highlight spans: the word- or character-level differences
//! between the two sides of a replaced line.
use vstd::prelude::*;
use similar::{ChangeTag, TextDiff};

verus! {

broadcast use vstd::string::group_string_axioms;

/// What a piece of an in-line diff is: kept on both sides, only on the
/// old side, or only on the new side.
#[derive(Debug, Clone, Copy, PartialEq, Eq, Structural)]
pub enum SpanTag {
    Equal,
    Delete,
    Insert,
}

/// One piece of an in-line diff: its tag and its text.
#[derive(Debug, Clone)]
pub struct TextChange {
    pub tag: SpanTag,
    pub text: String,
}

impl View for TextChange {
    type V = (SpanTag, Seq<char>);

    open spec fn view(&self) -> (SpanTag, Seq<char>) {
        (self.tag, self.text@)
    }
}

/// A fragment of one side of a line, for in-line highlighting.
#[derive(Debug, Clone, PartialEq, Eq)]
pub struct InlineSpan {
    pub text: String,
    /// True when this fragment differs between left and right.
    pub changed: bool,
}

impl View for InlineSpan {
    type V = (Seq<char>, bool);

    open spec fn view(&self) -> (Seq<char>, bool) {
        (self.text@, self.changed)
    }
}

/// The views of a sequence of changes.
pub open spec fn changes_view(v: Seq<TextChange>) -> Seq<(SpanTag, Seq<char>)> {
    Seq::new(v.len(), |i: int| v[i]@)
}

/// The views of a sequence of spans.
pub open spec fn spans_view(v: Seq<InlineSpan>) -> Seq<(Seq<char>, bool)> {
    Seq::new(v.len(), |i: int| v[i]@)
}

/// The pieces of the word-level diff of `old` against `new`, in the order
/// in which the diff yields them.
pub uninterp spec fn word_diff(old: Seq<char>, new: Seq<char>) -> Seq<(SpanTag, Seq<char>)>;

/// The pieces of the character-level diff of `old` against `new`, in the
/// order in which the diff yields them.
pub uninterp spec fn char_diff(old: Seq<char>, new: Seq<char>) -> Seq<(SpanTag, Seq<char>)>;

/// The left-hand spans of a change list: every piece but the insertions,
/// marked changed when it is a deletion.
pub open spec fn left_spans_of(cs: Seq<(SpanTag, Seq<char>)>) -> Seq<(Seq<char>, bool)>
    decreases cs.len(),
{
    if cs.len() == 0 {
        Seq::empty()
    } else {
        let rest = left_spans_of(cs.drop_last());
        let (tag, text) = cs.last();
        if tag == SpanTag::Insert {
            rest
        } else {
            rest.push((text, tag == SpanTag::Delete))
        }
    }
}

/// The right-hand spans of a change list: every piece but the deletions,
/// marked changed when it is an insertion.
pub open spec fn right_spans_of(cs: Seq<(SpanTag, Seq<char>)>) -> Seq<(Seq<char>, bool)>
    decreases cs.len(),
{
    if cs.len() == 0 {
        Seq::empty()
    } else {
        let rest = right_spans_of(cs.drop_last());
        let (tag, text) = cs.last();
        if tag == SpanTag::Delete {
            rest
        } else {
            rest.push((text, tag == SpanTag::Insert))
        }
    }
}

/// The span that a diff piece gives on the left side: none for an
/// insertion, otherwise its text, marked changed when it is a deletion.
pub open spec fn left_piece(c: (SpanTag, Seq<char>)) -> Option<(Seq<char>, bool)> {
    if c.0 == SpanTag::Insert {
        None
    } else {
        Some((c.1, c.0 == SpanTag::Delete))
    }
}

/// The span that a diff piece gives on the right side: none for a
/// deletion, otherwise its text, marked changed when it is an insertion.
pub open spec fn right_piece(c: (SpanTag, Seq<char>)) -> Option<(Seq<char>, bool)> {
    if c.0 == SpanTag::Delete {
        None
    } else {
        Some((c.1, c.0 == SpanTag::Insert))
    }
}

/// The texts of `spans`, concatenated.
pub open spec fn span_text(spans: Seq<(Seq<char>, bool)>) -> Seq<char>
    decreases spans.len(),
{
    if spans.len() == 0 {
        Seq::empty()
    } else {
        span_text(spans.drop_last()) + spans.last().0
    }
}

/// The texts of the unchanged spans among `spans`, in order.
pub open spec fn unchanged_texts(spans: Seq<(Seq<char>, bool)>) -> Seq<Seq<char>>
    decreases spans.len(),
{
    if spans.len() == 0 {
        Seq::empty()
    } else if spans.last().1 {
        unchanged_texts(spans.drop_last())
    } else {
        unchanged_texts(spans.drop_last()).push(spans.last().0)
    }
}

/// Whether `c` is a white-space character, that is, has the Unicode
/// `White_Space` property (what `char::is_whitespace` tests).
pub open spec fn is_white_space(c: char) -> bool {
    ||| '\u{9}' <= c <= '\u{d}'
    ||| c == ' '
    ||| c == '\u{85}'
    ||| c == '\u{a0}'
    ||| c == '\u{1680}'
    ||| '\u{2000}' <= c <= '\u{200a}'
    ||| c == '\u{2028}'
    ||| c == '\u{2029}'
    ||| c == '\u{202f}'
    ||| c == '\u{205f}'
    ||| c == '\u{3000}'
}

/// Whether some character of `s` is white space.
pub open spec fn has_white_space(s: Seq<char>) -> bool {
    exists|i: int| 0 <= i < s.len() && is_white_space(#[trigger] s[i])
}

/// The pieces that the in-line diff of a line pair is built from: a
/// word-level diff when either side holds white space, otherwise a
/// character-level one.
pub open spec fn inline_changes(old: Seq<char>, new: Seq<char>) -> Seq<(SpanTag, Seq<char>)> {
    if has_white_space(old) || has_white_space(new) {
        word_diff(old, new)
    } else {
        char_diff(old, new)
    }
}

/// Whether `c` is a white-space character.
pub fn is_whitespace(c: char) -> (b: bool)
    ensures
        b == is_white_space(c),
{
    ('\u{9}' <= c && c <= '\u{d}') || c == ' ' || c == '\u{85}' || c == '\u{a0}' || c
        == '\u{1680}' || ('\u{2000}' <= c && c <= '\u{200a}') || c == '\u{2028}' || c == '\u{2029}'
        || c == '\u{202f}' || c == '\u{205f}' || c == '\u{3000}'
}

/// Whether some character of `s` is white space.
pub fn contains_whitespace(s: &str) -> (b: bool)
    ensures
        b == has_white_space(s@),
{
    for c in it: s.chars()
        invariant
            it.seq() == s@,
            forall|j: int| 0 <= j < it.index() ==> !is_white_space(#[trigger] s@[j]),
    {
        if is_whitespace(c) {
            assert(is_white_space(s@[it.index() as int]));
            return true;
        }
    }
    false
}

/// `t` cut into maximal runs of white-space characters and of other
/// characters, in order.
pub open spec fn word_tokens(t: Seq<char>) -> Seq<Seq<char>>
    decreases t.len(),
{
    if t.len() == 0 {
        Seq::empty()
    } else {
        let p = word_tokens(t.drop_last());
        let c = t.last();
        if t.len() > 1 && is_white_space(t[t.len() - 2]) == is_white_space(c) {
            p.update(p.len() - 1, p.last().push(c))
        } else {
            p.push(seq![c])
        }
    }
}

/// `t` cut into single characters.
pub open spec fn char_tokens(t: Seq<char>) -> Seq<Seq<char>> {
    Seq::new(t.len(), |i: int| seq![t[i]])
}

/// The texts of `spans`, in order.
pub open spec fn span_texts(spans: Seq<(Seq<char>, bool)>) -> Seq<Seq<char>> {
    Seq::new(spans.len(), |i: int| spans[i].0)
}

/// The pieces of `ss`, concatenated.
pub open spec fn flatten(ss: Seq<Seq<char>>) -> Seq<char>
    decreases ss.len(),
{
    if ss.len() == 0 {
        Seq::empty()
    } else {
        flatten(ss.drop_last()) + ss.last()
    }
}

/// Whether every piece of a change list is kept on both sides.
pub open spec fn all_kept(cs: Seq<(SpanTag, Seq<char>)>) -> bool {
    forall|i: int| 0 <= i < cs.len() ==> (#[trigger] cs[i]).0 == SpanTag::Equal
}

/// The pieces an in-line diff cuts a line into: runs of white space and of
/// other characters when `words`, otherwise single characters.
pub open spec fn inline_tokens(t: Seq<char>, words: bool) -> Seq<Seq<char>> {
    if words {
        word_tokens(t)
    } else {
        char_tokens(t)
    }
}

/// Whether a line pair is within what the in-line diff accepts: a
/// word-level diff numbers the distinct words with `u32` counters.
pub open spec fn inline_fits(old: Seq<char>, new: Seq<char>) -> bool {
    (has_white_space(old) || has_white_space(new)) ==> old.len() + new.len() <= u32::MAX
}

/// The word-level diff of `old` against `new` (similar's
/// `TextDiff::from_words`, then `iter_all_changes`): each change with its
/// tag and text. Its equal and deleted pieces, in order, are the runs of
/// white space and of other characters that `old` is cut into, its equal
/// and inserted pieces those of `new`, and identical texts give only equal
/// pieces. Inputs of more than `u32::MAX` characters in all are left out:
/// the diff numbers the distinct words of long inputs with `u32` counters.
#[verifier::external_body]
fn word_changes(old: &str, new: &str) -> (res: Vec<TextChange>)
    requires
        old@.len() + new@.len() <= u32::MAX,
    ensures
        changes_view(res@) == word_diff(old@, new@),
        span_texts(left_spans_of(changes_view(res@))) == word_tokens(old@),
        span_texts(right_spans_of(changes_view(res@))) == word_tokens(new@),
        old@ == new@ ==> all_kept(changes_view(res@)),
{
    let mut out = Vec::new();
    for change in TextDiff::from_words(old, new).iter_all_changes() {
        let tag = match change.tag() {
            ChangeTag::Equal => SpanTag::Equal,
            ChangeTag::Delete => SpanTag::Delete,
            ChangeTag::Insert => SpanTag::Insert,
        };
        out.push(TextChange { tag, text: change.value().to_string() });
    }
    out
}

/// The character-level diff of `old` against `new` (similar's
/// `TextDiff::from_chars`, then `iter_all_changes`): each change with its
/// tag and text. Its equal and deleted pieces, in order, are the single
/// characters of `old`, its equal and inserted pieces those of `new`, and
/// identical texts give only equal pieces.
#[verifier::external_body]
fn char_changes(old: &str, new: &str) -> (res: Vec<TextChange>)
    ensures
        changes_view(res@) == char_diff(old@, new@),
        span_texts(left_spans_of(changes_view(res@))) == char_tokens(old@),
        span_texts(right_spans_of(changes_view(res@))) == char_tokens(new@),
        old@ == new@ ==> all_kept(changes_view(res@)),
{
    let mut out = Vec::new();
    for change in TextDiff::from_chars(old, new).iter_all_changes() {
        let tag = match change.tag() {
            ChangeTag::Equal => SpanTag::Equal,
            ChangeTag::Delete => SpanTag::Delete,
            ChangeTag::Insert => SpanTag::Insert,
        };
        out.push(TextChange { tag, text: change.value().to_string() });
    }
    out
}

/// Turns a change list into the spans of the two sides: the left side
/// shows every piece but the insertions, the right side every piece but
/// the deletions, and a piece is marked changed on the side it belongs to
/// alone.
pub fn spans_from_changes(changes: &Vec<TextChange>) -> (res: (Vec<InlineSpan>, Vec<InlineSpan>))
    ensures
        spans_view(res.0@) == left_spans_of(changes_view(changes@)),
        spans_view(res.1@) == right_spans_of(changes_view(changes@)),
{
    let mut left: Vec<InlineSpan> = Vec::new();
    let mut right: Vec<InlineSpan> = Vec::new();
    let n = changes.len();
    for k in 0..n
        invariant
            n == changes@.len(),
            spans_view(left@) == left_spans_of(changes_view(changes@).take(k as int)),
            spans_view(right@) == right_spans_of(changes_view(changes@).take(k as int)),
    {
        let ghost cs = changes_view(changes@);
        proof {
            assert(cs.take(k + 1).drop_last() =~= cs.take(k as int));
            assert(cs.take(k + 1).last() == cs[k as int]);
        }
        let change = &changes[k];
        match change.tag {
            SpanTag::Equal => {
                left.push(InlineSpan { text: change.text.clone(), changed: false });
                right.push(InlineSpan { text: change.text.clone(), changed: false });
            },
            SpanTag::Delete => {
                left.push(InlineSpan { text: change.text.clone(), changed: true });
            },
            SpanTag::Insert => {
                right.push(InlineSpan { text: change.text.clone(), changed: true });
            },
        }
        assert(spans_view(left@) =~= left_spans_of(cs.take(k + 1)));
        assert(spans_view(right@) =~= right_spans_of(cs.take(k + 1)));
    }
    assert(changes_view(changes@).take(n as int) =~= changes_view(changes@));
    (left, right)
}

/// The in-line spans of a replaced line pair: word-level when either side
/// holds white space, otherwise character-level. The left spans are the
/// pieces of `old` and the right spans those of `new`, in order, so that
/// each side's texts make up its line; identical lines give the same
/// unchanged spans on both sides.
pub fn compute_inline_spans(old: &str, new: &str) -> (res: (Vec<InlineSpan>, Vec<InlineSpan>))
    requires
        inline_fits(old@, new@),
    ensures
        spans_view(res.0@) == left_spans_of(inline_changes(old@, new@)),
        spans_view(res.1@) == right_spans_of(inline_changes(old@, new@)),
        span_texts(spans_view(res.0@)) == inline_tokens(
            old@,
            has_white_space(old@) || has_white_space(new@),
        ),
        span_texts(spans_view(res.1@)) == inline_tokens(
            new@,
            has_white_space(old@) || has_white_space(new@),
        ),
        span_text(spans_view(res.0@)) == old@,
        span_text(spans_view(res.1@)) == new@,
        old@ == new@ ==> spans_view(res.0@) == spans_view(res.1@) && forall|i: int|
            0 <= i < res.0@.len() ==> !(#[trigger] res.0@[i]).changed,
        spans_view(res.0@) == (if has_white_space(old@) || has_white_space(new@) {
            word_diff(old@, new@)
        } else {
            char_diff(old@, new@)
        }).filter_map(|c: (SpanTag, Seq<char>)| left_piece(c)),
        spans_view(res.1@) == (if has_white_space(old@) || has_white_space(new@) {
            word_diff(old@, new@)
        } else {
            char_diff(old@, new@)
        }).filter_map(|c: (SpanTag, Seq<char>)| right_piece(c)),
        !(has_white_space(old@) || has_white_space(new@)) ==> res.0@.len() == old@.len()
            && forall|k: int| 0 <= k < old@.len() ==> (#[trigger] res.0@[k]).text@ == seq![old@[k]],
        !(has_white_space(old@) || has_white_space(new@)) ==> res.1@.len() == new@.len()
            && forall|k: int| 0 <= k < new@.len() ==> (#[trigger] res.1@[k]).text@ == seq![new@[k]],
{
    let use_words = contains_whitespace(old) || contains_whitespace(new);
    let changes = if use_words {
        word_changes(old, new)
    } else {
        char_changes(old, new)
    };
    let res = spans_from_changes(&changes);
    proof {
        let cs = changes_view(changes@);
        lemma_tokens_rebuild(old@);
        lemma_tokens_rebuild(new@);
        lemma_span_text_flatten(left_spans_of(cs));
        lemma_span_text_flatten(right_spans_of(cs));
        lemma_spans_are_pieces(cs);
        if !use_words {
            assert forall|k: int| 0 <= k < old@.len() implies (#[trigger] res.0@[k]).text@ == seq![old@[k]] by {
                assert(spans_view(res.0@)[k] == res.0@[k]@);
                assert(span_texts(spans_view(res.0@))[k] == char_tokens(old@)[k]);
            }
            assert forall|k: int| 0 <= k < new@.len() implies (#[trigger] res.1@[k]).text@ == seq![new@[k]] by {
                assert(spans_view(res.1@)[k] == res.1@[k]@);
                assert(span_texts(spans_view(res.1@))[k] == char_tokens(new@)[k]);
            }
        }
        if old@ == new@ {
            lemma_kept_spans(cs);
            assert forall|i: int| 0 <= i < res.0@.len() implies !(#[trigger] res.0@[i]).changed by {
                assert(spans_view(res.0@)[i] == res.0@[i]@);
            }
        }
    }
    res
}

/// The spans of each side are the diff's own pieces, in order, each taken
/// by its tag: kept pieces unchanged on both sides, deleted pieces changed
/// on the left only, inserted pieces changed on the right only.
pub proof fn lemma_spans_are_pieces(cs: Seq<(SpanTag, Seq<char>)>)
    ensures
        left_spans_of(cs) == cs.filter_map(|c: (SpanTag, Seq<char>)| left_piece(c)),
        right_spans_of(cs) == cs.filter_map(|c: (SpanTag, Seq<char>)| right_piece(c)),
    decreases cs.len(),
{
    if cs.len() > 0 {
        lemma_spans_are_pieces(cs.drop_last());
        let l = cs.drop_last().filter_map(|c: (SpanTag, Seq<char>)| left_piece(c));
        let r = cs.drop_last().filter_map(|c: (SpanTag, Seq<char>)| right_piece(c));
        let c = cs.last();
        if c.0 != SpanTag::Insert {
            assert(l.push((c.1, c.0 == SpanTag::Delete)) =~= l + seq![(c.1, c.0 == SpanTag::Delete)]);
        }
        if c.0 != SpanTag::Delete {
            assert(r.push((c.1, c.0 == SpanTag::Insert)) =~= r + seq![(c.1, c.0 == SpanTag::Insert)]);
        }
    }
}

/// The texts of spans concatenate to their joined pieces.
proof fn lemma_span_text_flatten(spans: Seq<(Seq<char>, bool)>)
    ensures
        span_text(spans) == flatten(span_texts(spans)),
    decreases spans.len(),
{
    if spans.len() > 0 {
        lemma_span_text_flatten(spans.drop_last());
        assert(span_texts(spans).drop_last() =~= span_texts(spans.drop_last()));
    }
}

/// Both cuttings of a text are into non-empty pieces that make up the
/// text again.
pub proof fn lemma_tokens_rebuild(t: Seq<char>)
    ensures
        flatten(word_tokens(t)) == t,
        flatten(char_tokens(t)) == t,
        forall|i: int| 0 <= i < word_tokens(t).len() ==> #[trigger] word_tokens(t)[i].len() > 0,
        t.len() > 0 ==> word_tokens(t).len() > 0,
    decreases t.len(),
{
    if t.len() == 0 {
        assert(char_tokens(t) =~= Seq::<Seq<char>>::empty());
    } else {
        let q = t.drop_last();
        let c = t.last();
        lemma_tokens_rebuild(q);
        let p = word_tokens(q);
        let w = word_tokens(t);
        if t.len() > 1 && is_white_space(t[t.len() - 2]) == is_white_space(c) {
            assert(w.drop_last() =~= p.drop_last());
            assert(flatten(p) == flatten(p.drop_last()) + p.last());
            assert(flatten(w) == flatten(p.drop_last()) + p.last().push(c));
            assert(flatten(p.drop_last()) + p.last().push(c) =~= (flatten(p.drop_last())
                + p.last()).push(c));
            assert(q.push(c) =~= t);
            assert forall|i: int| 0 <= i < w.len() implies #[trigger] w[i].len() > 0 by {
                if i < w.len() - 1 {
                    assert(w[i] == p[i]);
                }
            }
        } else {
            assert(w.drop_last() =~= p);
            assert(q + seq![c] =~= t);
            assert forall|i: int| 0 <= i < w.len() implies #[trigger] w[i].len() > 0 by {
                if i < w.len() - 1 {
                    assert(w[i] == p[i]);
                }
            }
        }
        assert(char_tokens(t).drop_last() =~= char_tokens(q));
        assert(q + char_tokens(t).last() =~= t);
    }
}

/// A change list that keeps every piece shows the same unchanged spans on
/// both sides.
pub proof fn lemma_kept_spans(cs: Seq<(SpanTag, Seq<char>)>)
    requires
        all_kept(cs),
    ensures
        left_spans_of(cs) == right_spans_of(cs),
        forall|i: int| 0 <= i < left_spans_of(cs).len() ==> !(#[trigger] left_spans_of(cs)[i]).1,
    decreases cs.len(),
{
    if cs.len() > 0 {
        let p = cs.drop_last();
        assert(all_kept(p)) by {
            assert forall|i: int| 0 <= i < p.len() implies (#[trigger] p[i]).0 == SpanTag::Equal by {
                assert(p[i] == cs[i]);
            }
        }
        lemma_kept_spans(p);
        assert(cs[cs.len() - 1] == cs.last());
        let l = left_spans_of(cs);
        assert forall|i: int| 0 <= i < l.len() implies !(#[trigger] l[i]).1 by {
            if i < l.len() - 1 {
                assert(l[i] == left_spans_of(p)[i]);
            }
        }
    }
}

/// The unchanged fragments read the same on both sides: they are the
/// pieces the diff kept, in order.
pub proof fn lemma_unchanged_spans_agree(cs: Seq<(SpanTag, Seq<char>)>)
    ensures
        unchanged_texts(left_spans_of(cs)) == unchanged_texts(right_spans_of(cs)),
    decreases cs.len(),
{
    if cs.len() > 0 {
        lemma_unchanged_spans_agree(cs.drop_last());
        let (tag, text) = cs.last();
        let l = left_spans_of(cs.drop_last());
        let r = right_spans_of(cs.drop_last());
        if tag == SpanTag::Equal {
            assert(l.push((text, false)).drop_last() =~= l);
            assert(r.push((text, false)).drop_last() =~= r);
        } else if tag == SpanTag::Delete {
            assert(l.push((text, true)).drop_last() =~= l);
        } else {
            assert(r.push((text, true)).drop_last() =~= r);
        }
    }
}

} // verus!
