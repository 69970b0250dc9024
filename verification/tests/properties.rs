use diff_local::inline::{
    compute_inline_spans, contains_whitespace, is_whitespace, spans_from_changes, SpanTag,
    TextChange,
};
use diff_local::report::{check_file_size, decode_text, mib_text};
use diff_local::rows::{row, rows_from_ops, LineOp};
use diff_local::text::{split_lines, strip_cr};
use diff_local::{compute_diff_files, compute_text_diff, DiffError, RowKind, MAX_BYTES, WARN_BYTES};

fn joined(spans: &[diff_local::InlineSpan]) -> String {
    spans.iter().map(|s| s.text.as_str()).collect()
}

#[test]
fn split_lines_pieces() {
    assert_eq!(split_lines(""), Vec::<String>::new());
    assert_eq!(split_lines("a"), vec!["a".to_string()]);
    assert_eq!(split_lines("a\n"), vec!["a".to_string()]);
    assert_eq!(split_lines("\n"), vec!["".to_string()]);
    assert_eq!(split_lines("a\n\nb"), vec!["a".to_string(), "".to_string(), "b".to_string()]);
    assert_eq!(split_lines("a\nb\n\n"), vec!["a".to_string(), "b".to_string(), "".to_string()]);
}

#[test]
fn split_lines_rejoin() {
    for text in ["", "x", "x\n", "\n\n", "a\r\nb\r\n", "one\ntwo\nthree", "é\nü\n"] {
        let lines = split_lines(text);
        let mut back = lines.join("\n");
        if text.ends_with('\n') {
            back.push('\n');
        }
        assert_eq!(back, text);
        assert!(lines.iter().all(|l| !l.contains('\n')));
    }
}

#[test]
fn strip_cr_once() {
    assert_eq!(strip_cr("a\r"), "a");
    assert_eq!(strip_cr("a\r\r"), "a\r");
    assert_eq!(strip_cr("a"), "a");
    assert_eq!(strip_cr(""), "");
    assert_eq!(strip_cr("\r"), "");
}

#[test]
fn whitespace_matches_std() {
    for u in 0u32..=0x10FFFF {
        if let Some(c) = char::from_u32(u) {
            assert_eq!(is_whitespace(c), c.is_whitespace(), "U+{:04X}", u);
        }
    }
    assert!(contains_whitespace("a b"));
    assert!(contains_whitespace("a\u{3000}b"));
    assert!(!contains_whitespace("ab"));
    assert!(!contains_whitespace(""));
}

#[test]
fn spans_split_changes_by_side() {
    let changes = vec![
        TextChange { tag: SpanTag::Equal, text: "a".to_string() },
        TextChange { tag: SpanTag::Delete, text: "b".to_string() },
        TextChange { tag: SpanTag::Insert, text: "c".to_string() },
        TextChange { tag: SpanTag::Equal, text: "d".to_string() },
    ];
    let (left, right) = spans_from_changes(&changes);
    let l: Vec<(&str, bool)> = left.iter().map(|s| (s.text.as_str(), s.changed)).collect();
    let r: Vec<(&str, bool)> = right.iter().map(|s| (s.text.as_str(), s.changed)).collect();
    assert_eq!(l, vec![("a", false), ("b", true), ("d", false)]);
    assert_eq!(r, vec![("a", false), ("c", true), ("d", false)]);
}

#[test]
fn inline_spans_rebuild_both_sides() {
    for (old, new) in [("hello", "hallo"), ("alpha beta", "alpha gamma"), ("", "x"), ("same", "same")] {
        let (left, right) = compute_inline_spans(old, new);
        assert_eq!(joined(&left), old);
        assert_eq!(joined(&right), new);
        let lu: Vec<&str> = left.iter().filter(|s| !s.changed).map(|s| s.text.as_str()).collect();
        let ru: Vec<&str> = right.iter().filter(|s| !s.changed).map(|s| s.text.as_str()).collect();
        assert_eq!(lu, ru);
    }
}

#[test]
fn inline_char_level_pieces() {
    let (left, right) = compute_inline_spans("hello", "hallo");
    let l: Vec<(&str, bool)> = left.iter().map(|s| (s.text.as_str(), s.changed)).collect();
    let r: Vec<(&str, bool)> = right.iter().map(|s| (s.text.as_str(), s.changed)).collect();
    assert_eq!(l, vec![("h", false), ("e", true), ("l", false), ("l", false), ("o", false)]);
    assert_eq!(r, vec![("h", false), ("a", true), ("l", false), ("l", false), ("o", false)]);
}

#[test]
fn inline_word_level_pieces() {
    let (left, right) = compute_inline_spans("alpha beta gamma", "alpha BETA gamma");
    assert_eq!(left.len(), 5);
    assert_eq!(left[2].text, "beta");
    assert!(left[2].changed);
    assert_eq!(right[2].text, "BETA");
    assert!(right[2].changed);
    assert!(!left[1].changed && left[1].text == " ");
}

#[test]
fn row_spans_only_for_replace() {
    let r = row(RowKind::Replace, Some(1), Some(1), Some("ab".to_string()), Some("ac".to_string()));
    assert_eq!(joined(r.left_spans.as_ref().unwrap()), "ab");
    assert_eq!(joined(r.right_spans.as_ref().unwrap()), "ac");
    let d = row(RowKind::Delete, Some(2), None, Some("x".to_string()), None);
    assert!(d.left_spans.is_none() && d.right_spans.is_none());
    let e = row(RowKind::Equal, Some(3), Some(4), Some("y".to_string()), Some("y".to_string()));
    assert!(e.left_spans.is_none() && e.right_spans.is_none());
}

#[test]
fn rows_of_uneven_replace() {
    let left = vec!["a".to_string(), "b".to_string(), "c".to_string()];
    let right = vec!["x".to_string(), "c".to_string()];
    let ops = vec![
        LineOp::Replace { old_index: 0, old_len: 2, new_index: 0, new_len: 1 },
        LineOp::Equal { old_index: 2, new_index: 1, len: 1 },
    ];
    let (rows, stats, changes) = rows_from_ops(&left, &right, &ops);
    let kinds: Vec<RowKind> = rows.iter().map(|r| r.kind).collect();
    assert_eq!(kinds, vec![RowKind::Replace, RowKind::Delete, RowKind::Equal]);
    assert_eq!(rows[1].left_no, Some(2));
    assert_eq!(rows[1].right_no, None);
    assert_eq!(rows[2].left_no, Some(3));
    assert_eq!(rows[2].right_no, Some(2));
    assert_eq!((stats.equal, stats.insert, stats.delete, stats.replace, stats.total_rows), (1, 0, 1, 1, 3));
    assert_eq!(changes, vec![0, 1]);
}

#[test]
fn rows_cover_both_inputs() {
    let left = "a\nb\nc\nd\ne\n";
    let right = "a\nx\nc\ne\nf\ng\n";
    let (rows, stats, changes) = compute_text_diff(left, right);
    let l: Vec<(u32, &str)> = rows
        .iter()
        .filter_map(|r| r.left_text.as_deref().map(|t| (r.left_no.unwrap(), t)))
        .collect();
    let r: Vec<(u32, &str)> = rows
        .iter()
        .filter_map(|r| r.right_text.as_deref().map(|t| (r.right_no.unwrap(), t)))
        .collect();
    assert_eq!(l, vec![(1, "a"), (2, "b"), (3, "c"), (4, "d"), (5, "e")]);
    assert_eq!(r, vec![(1, "a"), (2, "x"), (3, "c"), (4, "e"), (5, "f"), (6, "g")]);
    for (i, row) in rows.iter().enumerate() {
        assert_eq!(row.left_no.is_some(), row.left_text.is_some());
        assert_eq!(row.right_no.is_some(), row.right_text.is_some());
        if row.kind == RowKind::Equal {
            assert_eq!(row.left_text, row.right_text);
        }
        assert_eq!(changes.contains(&i), row.kind != RowKind::Equal);
    }
    assert!(changes.windows(2).all(|w| w[0] < w[1]));
    assert_eq!(stats.equal + stats.insert + stats.delete + stats.replace, stats.total_rows);
    assert_eq!(stats.total_rows, rows.len());
}

#[test]
fn identical_texts_all_equal() {
    let text = "x\ny\n\nz";
    let (rows, stats, changes) = compute_text_diff(text, text);
    assert_eq!(rows.len(), 4);
    assert!(rows.iter().all(|r| r.kind == RowKind::Equal));
    assert_eq!(stats.equal, 4);
    assert!(changes.is_empty());
}

#[test]
fn one_side_empty() {
    let (rows, stats, changes) = compute_text_diff("", "a\nb\n");
    assert_eq!(stats.insert, 2);
    assert_eq!(changes, vec![0, 1]);
    assert!(rows.iter().all(|r| r.left_text.is_none() && r.left_spans.is_none()));
    let (rows, stats, _) = compute_text_diff("a\n", "");
    assert_eq!(stats.delete, 1);
    assert_eq!(rows[0].left_no, Some(1));
}

#[test]
fn mib_text_matches_float_formatting() {
    let mut sizes: Vec<u64> = vec![
        0, 1, 1023, 1024, 52_428, 262_144, 786_432, 1_048_576, 1_101_004, 104_857_600,
        104_857_601, 110_100_480, 5_242_880_000, u64::MAX, u64::MAX - 1,
        (1u64 << 53) - 1, 1u64 << 53, (1u64 << 53) + 1, (1u64 << 54) + 2, (1u64 << 54) + 6,
        (1u64 << 63) + 1024, (1u64 << 63) + 1023, (1u64 << 63) + 3072,
    ];
    let mut x: u64 = 12345;
    for _ in 0..2000 {
        x = x.wrapping_mul(6364136223846793005).wrapping_add(1442695040888963407);
        sizes.push(x >> (x % 60));
        sizes.push((x % 4096) * 26_214);
    }
    for k in 0..200u64 {
        sizes.push(k * 52_428 + 26_214);
        sizes.push(k * 104_857 + (k % 7));
    }
    for size in sizes {
        let expected = format!("{:.1}", size as f64 / (1024.0 * 1024.0));
        assert_eq!(mib_text(size), expected, "size {}", size);
    }
}

#[test]
fn too_large_message_text() {
    let err = DiffError::TooLarge { path: "/tmp/big.txt".to_string(), size: 110_100_480 };
    assert_eq!(
        err.message(),
        "Il file «/tmp/big.txt» è troppo grande (105.0 MiB). Limite massimo: 100 MiB."
    );
    let err = DiffError::Io("boom".to_string());
    assert_eq!(err.message(), "boom");
}

#[test]
fn size_limit_boundary() {
    assert!(check_file_size("a", MAX_BYTES).is_ok());
    assert!(check_file_size("a", 0).is_ok());
    match check_file_size("a", MAX_BYTES + 1) {
        Err(DiffError::TooLarge { path, size }) => {
            assert_eq!(path, "a");
            assert_eq!(size, MAX_BYTES + 1);
        },
        other => panic!("unexpected {:?}", other),
    }
}

#[test]
fn decode_text_utf8_and_lossy() {
    assert_eq!(decode_text("città\n".as_bytes().to_vec()), "città\n");
    assert_eq!(decode_text(vec![b'a', 0xE8, b'b']), "a\u{FFFD}b");
    assert_eq!(decode_text(Vec::new()), "");
}

#[test]
fn warning_above_soft_limit() {
    let r = compute_diff_files("l", "r", "a\n", WARN_BYTES + 1, "a\n", 2);
    assert_eq!(
        r.warning.as_deref(),
        Some("Uno o entrambi i file superano 50 MiB: il calcolo del diff può richiedere più memoria e tempo.")
    );
    let r = compute_diff_files("l", "r", "a\n", WARN_BYTES, "a\n", WARN_BYTES);
    assert!(r.warning.is_none());
    assert_eq!(r.left_path, "l");
    assert_eq!(r.right_path, "r");
    assert_eq!(r.left_bytes, WARN_BYTES);
    assert_eq!(r.stats.equal, 1);
}

#[test]
fn inline_identical_all_unchanged() {
    for s in ["", "abc", "two words here", "  lead"] {
        let (left, right) = compute_inline_spans(s, s);
        assert_eq!(left, right);
        assert!(left.iter().all(|sp| !sp.changed));
        assert_eq!(joined(&left), s);
    }
}

#[test]
fn inline_span_granularity() {
    // Word level: one span per run of white space or of other characters.
    let (left, right) = compute_inline_spans("ab  cd\te", "ab x");
    let l: Vec<&str> = left.iter().map(|s| s.text.as_str()).collect();
    let r: Vec<&str> = right.iter().map(|s| s.text.as_str()).collect();
    assert_eq!(l, vec!["ab", "  ", "cd", "\t", "e"]);
    assert_eq!(r, vec!["ab", " ", "x"]);
    // Character level: one span per character.
    let (left, right) = compute_inline_spans("héllo", "hallo!");
    let l: Vec<&str> = left.iter().map(|s| s.text.as_str()).collect();
    let r: Vec<&str> = right.iter().map(|s| s.text.as_str()).collect();
    assert_eq!(l, vec!["h", "é", "l", "l", "o"]);
    assert_eq!(r, vec!["h", "a", "l", "l", "o", "!"]);
}

#[test]
fn split_lines_count() {
    for text in ["a", "a\n", "\n", "a\n\nb", "a\nb\n\n", "x\r\ny"] {
        let newlines = text.matches('\n').count();
        let expected = newlines + if text.ends_with('\n') { 0 } else { 1 };
        assert_eq!(split_lines(text).len(), expected, "{:?}", text);
    }
}

#[test]
fn row_kinds_match_texts() {
    let (rows, _, _) = compute_text_diff("a\nb\nc\nd\n", "a\nx\ny\nz\nd\ne\n");
    assert!(rows.iter().any(|r| r.kind == RowKind::Replace));
    assert!(rows.iter().any(|r| r.kind == RowKind::Insert));
    for r in &rows {
        assert_eq!(r.kind == RowKind::Insert, r.left_text.is_none());
        assert_eq!(r.kind == RowKind::Delete, r.right_text.is_none());
        assert_eq!(r.left_spans.is_some(), r.kind == RowKind::Replace);
        assert_eq!(r.right_spans.is_some(), r.kind == RowKind::Replace);
    }
}
