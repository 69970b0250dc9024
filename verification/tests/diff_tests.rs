use diff_local::{compute_diff_files, compute_text_diff, RowKind};

#[test]
fn identical_files() {
    let (rows, stats, changes) = compute_text_diff("a\nb\nc\n", "a\nb\nc\n");
    assert_eq!(stats.equal, 3);
    assert_eq!(stats.insert, 0);
    assert_eq!(stats.delete, 0);
    assert_eq!(stats.replace, 0);
    assert!(changes.is_empty());
    assert_eq!(rows.len(), 3);
    assert_eq!(rows[0].kind, RowKind::Equal);
}

#[test]
fn insert_lines() {
    let (rows, stats, changes) = compute_text_diff("a\nc\n", "a\nb\nc\n");
    assert_eq!(stats.insert, 1);
    assert_eq!(stats.equal, 2);
    assert_eq!(changes.len(), 1);
    assert!(rows.iter().any(|r| r.kind == RowKind::Insert));
    let insert = rows.iter().find(|r| r.kind == RowKind::Insert).unwrap();
    assert_eq!(insert.right_text.as_deref(), Some("b"));
    assert!(insert.left_text.is_none());
}

#[test]
fn delete_lines() {
    let (rows, stats, _) = compute_text_diff("a\nb\nc\n", "a\nc\n");
    assert_eq!(stats.delete, 1);
    assert_eq!(stats.equal, 2);
    let del = rows.iter().find(|r| r.kind == RowKind::Delete).unwrap();
    assert_eq!(del.left_text.as_deref(), Some("b"));
    assert!(del.right_text.is_none());
}

#[test]
fn replace_lines() {
    let (rows, stats, changes) = compute_text_diff("hello\nworld\n", "hello\nplanet\n");
    assert_eq!(stats.equal, 1);
    assert!(stats.replace >= 1 || stats.delete + stats.insert >= 1);
    assert!(!changes.is_empty());
    assert!(rows.iter().any(|r| {
        matches!(r.kind, RowKind::Replace | RowKind::Delete | RowKind::Insert)
    }));
}

#[test]
fn inline_highlights_within_line() {
    let (rows, stats, _) = compute_text_diff("alpha beta gamma\n", "alpha BETA gamma\n");
    assert_eq!(stats.replace, 1);
    let row = rows.iter().find(|r| r.kind == RowKind::Replace).unwrap();
    let left = row.left_spans.as_ref().expect("left spans");
    let right = row.right_spans.as_ref().expect("right spans");
    assert!(left.iter().any(|s| s.changed && s.text.contains("beta")));
    assert!(right.iter().any(|s| s.changed && s.text.contains("BETA")));
    assert!(left.iter().any(|s| !s.changed && s.text.contains("alpha")));
    assert!(right.iter().any(|s| !s.changed && s.text.contains("gamma")));
}

#[test]
fn inline_char_level_without_spaces() {
    let (rows, _, _) = compute_text_diff("hello\n", "hallo\n");
    let row = rows.iter().find(|r| r.kind == RowKind::Replace).unwrap();
    let left = row.left_spans.as_ref().unwrap();
    let right = row.right_spans.as_ref().unwrap();
    assert!(left.iter().any(|s| s.changed));
    assert!(right.iter().any(|s| s.changed));
    let left_joined: String = left.iter().map(|s| s.text.as_str()).collect();
    let right_joined: String = right.iter().map(|s| s.text.as_str()).collect();
    assert_eq!(left_joined, "hello");
    assert_eq!(right_joined, "hallo");
}

#[test]
fn empty_both() {
    let (rows, stats, changes) = compute_text_diff("", "");
    assert!(rows.is_empty());
    assert_eq!(stats.total_rows, 0);
    assert!(changes.is_empty());
}

#[test]
fn crlf_normalized() {
    let (rows, stats, _) = compute_text_diff("a\r\nb\r\n", "a\nb\n");
    assert_eq!(stats.equal, 2);
    assert_eq!(rows[0].left_text.as_deref(), Some("a"));
    assert_eq!(rows[0].right_text.as_deref(), Some("a"));
}

#[test]
fn large_file_smoke() {
    // ~20k lines with sparse edits — ensures the path stays responsive.
    let mut left = String::with_capacity(400_000);
    let mut right = String::with_capacity(400_000);
    for i in 0..20_000 {
        left.push_str(&format!("line-{i}-common-content\n"));
        if i % 500 == 0 {
            right.push_str(&format!("line-{i}-CHANGED-content\n"));
        } else {
            right.push_str(&format!("line-{i}-common-content\n"));
        }
    }
    let (rows, stats, changes) = compute_text_diff(&left, &right);
    assert_eq!(rows.len(), 20_000);
    assert_eq!(stats.replace, 40); // 0,500,...,19500 => 40 replacements
    assert_eq!(changes.len(), 40);
}

#[test]
fn compute_diff_files_roundtrip() {
    // The file contents are handed over as read; reading stays with the caller.
    let left = "one\ntwo\nthree\n";
    let right = "one\nTWO\nthree\nfour\n";
    let result = compute_diff_files(
        "left.txt",
        "right.txt",
        left,
        left.len() as u64,
        right,
        right.len() as u64,
    );

    assert_eq!(result.stats.equal, 2);
    assert!(result.stats.replace >= 1 || result.stats.delete + result.stats.insert >= 1);
    assert!(result.stats.insert >= 1);
    assert!(!result.change_indices.is_empty());
    assert!(result.warning.is_none());
}
