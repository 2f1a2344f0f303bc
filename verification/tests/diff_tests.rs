use pi_coding_agent::diff::{apply_unified_diff, DiffSummary};

fn make_diff(hunks: &[&str]) -> String {
    hunks.join("\n")
}

#[test]
fn simple_add_inserts_line() {
    let original = "line one\nline two\nline three\n";
    let diff = make_diff(&["@@ -1,3 +1,4 @@", " line one", "+inserted line", " line two", " line three"]);
    let (result, summary) = apply_unified_diff(original, &diff).expect("apply failed");
    assert_eq!(result, "line one\ninserted line\nline two\nline three\n");
    assert_eq!(summary, DiffSummary { lines_added: 1, lines_removed: 0, hunks_applied: 1 });
}

#[test]
fn simple_remove_deletes_line() {
    let original = "alpha\nbeta\ngamma\n";
    let diff = make_diff(&["@@ -1,3 +1,2 @@", " alpha", "-beta", " gamma"]);
    let (result, summary) = apply_unified_diff(original, &diff).expect("apply failed");
    assert_eq!(result, "alpha\ngamma\n");
    assert_eq!(summary, DiffSummary { lines_added: 0, lines_removed: 1, hunks_applied: 1 });
}

#[test]
fn replace_substitutes_line() {
    let original = "fn old_name() {\n    // body\n}\n";
    let diff = make_diff(&["@@ -1,3 +1,3 @@", "-fn old_name() {", "+fn new_name() {", "     // body", " }"]);
    let (result, summary) = apply_unified_diff(original, &diff).expect("apply failed");
    assert_eq!(result, "fn new_name() {\n    // body\n}\n");
    assert_eq!(summary, DiffSummary { lines_added: 1, lines_removed: 1, hunks_applied: 1 });
}

#[test]
fn multi_hunk_applies_both_changes() {
    let original = (1..=10).map(|i| format!("line {}\n", i)).collect::<String>();
    let diff = make_diff(&[
        "@@ -2,1 +2,1 @@",
        "-line 2",
        "+LINE TWO",
        "@@ -8,2 +8,3 @@",
        " line 8",
        "+extra line",
        " line 9",
    ]);
    let (result, summary) = apply_unified_diff(&original, &diff).expect("apply failed");
    let expected = "line 1\nLINE TWO\nline 3\nline 4\nline 5\nline 6\nline 7\nline 8\nextra line\nline 9\nline 10\n";
    assert_eq!(result, expected);
    assert_eq!(summary, DiffSummary { lines_added: 2, lines_removed: 1, hunks_applied: 2 });
}

#[test]
fn context_mismatch_returns_error() {
    let original = "foo\nbar\nbaz\n";
    let diff = make_diff(&["@@ -1,3 +1,3 @@", " foo", " WRONG", " baz"]);
    let err = apply_unified_diff(original, &diff).expect_err("should have failed");
    assert!(err.contains("context mismatch"), "error should mention context mismatch, got: {err}");
}

#[test]
fn remove_mismatch_returns_error() {
    let original = "hello\nworld\n";
    let diff = make_diff(&["@@ -1,2 +1,1 @@", "-NONEXISTENT", " world"]);
    let err = apply_unified_diff(original, &diff).expect_err("should have failed");
    assert!(err.contains("remove mismatch"), "error should mention remove mismatch, got: {err}");
}

#[test]
fn diff_on_file_without_trailing_newline() {
    let original = "a\nb\nc";
    let diff = make_diff(&["@@ -2,1 +2,1 @@", "-b", "+B"]);
    let (result, summary) = apply_unified_diff(original, &diff).expect("apply failed");
    assert!(result.contains("B\n"), "result should contain replaced line");
    assert!(result.contains('c'), "result should still contain 'c'");
    assert_eq!(summary, DiffSummary { lines_added: 1, lines_removed: 1, hunks_applied: 1 });
}

#[test]
fn empty_diff_returns_error() {
    let original = "some content\n";
    let diff = "--- a/file\n+++ b/file\n";
    let err = apply_unified_diff(original, diff).expect_err("should fail on empty diff");
    assert!(err.contains("no hunks"), "error should mention missing hunks, got: {err}");
}

#[test]
fn pure_insertion_hunk_at_start() {
    let original = "existing\n";
    let diff = "@@ -0,0 +1,2 @@\n+first\n+second\n";
    let (result, summary) = apply_unified_diff(original, diff).expect("apply failed");
    assert_eq!(result, "first\nsecond\nexisting\n");
    assert_eq!(summary, DiffSummary { lines_added: 2, lines_removed: 0, hunks_applied: 1 });
}

#[test]
fn diff_with_file_headers_ignored() {
    let original = "x\ny\n";
    let diff = "--- a/file.txt\n+++ b/file.txt\n@@ -1,2 +1,2 @@\n-x\n+X\n y\n";
    let (result, summary) = apply_unified_diff(original, diff).expect("apply failed");
    assert_eq!(result, "X\ny\n");
    assert_eq!(summary, DiffSummary { lines_added: 1, lines_removed: 1, hunks_applied: 1 });
}

#[test]
fn diff_error_messages_are_exact() {
    assert_eq!(
        apply_unified_diff("foo\nbar\n", "@@ -1,2 +1,2 @@\n foo\n WRONG\n").unwrap_err(),
        "context mismatch at original line 2: expected \"WRONG\", got \"bar\""
    );
    assert_eq!(
        apply_unified_diff("foo\n", "@@ -1,2 +1,2 @@\n foo\n-bar\n").unwrap_err(),
        "remove mismatch: expected \"bar\" but reached end of file"
    );
    assert_eq!(
        apply_unified_diff("a\n", "@@ -5,1 +5,1 @@\n a\n").unwrap_err(),
        "hunk at old line 5 references line 2 which is past end of file (1 lines)"
    );
    assert_eq!(
        apply_unified_diff("a\n", "@@ -1,3 +1,3 @@\n a\n").unwrap_err(),
        "hunk at old line 1 declares old_count=3 but has 1 context/remove lines"
    );
    assert_eq!(
        apply_unified_diff("a\n", "@@ x y @@\n a\n").unwrap_err(),
        "malformed hunk header: \"@@ x y @@\""
    );
}

#[test]
fn diff_header_forms() {
    // A missing count means one line; a `+` sign is accepted by the number parser.
    let (r, s) = apply_unified_diff("a\nb\n", "@@ -2 +2 @@\n-b\n+c\n").unwrap();
    assert_eq!(r, "a\nc\n");
    assert_eq!(s, DiffSummary { lines_added: 1, lines_removed: 1, hunks_applied: 1 });
    let (r, _) = apply_unified_diff("a\nb\n", "@@ -+2,+1 +2 @@\n-b\n").unwrap();
    assert_eq!(r, "a\n");
}

#[test]
fn diff_keeps_crlf_terminators_of_untouched_lines() {
    let (r, _) = apply_unified_diff("a\r\nb\r\nc\r\n", "@@ -2,1 +2,1 @@\n-b\n+B\n").unwrap();
    assert_eq!(r, "a\r\nB\nc\r\n");
}
