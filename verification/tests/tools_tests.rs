use pi_coding_agent::diff::DiffSummary;
use pi_coding_agent::tools::{
    bash_result, build_binary_jsonrpc_result, build_plain_result, diff_applied_message,
    diff_failed_message, edit_request, failed_run_result, find_result, grep_result, ls_listing,
    read_output, replace_message, replace_once, write_message, EditRequest, JsonRpcFields,
    LsEntry, ReplaceOutcome,
};

#[test]
fn bash_output_assembly() {
    let r = bash_result("out", "", true, Some(0));
    assert_eq!(r.content, "out");
    assert!(!r.is_error);
    let r = bash_result("", "", false, Some(2));
    assert_eq!(r.content, "(no output)\nExit code: 2");
    assert!(r.is_error);
    let r = bash_result("a", "b", false, None);
    assert_eq!(r.content, "a\nSTDERR:\nb\nExit code: -1");
}

#[test]
fn plain_and_failed_results() {
    assert_eq!(build_plain_result("  \n", "").content, "(no output)");
    assert_eq!(build_plain_result("x", "  ").content, "x");
    assert_eq!(build_plain_result("", "oops").content, "STDERR:\noops");
    let f = failed_run_result("", "err", Some(-3));
    assert!(f.is_error);
    assert_eq!(f.content, "STDERR:\nerr\nExit code: -3");
}

fn fields() -> JsonRpcFields {
    JsonRpcFields { parsed: true, error: None, result: None, output: None, success: None }
}

#[test]
fn binary_jsonrpc_result_parses_result() {
    let stdout = r#"{"jsonrpc":"2.0","id":"1","result":{"ok":true}}"#;
    let f = JsonRpcFields { result: Some((false, r#"{"ok":true}"#.to_string())), ..fields() };
    let result = build_binary_jsonrpc_result(stdout, "", f);
    assert!(!result.is_error);
    assert_eq!(result.content, r#"{"ok":true}"#);
}

#[test]
fn binary_jsonrpc_error_and_output() {
    let f = JsonRpcFields { error: Some("\"bad\"".to_string()), result: Some((true, "r".to_string())), ..fields() };
    let r = build_binary_jsonrpc_result("{}", "", f);
    assert!(r.is_error);
    assert_eq!(r.content, "Binary tool error: \"bad\"");
    let f = JsonRpcFields { output: Some("done".to_string()), success: Some(false), ..fields() };
    let r = build_binary_jsonrpc_result("{}", "", f);
    assert!(r.is_error);
    assert_eq!(r.content, "done");
    let f = JsonRpcFields { parsed: false, ..fields() };
    assert_eq!(build_binary_jsonrpc_result("not json", "", f).content, "not json");
}

#[test]
fn read_numbers_lines_with_offset_and_limit() {
    let content = "a\nb\nc\n";
    assert_eq!(read_output(content, 1, None), "     1\ta\n     2\tb\n     3\tc\n");
    assert_eq!(read_output(content, 2, Some(1)), "     2\tb\n");
    assert_eq!(read_output(content, 9, None), "(empty file)");
    assert_eq!(read_output("", 1, None), "(empty file)");
    assert_eq!(read_output(content, 0, Some(1)), "     1\ta\n");
}

#[test]
fn edit_request_modes() {
    assert_eq!(edit_request(Some("d"), Some("o"), None), EditRequest::Conflict);
    assert_eq!(edit_request(Some("d"), None, None), EditRequest::Diff("d".to_string()));
    assert_eq!(edit_request(None, None, Some("n")), EditRequest::MissingOldText);
    assert_eq!(edit_request(None, Some("o"), None), EditRequest::MissingNewText);
    assert_eq!(
        edit_request(None, Some("o"), Some("n")),
        EditRequest::Replace { old_text: "o".to_string(), new_text: "n".to_string() }
    );
}

#[test]
fn replace_once_outcomes() {
    assert_eq!(replace_once("abc", "x", "y"), ReplaceOutcome::NotFound);
    assert_eq!(replace_once("abab", "ab", "y"), ReplaceOutcome::Ambiguous(2));
    assert_eq!(replace_once("aaa", "aa", "y"), ReplaceOutcome::Replaced { content: "ya".to_string(), line: 1 });
    assert_eq!(
        replace_once("one\ntwo\nthree\n", "two", "2"),
        ReplaceOutcome::Replaced { content: "one\n2\nthree\n".to_string(), line: 2 }
    );
    assert_eq!(replace_once("", "", "new"), ReplaceOutcome::Replaced { content: "new".to_string(), line: 1 });
    assert_eq!(replace_once("ab", "", "x"), ReplaceOutcome::Ambiguous(3));
}

#[test]
fn edit_messages() {
    let s = DiffSummary { lines_added: 2, lines_removed: 1, hunks_applied: 3 };
    assert_eq!(diff_applied_message("f.rs", &s), "Applied 3 hunk(s) to f.rs: +2 line(s), -1 line(s)");
    assert_eq!(diff_failed_message("no hunks"), "diff apply failed: no hunks");
    let m = replace_message("f.rs", &ReplaceOutcome::NotFound);
    assert!(m.is_error);
    assert_eq!(m.content, "old_text not found in f.rs. Make sure it matches exactly.");
    let m = replace_message("f.rs", &ReplaceOutcome::Ambiguous(4));
    assert_eq!(m.content, "old_text matches 4 locations in f.rs. Provide more context to make it unique.");
    let m = replace_message("f.rs", &ReplaceOutcome::Replaced { content: String::new(), line: 7 });
    assert!(!m.is_error);
    assert_eq!(m.content, "Edited f.rs at line 7");
    assert_eq!(write_message("/p", "a\nb\n"), "Wrote 2 lines to /p");
}

#[test]
fn find_and_grep_reports() {
    assert_eq!(find_result(&vec![], 10), "No files found matching pattern");
    let paths = vec!["a".to_string(), "b".to_string(), "c".to_string()];
    assert_eq!(find_result(&paths, 2), "a\nb\n(2 files)");
    assert_eq!(grep_result("", 10), "No matches found");
    assert_eq!(grep_result("x:1:a\ny:2:b\n", 10), "x:1:a\ny:2:b");
    assert_eq!(
        grep_result("x:1:a\ny:2:b\n", 1),
        "x:1:a\n... (capped at 1 matches by limit parameter)"
    );
}

#[test]
fn ls_sorts_and_formats() {
    assert_eq!(ls_listing(&vec![]), "(empty directory)");
    let entries = vec![
        LsEntry { name: "zeta.txt".to_string(), is_dir: false, size_text: "12B".to_string() },
        LsEntry { name: "alpha".to_string(), is_dir: true, size_text: String::new() },
    ];
    let out = ls_listing(&entries);
    assert_eq!(out, format!("alpha/\n{:<40} {:>8}", "zeta.txt", "12B"));
}
