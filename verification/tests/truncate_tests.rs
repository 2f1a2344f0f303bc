use pi_coding_agent::truncate::{smart_truncate, TruncationConfig};

fn default_cfg() -> TruncationConfig {
    TruncationConfig::default()
}

#[test]
fn test_under_limit_no_truncation() {
    let content = "line one\nline two\nline three\n";
    let cfg = default_cfg();
    let result = smart_truncate(content, &cfg);
    assert_eq!(result, content, "Content under max_chars must not be altered");
}

#[test]
fn test_over_limit_truncation_with_marker() {
    let cfg = TruncationConfig { max_chars: 80, head_lines: 2, tail_lines: 1 };
    let lines: Vec<String> = (1..=10).map(|i| format!("line_{:03}", i)).collect();
    let content = lines.join("\n");
    assert!(content.len() > cfg.max_chars, "Test setup: content must exceed max_chars");
    let result = smart_truncate(&content, &cfg);
    assert!(result.contains("[... truncated"), "Result must contain truncation marker, got: {:?}", result);
    assert!(result.contains("line_001"), "Head must contain first line");
    assert!(result.contains("line_002"), "Head must contain second line");
    assert!(result.contains("line_010"), "Tail must contain last line");
    assert!(!result.contains("line_005"), "Middle lines must be omitted");
}

#[test]
fn test_empty_string() {
    let result = smart_truncate("", &default_cfg());
    assert_eq!(result, "", "Empty content must be returned as-is");
}

#[test]
fn test_single_very_long_line() {
    let cfg = TruncationConfig { max_chars: 20, head_lines: 5, tail_lines: 5 };
    let content = "a".repeat(100);
    let result = smart_truncate(&content, &cfg);
    assert!(
        result.contains("[... output hard-capped at"),
        "Single long line must be hard-capped, got: {:?}",
        result
    );
}

#[test]
fn test_exactly_at_limit_no_truncation() {
    let cfg = TruncationConfig { max_chars: 10, head_lines: 5, tail_lines: 5 };
    let content = "0123456789";
    let result = smart_truncate(&content, &cfg);
    assert_eq!(result, content, "Content exactly at max_chars must not be truncated");
}

#[test]
fn test_marker_reports_correct_omitted_count() {
    let cfg = TruncationConfig { max_chars: 100, head_lines: 1, tail_lines: 1 };
    let lines: Vec<String> = (1..=10).map(|i| format!("long_line_{:03}", i)).collect();
    let content = lines.join("\n");
    assert!(
        content.len() > cfg.max_chars,
        "Test setup: content ({} chars) must exceed max_chars ({})",
        content.len(),
        cfg.max_chars
    );
    let result = smart_truncate(&content, &cfg);
    assert!(result.contains("truncated 8 lines"), "Marker should report 8 omitted lines, got: {:?}", result);
}

#[test]
fn truncate_exact_assembly_and_cap() {
    let cfg = TruncationConfig { max_chars: 100, head_lines: 1, tail_lines: 1 };
    let lines: Vec<String> = (1..=10).map(|i| format!("long_line_{:03}", i)).collect();
    let content = lines.join("\n");
    assert_eq!(
        smart_truncate(&content, &cfg),
        "long_line_001\n[... truncated 8 lines ...]\nlong_line_010"
    );
    let cfg = TruncationConfig { max_chars: 5, head_lines: 3, tail_lines: 3 };
    assert_eq!(
        smart_truncate("abcdefgh", &cfg),
        "abcde\n[... output hard-capped at 5 chars ...]"
    );
    // Multi-byte characters: the cap keeps every character that starts before byte 5.
    assert_eq!(
        smart_truncate("ééééé", &cfg),
        "ééé\n[... output hard-capped at 5 chars ...]"
    );
}

#[test]
fn truncate_crlf_lines_and_assembly_cap() {
    let cfg = TruncationConfig { max_chars: 12, head_lines: 1, tail_lines: 1 };
    // The assembly is longer than the limit, so it is hard-capped in turn.
    assert_eq!(
        smart_truncate("aa\r\nbb\r\ncc\r\ndd", &cfg),
        "aa\n[... trun\n[... output hard-capped at 12 chars ...]"
    );
}
