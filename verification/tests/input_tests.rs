use pi_coding_agent::input::{
    assemble_text, check_expansion, file_part, input_words, is_image_file, mime_type_for_path,
    quoted_scan_is_ok, ref_kind, scan_quoted, QuotedRef, RefKind,
};
use std::collections::HashMap;

/// Runs the steps of input processing over an in-memory set of text files.
fn process(input: &str, files: &HashMap<&str, &str>) -> String {
    assert!(quoted_scan_is_ok(input));
    let read = |name: &str| -> (Vec<String>, bool) {
        match files.get(name) {
            Some(c) => (vec![file_part(name, c)], true),
            None => (vec![], false),
        }
    };
    let quoted = scan_quoted(input);
    let (quoted_parts, quoted_read) = match &quoted {
        Some(q) => read(&q.name),
        None => (vec![], false),
    };
    let words = input_words(input, &quoted, quoted_read);
    let results: Vec<(Vec<String>, bool)> = words
        .iter()
        .map(|w| match &w.reference {
            Some(r) => read(r),
            None => (vec![], true),
        })
        .collect();
    assemble_text(&quoted, quoted_read, &quoted_parts, &words, &results)
}

#[test]
fn test_is_image_file() {
    assert!(is_image_file("photo.png"));
    assert!(is_image_file("photo.jpg"));
    assert!(is_image_file("photo.JPEG"));
    assert!(is_image_file("photo.webp"));
    assert!(!is_image_file("file.txt"));
    assert!(!is_image_file("file.rs"));
}

#[test]
fn mime_types() {
    assert_eq!(mime_type_for_path("a.PNG"), "image/png");
    assert_eq!(mime_type_for_path("a.jpg"), "image/jpeg");
    assert_eq!(mime_type_for_path("a.bin"), "application/octet-stream");
    assert_eq!(mime_type_for_path("noext"), "application/octet-stream");
}

#[test]
fn no_references_keeps_text() {
    let files = HashMap::new();
    assert_eq!(process("hello world", &files), "hello world");
    assert_eq!(process("", &files), "");
    assert_eq!(process("@ something", &files), "@ something");
}

#[test]
fn text_file_expansion() {
    let mut files = HashMap::new();
    files.insert("test.txt", "file content here");
    let out = process("check @test.txt please", &files);
    assert_eq!(out, "<file name=\"test.txt\">\nfile content here\n</file>\n\ncheck please");
}

#[test]
fn missing_file_kept_as_text() {
    let files = HashMap::new();
    assert_eq!(process("@nonexistent.txt", &files), "@nonexistent.txt");
}

#[test]
fn quoted_path_with_spaces() {
    let mut files = HashMap::new();
    files.insert("file with spaces.txt", "content with spaces");
    let out = process("check @\"file with spaces.txt\" please", &files);
    assert!(out.contains("<file name=\"file with spaces.txt\">"));
    assert!(out.contains("content with spaces"));
    assert!(out.ends_with("check please"));
    let files = HashMap::new();
    let out = process("check @\"no such file.txt\" please", &files);
    assert_eq!(out, "check @\"no such file.txt\" please");
}

#[test]
fn scan_quoted_parts() {
    assert_eq!(
        scan_quoted("a @\"b c\" d"),
        Some(QuotedRef { before: "a ".to_string(), name: "b c".to_string(), after: " d".to_string() })
    );
    assert_eq!(scan_quoted("a @b"), None);
    assert_eq!(scan_quoted("a @\"unclosed"), None);
    let words = input_words("x @@y", &None, false);
    assert_eq!(words.len(), 2);
    assert_eq!(words[1].word, "@y");
    assert_eq!(words[1].reference.as_deref(), Some("y"));
}

#[test]
fn reference_kinds_and_limits() {
    assert_eq!(ref_kind("src/"), RefKind::Directory);
    assert_eq!(ref_kind("src/**/*.rs"), RefKind::Glob);
    assert_eq!(ref_kind("a?.txt"), RefKind::Glob);
    assert_eq!(ref_kind("a.txt"), RefKind::Single);
    assert_eq!(check_expansion(RefKind::Directory, "d/", 3), None);
    assert_eq!(check_expansion(RefKind::Directory, "d/", 0).as_deref(), Some("Directory is empty: d/"));
    assert_eq!(
        check_expansion(RefKind::Glob, "*.rs", 101).as_deref(),
        Some("Glob pattern *.rs matched 101 files, exceeding the limit of 100. Use a more specific pattern.")
    );
}

#[test]
fn partly_read_reference_keeps_what_was_read_and_the_word() {
    // A directory whose second file could not be read: the first file's
    // text stays, and so does the reference.
    let words = input_words("see @docs/ now", &None, false);
    let read = vec![
        (vec![], true),
        (vec![file_part("docs/a.md", "alpha")], false),
        (vec![], true),
    ];
    let out = assemble_text(&None, false, &vec![], &words, &read);
    assert_eq!(out, "<file name=\"docs/a.md\">\nalpha\n</file>\n\nsee @docs/ now");
}
