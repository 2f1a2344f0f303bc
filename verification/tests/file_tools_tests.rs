use std::cell::RefCell;
use std::collections::HashMap;

use pi_coding_agent::tools::{EditTool, FileOperations, ReadTool, ToolError, WriteTool};

#[derive(Default)]
struct MemFs {
    files: RefCell<HashMap<String, Vec<u8>>>,
    fail_writes: bool,
}

impl MemFs {
    fn with(path: &str, content: &str) -> Self {
        let fs = MemFs::default();
        fs.files.borrow_mut().insert(path.to_string(), content.as_bytes().to_vec());
        fs
    }

    fn text(&self, path: &str) -> Option<String> {
        self.files.borrow().get(path).map(|b| String::from_utf8_lossy(b).into_owned())
    }
}

impl FileOperations for MemFs {
    fn read_file(&self, path: &str) -> Result<Vec<u8>, String> {
        self.files.borrow().get(path).cloned().ok_or_else(|| "No such file or directory".to_string())
    }

    fn write_file(&self, path: &str, content: &[u8]) -> Result<(), String> {
        if self.fail_writes {
            return Err("read-only file system".to_string());
        }
        self.files.borrow_mut().insert(path.to_string(), content.to_vec());
        Ok(())
    }

    fn file_exists(&self, path: &str) -> bool {
        self.files.borrow().contains_key(path)
    }

    fn is_directory(&self, _path: &str) -> bool {
        false
    }

    fn mkdir_p(&self, _path: &str) -> Result<(), String> {
        Ok(())
    }
}

impl FileOperations for &MemFs {
    fn read_file(&self, path: &str) -> Result<Vec<u8>, String> {
        (**self).read_file(path)
    }

    fn write_file(&self, path: &str, content: &[u8]) -> Result<(), String> {
        (**self).write_file(path, content)
    }

    fn file_exists(&self, path: &str) -> bool {
        (**self).file_exists(path)
    }

    fn is_directory(&self, path: &str) -> bool {
        (**self).is_directory(path)
    }

    fn mkdir_p(&self, path: &str) -> Result<(), String> {
        (**self).mkdir_p(path)
    }
}

fn validation(tool: &str, message: &str) -> ToolError {
    ToolError::Validation { tool_name: tool.to_string(), message: message.to_string() }
}

#[test]
fn read_tool_numbers_lines_from_offset() {
    let tool = ReadTool::new(MemFs::with("/w/a.txt", "one\ntwo\nthree\n"));
    let out = tool.execute("/w", Some("a.txt"), Some(2), Some(1)).unwrap();
    assert!(!out.is_error);
    assert_eq!(out.content, "     2\ttwo\n");
    let all = tool.execute("/w", Some("/w/a.txt"), None, None).unwrap();
    assert_eq!(all.content, "     1\tone\n     2\ttwo\n     3\tthree\n");
}

#[test]
fn read_tool_reports_missing_path_and_unreadable_file() {
    let tool = ReadTool::new(MemFs::default());
    assert_eq!(tool.execute("/w", None, None, None), Err(validation("read", "missing 'path'")));
    assert_eq!(
        tool.execute("/w", Some("nope.txt"), None, None),
        Err(ToolError::Execution {
            tool_name: "read".to_string(),
            message: "/w/nope.txt: No such file or directory".to_string(),
        })
    );
}

#[test]
fn read_tool_huge_limit_shows_to_the_end() {
    let tool = ReadTool::new(MemFs::with("/w/a.txt", "a\nb\n"));
    let out = tool.execute("/w", Some("a.txt"), Some(2), Some(usize::MAX)).unwrap();
    assert_eq!(out.content, "     2\tb\n");
}

#[test]
fn read_tool_replaces_invalid_utf8() {
    let fs = MemFs::default();
    fs.files.borrow_mut().insert("/w/b.bin".to_string(), vec![b'a', 0xff, b'b']);
    let out = ReadTool::new(fs).execute("/w", Some("b.bin"), None, None).unwrap();
    assert_eq!(out.content, "     1\ta\u{fffd}b\n");
}

#[test]
fn write_tool_writes_and_counts_lines() {
    let tool = WriteTool::new(MemFs::default());
    let out = tool.execute("/w", Some("dir/new.txt"), Some("x\ny\n")).unwrap();
    assert_eq!(out.content, "Wrote 2 lines to /w/dir/new.txt");
    assert!(!out.is_error);
    assert_eq!(tool.execute("/w", Some("f"), None), Err(validation("write", "missing 'content'")));
    assert_eq!(tool.execute("/w", None, Some("x")), Err(validation("write", "missing 'path'")));
}

#[test]
fn write_tool_reports_write_failure() {
    let fs = MemFs { fail_writes: true, ..MemFs::default() };
    let r = WriteTool::new(fs).execute("/w", Some("f.txt"), Some("x"));
    assert_eq!(
        r,
        Err(ToolError::Execution {
            tool_name: "write".to_string(),
            message: "/w/f.txt: read-only file system".to_string(),
        })
    );
}

#[test]
fn edit_tool_replaces_single_occurrence() {
    let fs = MemFs::with("/w/src.rs", "fn old_name() {\n    // body\n}\n");
    let tool = EditTool::new(fs);
    let out = tool.execute("/w", Some("src.rs"), None, Some("old_name"), Some("new_name")).unwrap();
    // The line is one more than the lines before the match: "fn " is one.
    assert_eq!(out.content, "Edited /w/src.rs at line 2");
    assert!(!out.is_error);
}

#[test]
fn edit_tool_writes_replacement_back() {
    let fs = MemFs::with("/w/a.txt", "alpha\nbeta\ngamma\n");
    let out = EditTool::new(&fs).execute("/w", Some("a.txt"), None, Some("gamma"), Some("delta")).unwrap();
    assert_eq!(out.content, "Edited /w/a.txt at line 3");
    assert_eq!(fs.text("/w/a.txt").as_deref(), Some("alpha\nbeta\ndelta\n"));
    let read = ReadTool::new(&fs);
    assert_eq!(read.execute("/w", Some("a.txt"), Some(3), None).unwrap().content, "     3\tdelta\n");
}

#[test]
fn edit_tool_memfs_content_after_diff() {
    let fs = MemFs::with("/w/a.txt", "line1\nline2\nline3\n");
    let diff = "@@ -1,3 +1,4 @@\n line1\n line2\n+inserted\n line3\n";
    let out = EditTool::new(&fs).execute("/w", Some("a.txt"), Some(diff), None, None).unwrap();
    assert_eq!(out.content, "Applied 1 hunk(s) to /w/a.txt: +1 line(s), -0 line(s)");
    assert!(!out.is_error);
    assert_eq!(fs.text("/w/a.txt").as_deref(), Some("line1\nline2\ninserted\nline3\n"));
}

#[test]
fn edit_tool_leaves_file_when_diff_fails() {
    let fs = MemFs::with("/w/a.txt", "line1\n");
    let out = EditTool::new(&fs).execute("/w", Some("a.txt"), Some("not a diff"), None, None).unwrap();
    assert!(out.is_error);
    assert!(out.content.starts_with("diff apply failed: "));
    assert_eq!(fs.text("/w/a.txt").as_deref(), Some("line1\n"));
}

#[test]
fn edit_tool_rejects_bad_requests() {
    let tool = EditTool::new(MemFs::with("/w/a.txt", "x\n"));
    let both = tool.execute("/w", Some("a.txt"), Some("d"), Some("x"), None).unwrap();
    assert!(both.is_error);
    assert_eq!(both.content, "Provide either 'diff' or 'old_text'/'new_text', not both.");
    assert_eq!(
        tool.execute("/w", Some("a.txt"), None, None, Some("y")),
        Err(validation("edit", "missing 'old_text' (required when 'diff' is not provided)"))
    );
    assert_eq!(
        tool.execute("/w", Some("a.txt"), None, Some("x"), None),
        Err(validation("edit", "missing 'new_text' (required when 'diff' is not provided)"))
    );
    assert_eq!(tool.execute("/w", None, None, Some("x"), Some("y")), Err(validation("edit", "missing 'path'")));
}

#[test]
fn edit_tool_reports_not_found_and_ambiguous() {
    let tool = EditTool::new(MemFs::with("/w/a.txt", "x x\n"));
    let missing = tool.execute("/w", Some("a.txt"), None, Some("zz"), Some("y")).unwrap();
    assert_eq!(missing.content, "old_text not found in /w/a.txt. Make sure it matches exactly.");
    assert!(missing.is_error);
    let twice = tool.execute("/w", Some("a.txt"), None, Some("x"), Some("y")).unwrap();
    assert_eq!(twice.content, "old_text matches 2 locations in /w/a.txt. Provide more context to make it unique.");
}

#[test]
fn edit_tool_reports_read_failure() {
    let tool = EditTool::new(MemFs::default());
    assert_eq!(
        tool.execute("/w", Some("gone.txt"), None, Some("a"), Some("b")),
        Err(ToolError::Execution {
            tool_name: "edit".to_string(),
            message: "read /w/gone.txt: No such file or directory".to_string(),
        })
    );
}

#[test]
fn edit_step_gives_new_text() {
    let (write, report) =
        pi_coding_agent::tools::edit_step("/w/a.txt", None, "beta", "BETA", "alpha\nbeta\n");
    assert_eq!(write.as_deref(), Some("alpha\nBETA\n"));
    assert_eq!(report.content, "Edited /w/a.txt at line 2");
    let (none, _) = pi_coding_agent::tools::edit_step("/w/a.txt", None, "zeta", "Z", "alpha\n");
    assert_eq!(none, None);
}
