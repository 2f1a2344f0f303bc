use pi_coding_agent::input::ImageAttachment;
use pi_coding_agent::tools::{
    spawn_failed_message, timed_out_message, BashTool, FindTool, GrepTool, LsTool, ToolError,
};

fn validation(tool: &str, message: &str) -> ToolError {
    ToolError::Validation { tool_name: tool.to_string(), message: message.to_string() }
}

#[test]
fn test_image_to_content_base64() {
    let attachment = ImageAttachment {
        data: b"test image data".to_vec(),
        mime_type: "image/png".to_string(),
        filename: "test.png".to_string(),
    };
    let expected = base64::Engine::encode(&base64::engine::general_purpose::STANDARD, b"test image data");
    assert_eq!(attachment.base64_data(), expected);
    assert_eq!(attachment.mime_type, "image/png");
}

#[test]
fn base64_pads_short_tails() {
    let img = |d: &[u8]| ImageAttachment { data: d.to_vec(), mime_type: String::new(), filename: String::new() };
    assert_eq!(img(b"test image data").base64_data(), ["dGVzdCBp", "bWFnZSBk", "YXRh"].concat());
    assert_eq!(img(b"a").base64_data(), "YQ==");
    assert_eq!(img(b"ab").base64_data(), "YWI=");
    assert_eq!(img(&[0xff, 0xfe, 0xfd, 0]).base64_data(), "//79AA==");
    assert_eq!(img(b"").base64_data(), "");
}

#[test]
fn bash_request_defaults_timeout() {
    let tool = BashTool::new();
    let q = tool.prepare(Some("ls -la"), None).unwrap();
    assert_eq!(q.command, "ls -la");
    assert_eq!(q.timeout_secs, 120);
    assert_eq!(tool.prepare(Some("x"), Some(5)).unwrap().timeout_secs, 5);
    assert_eq!(tool.prepare(None, Some(5)).err(), Some(validation("bash", "missing 'command'")));
}

#[test]
fn bash_failure_messages() {
    let t = timed_out_message(30);
    assert!(t.is_error);
    assert_eq!(t.content, "Command timed out after 30s");
    let s = spawn_failed_message("No such file or directory");
    assert!(s.is_error);
    assert_eq!(s.content, "Failed to execute: No such file or directory");
}

#[test]
fn grep_request_builds_arguments() {
    let tool = GrepTool::new();
    let q = tool.prepare("/w", Some("fn main"), None, None, None, None).unwrap();
    assert_eq!(q.args, vec!["-rn", "--", "fn main", "/w"]);
    assert_eq!(q.limit, 100);
    let q = tool.prepare("/w", Some("todo"), Some("src"), Some(true), Some(5), Some("*.rs")).unwrap();
    assert_eq!(q.args, vec!["-rn", "-i", "--include", "*.rs", "--", "todo", "src"]);
    assert_eq!(q.limit, 5);
}

#[test]
fn grep_request_rejects_bad_patterns() {
    let tool = GrepTool::new();
    assert_eq!(tool.prepare("/w", None, None, None, None, None).err(), Some(validation("grep", "missing 'pattern'")));
    match tool.prepare("/w", Some("(unclosed"), None, None, None, None) {
        Err(ToolError::Validation { tool_name, message }) => {
            assert_eq!(tool_name, "grep");
            assert!(message.starts_with("invalid pattern: "));
        }
        _ => panic!("expected a validation error"),
    }
}

#[test]
fn find_request_joins_root_and_pattern() {
    let tool = FindTool::new();
    let q = tool.prepare("/w", Some("**/*.rs"), None, None).unwrap();
    assert_eq!(q.pattern, "/w/**/*.rs");
    assert_eq!(q.limit, 200);
    let q = tool.prepare("/w", Some("*.md"), Some("/docs"), Some(3)).unwrap();
    assert_eq!(q.pattern, "/docs/*.md");
    assert_eq!(q.limit, 3);
    assert_eq!(tool.prepare("/w", None, None, None).err(), Some(validation("find", "missing 'pattern'")));
    match tool.prepare("/w", Some("[unclosed"), None, None) {
        Err(ToolError::Validation { tool_name, message }) => {
            assert_eq!(tool_name, "find");
            assert!(message.starts_with("invalid glob: "));
        }
        _ => panic!("expected a validation error"),
    }
}

#[test]
fn ls_target_resolves_against_cwd() {
    let tool = LsTool::new();
    assert_eq!(tool.target("/w", None), "/w");
    assert_eq!(tool.target("/w", Some("src")), "/w/src");
    assert_eq!(tool.target("/w", Some("/etc")), "/etc");
}
