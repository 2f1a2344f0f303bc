use pi_coding_agent::html::{
    escape_html, is_renderable, render_html, render_user_content, AssistantPart, ExportMessage, UserBlock,
    UserContent,
};

#[test]
fn escape_html_encodes_special_chars() {
    assert_eq!(escape_html("<div>"), "&lt;div&gt;");
    assert_eq!(escape_html("a & b"), "a &amp; b");
    assert_eq!(escape_html("x=\"y\""), "x=&quot;y&quot;");
    assert_eq!(escape_html("hello"), "hello");
    assert_eq!(escape_html(""), "");
    assert_eq!(
        escape_html("<script>alert(\"xss\")</script>"),
        "&lt;script&gt;alert(&quot;xss&quot;)&lt;/script&gt;"
    );
}

#[test]
fn render_user_content_text() {
    let content = UserContent::Text("hello world".to_string());
    assert_eq!(render_user_content(&content), "hello world");
}

#[test]
fn render_user_content_blocks() {
    let blocks = vec![
        UserBlock::Text("line one".to_string()),
        UserBlock::Text("line two".to_string()),
        UserBlock::Other,
    ];
    let content = UserContent::Blocks(blocks);
    assert_eq!(render_user_content(&content), "line one\nline two");
}

fn user(text: &str) -> ExportMessage {
    ExportMessage::User(UserContent::Text(text.to_string()))
}

fn assistant(text: &str) -> ExportMessage {
    ExportMessage::Assistant(vec![AssistantPart::Text(text.to_string())])
}

#[test]
fn render_html_produces_valid_structure() {
    let messages = vec![user("Hello"), assistant("Hi there")];
    let html = render_html(&messages, "Test Session");
    assert!(html.contains("<!DOCTYPE html>"));
    assert!(html.contains("<title>Test Session</title>"));
    assert!(html.contains("class=\"message user\""));
    assert!(html.contains("class=\"message assistant\""));
    assert!(html.contains("Hello"));
    assert!(html.contains("Hi there"));
    assert!(html.contains("Exported from Pi Agent"));
}

#[test]
fn render_html_escapes_title() {
    let messages = vec![];
    let html = render_html(&messages, "Test <script> & \"quotes\"");
    assert!(html.contains("Test &lt;script&gt; &amp; &quot;quotes&quot;"));
}

#[test]
fn render_html_includes_tool_calls() {
    let messages = vec![ExportMessage::Assistant(vec![AssistantPart::ToolCall {
        name: "read_file".to_string(),
        arguments: "{\n  \"path\": \"/tmp/test.rs\"\n}".to_string(),
    }])];
    let html = render_html(&messages, "Tools");
    assert!(html.contains("Tool: read_file"));
    assert!(html.contains("/tmp/test.rs"));
}

#[test]
fn render_html_includes_compaction_summary() {
    let messages = vec![ExportMessage::CompactionSummary(
        "Previous conversation about Rust types".to_string(),
    )];
    let html = render_html(&messages, "Compaction");
    assert!(html.contains("class=\"message compaction\""));
    assert!(html.contains("Context Summary"));
    assert!(html.contains("Previous conversation about Rust types"));
}

#[test]
fn render_html_includes_system_context() {
    let messages = vec![ExportMessage::SystemContext("You are a helpful assistant.".to_string())];
    let html = render_html(&messages, "System");
    assert!(html.contains("class=\"message system\""));
    assert!(html.contains("You are a helpful assistant."));
}

#[test]
fn render_html_includes_thinking() {
    let messages = vec![ExportMessage::Assistant(vec![
        AssistantPart::Thinking("Let me think about this...".to_string()),
        AssistantPart::Text("Here is my answer.".to_string()),
    ])];
    let html = render_html(&messages, "Thinking");
    assert!(html.contains("class=\"thinking\""));
    assert!(html.contains("Let me think about this..."));
    assert!(html.contains("Here is my answer."));
}

#[test]
fn tool_result_text_is_cut_at_two_thousand_bytes() {
    let long = "x".repeat(2500);
    let messages = vec![ExportMessage::ToolResult {
        tool_name: "bash".to_string(),
        texts: vec![long],
    }];
    let html = render_html(&messages, "T");
    let expected = format!("{}...\n[truncated 500 chars]", "x".repeat(2000));
    assert!(html.contains(&expected));
    assert!(!html.contains(&"x".repeat(2001)));
}

#[test]
fn extension_messages_are_not_rendered() {
    let html_a = render_html(&vec![ExportMessage::Extension], "E");
    let html_b = render_html(&vec![], "E");
    assert_eq!(html_a, html_b);
}

#[test]
fn tool_results_cut_at_char_boundaries_only() {
    let long = ExportMessage::ToolResult { tool_name: "read".to_string(), texts: vec!["a".repeat(2001)] };
    assert!(is_renderable(&long));
    let split = ExportMessage::ToolResult {
        tool_name: "read".to_string(),
        texts: vec![format!("{}é", "a".repeat(1999))],
    };
    assert!(!is_renderable(&split));
    let short = ExportMessage::ToolResult { tool_name: "read".to_string(), texts: vec!["é".to_string()] };
    assert!(is_renderable(&short));
    assert!(is_renderable(&ExportMessage::User(UserContent::Text("hi".to_string()))));
}
