use pi_coding_agent::context::{
    assemble_context, build_system_prompt, collect_context_files, FileProbe, LoadedContext,
};

fn file(path: &str, content: &str) -> (String, String) {
    (path.to_string(), content.to_string())
}

#[test]
fn test_build_system_prompt_uses_default_when_no_context() {
    let ctx = LoadedContext::default();
    let prompt = build_system_prompt(&ctx, None, "default prompt");
    assert_eq!(prompt, "default prompt");
}

#[test]
fn test_build_system_prompt_cli_overrides_everything() {
    let ctx = LoadedContext {
        system_prompt: Some("from SYSTEM.md".to_string()),
        ..Default::default()
    };
    let prompt = build_system_prompt(&ctx, Some("cli override"), "default");
    assert!(prompt.starts_with("cli override"));
    assert!(!prompt.contains("from SYSTEM.md"));
    assert!(!prompt.contains("default"));
}

#[test]
fn test_build_system_prompt_system_md_overrides_default() {
    let ctx = LoadedContext {
        system_prompt: Some("from SYSTEM.md".to_string()),
        ..Default::default()
    };
    let prompt = build_system_prompt(&ctx, None, "default");
    assert!(prompt.starts_with("from SYSTEM.md"));
    assert!(!prompt.contains("default"));
}

#[test]
fn test_build_system_prompt_appends_agents_md() {
    let ctx = LoadedContext {
        agents_files: vec![file("/project/AGENTS.md", "Be concise.")],
        ..Default::default()
    };
    let prompt = build_system_prompt(&ctx, None, "default prompt");
    assert!(prompt.contains("default prompt"));
    assert!(prompt.contains("Be concise."));
    assert!(prompt.contains("# Context from /project/AGENTS.md"));
}

#[test]
fn test_build_system_prompt_appends_append_system_md() {
    let ctx = LoadedContext {
        append_system_prompt: Some("extra instructions".to_string()),
        ..Default::default()
    };
    let prompt = build_system_prompt(&ctx, None, "base");
    assert!(prompt.contains("base"));
    assert!(prompt.contains("extra instructions"));
}

#[test]
fn test_build_system_prompt_full_assembly() {
    let ctx = LoadedContext {
        agents_files: vec![
            file("/global/AGENTS.md", "global rules"),
            file("/project/CONTEXT.md", "project rules"),
        ],
        system_prompt: Some("custom system".to_string()),
        append_system_prompt: Some("appended stuff".to_string()),
    };
    let prompt = build_system_prompt(&ctx, None, "unused default");
    assert!(prompt.starts_with("custom system"));
    assert!(prompt.contains("global rules"));
    assert!(prompt.contains("project rules"));
    assert!(prompt.contains("appended stuff"));
    assert!(!prompt.contains("unused default"));
}

#[test]
fn build_system_prompt_exact_layout() {
    let ctx = LoadedContext {
        agents_files: vec![file("/p/AGENTS.md", "A")],
        system_prompt: None,
        append_system_prompt: Some("Z".to_string()),
    };
    let prompt = build_system_prompt(&ctx, None, "base");
    assert_eq!(prompt, "base\n\n# Context from /p/AGENTS.md\nA\n\nZ");
}

#[test]
fn context_files_keep_first_of_each_path_in_order() {
    let global = Some(file("/home/u/.pi/AGENTS.md", "g"));
    let dirs = vec![
        None,
        Some(file("/home/u/.pi/AGENTS.md", "again")),
        Some(file("/home/u/proj/CONTEXT.md", "p")),
    ];
    let files = collect_context_files(global, &dirs);
    assert_eq!(
        files,
        vec![file("/home/u/.pi/AGENTS.md", "g"), file("/home/u/proj/CONTEXT.md", "p")]
    );
}

#[test]
fn project_system_file_takes_precedence() {
    let ctx = assemble_context(
        None,
        &vec![],
        FileProbe::Read("project".to_string()),
        FileProbe::Read("global".to_string()),
        FileProbe::Missing,
        FileProbe::Read("global append".to_string()),
    );
    assert_eq!(ctx.system_prompt.as_deref(), Some("project"));
    assert_eq!(ctx.append_system_prompt.as_deref(), Some("global append"));
    let ctx = assemble_context(
        None,
        &vec![],
        FileProbe::Unreadable,
        FileProbe::Read("global".to_string()),
        FileProbe::Missing,
        FileProbe::Missing,
    );
    assert_eq!(ctx.system_prompt, None);
    assert_eq!(ctx.append_system_prompt, None);
}
