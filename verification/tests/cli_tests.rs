use pi_coding_agent::cli::{
    cli_thinking_level, model_ids, provider_name, raw_prompt, resolve_sessions_dir, run_mode,
    is_file_nameable, session_file_name, session_start, Args, RunMode, SessionStart,
};
use pi_coding_agent::extensions::{extension_roots, hook_outcome, wrapper_hook_path, ToolWrapperDef, WrapperType};
use pi_coding_agent::paths::{display_name, resolve_file_path};
use pi_coding_agent::skills::{finish_git_install, git_clone_args, remote_skill_name, Skill, SkillMetadata};
use pi_coding_agent::tui::ThinkingLevel;

fn args() -> Args {
    Args {
        provider: None,
        model: None,
        models: Vec::new(),
        api_key: None,
        system_prompt: None,
        append_system_prompt: None,
        thinking: None,
        resume: false,
        mode: "text".to_string(),
        no_session: false,
        session: None,
        session_dir: None,
        print: false,
        no_tools: false,
        verbose: false,
        messages: Vec::new(),
    }
}

#[test]
fn launch_decisions() {
    let mut a = args();
    assert_eq!(provider_name(&a), "anthropic");
    assert_eq!(model_ids(&a, "sonnet-4-6"), vec!["sonnet-4-6"]);
    a.model = Some("m1".to_string());
    assert_eq!(model_ids(&a, "sonnet-4-6"), vec!["m1"]);
    a.models = vec!["x".to_string(), "y".to_string()];
    assert_eq!(model_ids(&a, "sonnet-4-6"), vec!["x", "y"]);
    a.provider = Some("openai".to_string());
    assert_eq!(provider_name(&a), "openai");
    assert_eq!(cli_thinking_level(Some("high")), Some(ThinkingLevel::High));
    assert_eq!(cli_thinking_level(Some("HIGH")), Some(ThinkingLevel::Medium));
    assert_eq!(cli_thinking_level(None), None);
    assert_eq!(run_mode(true, "json", true), RunMode::Print);
    assert_eq!(run_mode(true, "json", false), RunMode::Interactive);
    assert_eq!(run_mode(false, "json", true), RunMode::Json);
    assert_eq!(run_mode(false, "rpc", false), RunMode::Rpc);
    assert_eq!(raw_prompt(&vec!["fix".to_string(), "bug".to_string()]), "fix bug");
}

#[test]
fn sessions_location_and_choice() {
    assert_eq!(resolve_sessions_dir(Some("/s"), Some("/home/u")), "/s");
    assert_eq!(resolve_sessions_dir(None, Some("/home/u")), "/home/u/.pi/agent/sessions");
    assert_eq!(resolve_sessions_dir(None, None), "./.pi/agent/sessions");
    assert_eq!(session_start(true, Some("/x"), true, None), SessionStart::Disabled);
    assert_eq!(session_start(false, Some("/x"), true, Some("/y")), SessionStart::Open("/x".to_string()));
    assert_eq!(session_start(false, None, true, Some("/y")), SessionStart::Open("/y".to_string()));
    assert_eq!(session_start(false, None, true, None), SessionStart::Create);
    assert_eq!(session_start(false, None, false, Some("/y")), SessionStart::Create);
    assert_eq!(session_file_name("0123abcd-ef01-2345"), "0123abcd.jsonl");
}

#[test]
fn extension_discovery_and_hooks() {
    assert_eq!(
        extension_roots(Some("/home/u"), "/w"),
        vec!["/home/u/.pi/agent/extensions", "/w/.pi/extensions"]
    );
    assert_eq!(extension_roots(None, "/w"), vec!["/w/.pi/extensions"]);
    let w = ToolWrapperDef {
        tool_name: "*".to_string(),
        description: String::new(),
        wrapper_type: WrapperType::Shell,
        before_hook: None,
        after_hook: Some("after.sh".to_string()),
    };
    assert_eq!(wrapper_hook_path(&w), Some("after.sh".to_string()));
    assert_eq!(hook_outcome(None, None), (true, None));
    assert_eq!(hook_outcome(Some(false), Some((false, None))), (false, Some((String::new(), true))));
    assert_eq!(
        hook_outcome(Some(true), Some((true, Some("ok".to_string())))),
        (true, Some(("ok".to_string(), false)))
    );
}

#[test]
fn file_references_resolve() {
    assert_eq!(resolve_file_path("/abs/f.txt", "/w"), "/abs/f.txt");
    assert_eq!(resolve_file_path("rel/f.txt", "/w"), "/w/rel/f.txt");
    assert_eq!(display_name("/w/src/a.rs", "/w"), "src/a.rs");
    assert_eq!(display_name("/other/a.rs", "/w"), "/other/a.rs");
}

#[test]
fn remote_skill_installs() {
    assert_eq!(git_clone_args("https://g/r.git", "/tmp/x"), vec!["clone", "--depth", "1", "https://g/r.git", "/tmp/x"]);
    let skill = Skill {
        name: "orig".to_string(),
        description: "d".to_string(),
        path: "/p/SKILL.md".to_string(),
        content: "c".to_string(),
        metadata: SkillMetadata { name: "orig".to_string(), ..Default::default() },
    };
    let s = finish_git_install(skill, "https://g/r.git", Some("renamed"));
    assert_eq!(s.name, "renamed");
    assert_eq!(s.metadata.name, "renamed");
    assert_eq!(s.metadata.source, Some("https://g/r.git".to_string()));
    assert_eq!(s.description, "d");
    assert_eq!(remote_skill_name(None, "parsed"), "parsed");
    assert_eq!(remote_skill_name(Some("given"), "parsed"), "given");
}

#[test]
fn session_ids_that_name_files() {
    assert!(is_file_nameable("0123456789abcdef"));
    assert!(is_file_nameable("abcdefgh"));
    assert!(!is_file_nameable("short"));
    assert!(!is_file_nameable("abcdefgé"));
    assert!(is_file_nameable("abcdefghé"));
}
