use pi_coding_agent::commands::{
    complete_repl_line, detect_provider_from_key, format_tool_end, longest_common_prefix,
    mask_secret, parse_repl_command, parse_tui_command, render_skill_list,
    slash_autocomplete, slash_completion_candidates, approval_answer, Autocomplete, SlashCommand,
};
use pi_coding_agent::skills::{ActiveSkills, Skill, SkillCatalog, SkillMetadata};
use pi_coding_agent::tui::{
    approval_key, crossterm_key_to_bytes, cycle_thinking_level, format_thinking_level, history_tail,
    key_action, make_box_bottom, make_box_top, model_selector_key, pad_or_truncate_visible,
    parse_thinking_level, render_thinking_suffix, role_prefix, screen_layout, style_chat_line,
    style_status, thinking_selector_key, truncate, wrap_plain_line, DisplayMessage, KeyAction,
    KeyCode, KeyInput, ScreenLayout, SelectorKey, ThinkingLevel, TuiApp,
};

fn key(code: KeyCode, ctrl: bool, shift: bool) -> KeyInput {
    KeyInput { code, ctrl, shift, alt: false, other: false }
}

fn skill(name: &str) -> Skill {
    Skill {
        name: name.to_string(),
        description: "demo skill".to_string(),
        path: format!("skills/{}/SKILL.md", name),
        content: String::new(),
        metadata: SkillMetadata::default(),
    }
}

#[test]
fn quit_on_ctrl_c() {
    let bytes = crossterm_key_to_bytes(&key(KeyCode::Char('c'), true, false));
    assert_eq!(bytes, "\x03");
}

#[test]
fn state_transitions() {
    let user_msg = DisplayMessage { role: "user".to_string(), text: "hello".to_string() };
    let assistant_msg = DisplayMessage { role: "assistant".to_string(), text: "hi there".to_string() };
    assert_eq!(user_msg.role, "user");
    assert_eq!(assistant_msg.role, "assistant");
}

#[test]
fn thinking_cycle_wraps_back_to_off() {
    assert_eq!(cycle_thinking_level(None), Some(ThinkingLevel::Minimal));
    assert_eq!(cycle_thinking_level(Some(ThinkingLevel::Minimal)), Some(ThinkingLevel::Low));
    assert_eq!(cycle_thinking_level(Some(ThinkingLevel::Low)), Some(ThinkingLevel::Medium));
    assert_eq!(cycle_thinking_level(Some(ThinkingLevel::Medium)), Some(ThinkingLevel::High));
    assert_eq!(cycle_thinking_level(Some(ThinkingLevel::High)), Some(ThinkingLevel::XHigh));
    assert_eq!(cycle_thinking_level(Some(ThinkingLevel::XHigh)), None);
}

#[test]
fn parse_thinking_level_accepts_expected_aliases() {
    assert_eq!(parse_thinking_level("off"), Some(None));
    assert_eq!(parse_thinking_level("none"), Some(None));
    assert_eq!(parse_thinking_level("minimal"), Some(Some(ThinkingLevel::Minimal)));
    assert_eq!(parse_thinking_level("xhigh"), Some(Some(ThinkingLevel::XHigh)));
    assert_eq!(parse_thinking_level("invalid"), None);
}

#[test]
fn thinking_level_reads_trimmed_and_case_insensitive() {
    assert_eq!(parse_thinking_level("  HiGh "), Some(Some(ThinkingLevel::High)));
    assert_eq!(format_thinking_level(Some(ThinkingLevel::Medium)), "medium");
    assert_eq!(format_thinking_level(None), "off");
    for level in [None, Some(ThinkingLevel::Low), Some(ThinkingLevel::XHigh)] {
        assert_eq!(parse_thinking_level(format_thinking_level(level)), Some(level));
        let mut l = level;
        for _ in 0..6 {
            l = cycle_thinking_level(l);
        }
        assert_eq!(l, level);
    }
}

#[test]
fn shift_tab_maps_to_esc_z_sequence() {
    let bytes = crossterm_key_to_bytes(&key(KeyCode::BackTab, false, true));
    assert_eq!(bytes, "\x1b[Z");
}

#[test]
fn ctrl_shift_letter_maps_to_control_code() {
    let bytes = crossterm_key_to_bytes(&key(KeyCode::Char('P'), true, false));
    assert_eq!(bytes, "\x10");
}

#[test]
fn other_keys_map_to_editor_bytes() {
    assert_eq!(crossterm_key_to_bytes(&key(KeyCode::Tab, false, false)), "\t");
    assert_eq!(crossterm_key_to_bytes(&key(KeyCode::Tab, false, true)), "\x1b[Z");
    assert_eq!(crossterm_key_to_bytes(&key(KeyCode::Delete, false, false)), "\x1b[3~");
    assert_eq!(crossterm_key_to_bytes(&key(KeyCode::Char('x'), false, false)), "x");
    assert_eq!(crossterm_key_to_bytes(&key(KeyCode::Char('1'), true, false)), "");
    assert_eq!(crossterm_key_to_bytes(&key(KeyCode::Enter, false, false)), "");
}

#[test]
fn key_actions_follow_the_main_loop() {
    assert_eq!(key_action(&key(KeyCode::Char('d'), true, false), true), KeyAction::Quit);
    assert_eq!(key_action(&key(KeyCode::BackTab, false, true), false), KeyAction::CycleThinking);
    assert_eq!(key_action(&key(KeyCode::Char('P'), true, true), false), KeyAction::CycleModel { backward: true });
    assert_eq!(key_action(&key(KeyCode::Char('l'), true, false), false), KeyAction::OpenModelSelector);
    assert_eq!(key_action(&key(KeyCode::Tab, false, false), false), KeyAction::Autocomplete);
    assert_eq!(key_action(&key(KeyCode::Enter, false, false), false), KeyAction::Submit);
    assert_eq!(key_action(&key(KeyCode::Enter, false, false), true), KeyAction::Edit);
    assert_eq!(model_selector_key(&key(KeyCode::Char('a'), false, false)), SelectorKey::TypeChar('a'));
    assert_eq!(model_selector_key(&key(KeyCode::Esc, false, false)), SelectorKey::Cancel);
    assert_eq!(thinking_selector_key(&key(KeyCode::Up, false, false)), SelectorKey::Navigate);
    assert_eq!(approval_key(&key(KeyCode::Char('Y'), false, false)), Some(true));
    assert_eq!(approval_key(&key(KeyCode::Esc, false, false)), Some(false));
    assert_eq!(approval_key(&key(KeyCode::Char('q'), false, false)), None);
}

#[test]
fn slash_completion_suggests_core_commands() {
    let catalog = SkillCatalog::default();
    let completions = slash_completion_candidates("/pro", &catalog);
    assert!(completions.iter().any(|c| c == "/provider "));
    assert!(completions.iter().any(|c| c == "/providers"));
}

#[test]
fn slash_completion_includes_skill_names() {
    let mut catalog = SkillCatalog::default();
    catalog.upsert(skill("agentation"));
    let completions = slash_completion_candidates("/skill:age", &catalog);
    assert_eq!(completions, vec!["/skill:agentation".to_string()]);
}

#[test]
fn slash_completion_lists_arguments() {
    let catalog = SkillCatalog::default();
    assert_eq!(
        slash_completion_candidates("/provider o", &catalog),
        vec!["/provider openai".to_string(), "/provider openrouter".to_string()]
    );
    assert_eq!(slash_completion_candidates("/THINKING x", &catalog), vec!["/thinking xhigh".to_string()]);
    assert!(slash_completion_candidates("pro", &catalog).is_empty());
}

#[test]
fn tab_autocomplete_applies_common_prefix() {
    let catalog = SkillCatalog::default();
    match slash_autocomplete("/pro", &catalog) {
        Autocomplete::SetValue(v) => assert_eq!(v, "/provider"),
        other => panic!("unexpected {:?}", other),
    }
}

#[test]
fn tab_autocomplete_single_and_suggest() {
    let catalog = SkillCatalog::default();
    match slash_autocomplete("  /qu", &catalog) {
        Autocomplete::SetValue(v) => assert_eq!(v, "  /quit"),
        other => panic!("unexpected {:?}", other),
    }
    assert!(matches!(slash_autocomplete("/quit", &catalog), Autocomplete::Unchanged));
    assert!(matches!(slash_autocomplete("hello", &catalog), Autocomplete::NotApplied));
    assert!(matches!(slash_autocomplete("/pro\nx", &catalog), Autocomplete::NotApplied));
    match slash_autocomplete("/", &catalog) {
        Autocomplete::Suggest(s) => assert_eq!(
            s,
            "[suggest] /apikey   /apikey clear  /model  /model   /provider   /providers  ..."
        ),
        other => panic!("unexpected {:?}", other),
    }
}

#[test]
fn longest_common_prefix_of_values() {
    let v = vec!["/provider".to_string(), "/providers".to_string(), "/pro".to_string()];
    assert_eq!(longest_common_prefix(&v), "/pro");
    assert_eq!(longest_common_prefix(&[]), "");
    assert_eq!(longest_common_prefix(&["abc".to_string(), "xyz".to_string()]), "");
}

#[test]
fn tui_commands_are_parsed() {
    assert!(matches!(parse_tui_command("/quit"), SlashCommand::Quit));
    assert!(matches!(parse_tui_command("/setkey"), SlashCommand::SetKeyUsage));
    assert!(matches!(parse_tui_command("/setkey  CLEAR "), SlashCommand::ClearKey));
    match parse_tui_command("/apikey sk-123 ") {
        SlashCommand::SetKey(k) => assert_eq!(k, "sk-123"),
        other => panic!("unexpected {:?}", other),
    }
    match parse_tui_command("/model  opus ") {
        SlashCommand::ModelQuery(q) => assert_eq!(q, "opus"),
        other => panic!("unexpected {:?}", other),
    }
    assert!(matches!(parse_tui_command("/thinking High"), SlashCommand::Thinking(Some(ThinkingLevel::High))));
    assert!(matches!(parse_tui_command("/thinking lots"), SlashCommand::ThinkingUsage));
    match parse_tui_command("/skill:install ./x") {
        SlashCommand::SkillInstall(p) => assert_eq!(p, "./x"),
        other => panic!("unexpected {:?}", other),
    }
    assert!(matches!(parse_tui_command("/skill: "), SlashCommand::SkillUsage));
    assert!(matches!(parse_tui_command("/nope"), SlashCommand::Unknown));
    assert!(matches!(parse_tui_command("hello"), SlashCommand::Prompt));
}

#[test]
fn repl_commands_are_parsed() {
    assert!(matches!(parse_repl_command("  exit "), SlashCommand::Quit));
    assert!(matches!(parse_repl_command("   "), SlashCommand::Empty));
    assert!(matches!(parse_repl_command("/model"), SlashCommand::Prompt));
    match parse_repl_command("/provider  groq") {
        SlashCommand::ProviderHint(n) => assert_eq!(n, "groq"),
        other => panic!("unexpected {:?}", other),
    }
    assert_eq!(complete_repl_line("/sk"), vec!["/skills", "/skill:list", "/skill:clear", "/skill:install "]);
    assert_eq!(complete_repl_line("").len(), 10);
    assert!(complete_repl_line("ex").is_empty());
}

#[test]
fn secrets_are_masked() {
    assert_eq!(mask_secret("abc"), "****");
    assert_eq!(mask_secret("abcdefgh"), "********");
    assert_eq!(mask_secret("sk-abcdefghijkl"), "sk-a***ijkl");
}

#[test]
fn providers_are_detected_from_keys() {
    assert_eq!(detect_provider_from_key("sk-ant-xyz"), "anthropic");
    assert_eq!(detect_provider_from_key("sk-or-xyz"), "openrouter");
    assert_eq!(detect_provider_from_key("sk-proj-1"), "openai");
    // A long `sk-` key, built at run time: 24 bytes, over the 20-byte bound.
    let long_key = format!("sk-{}", "1".repeat(21));
    assert_eq!(detect_provider_from_key(&long_key), "openai");
    let short_key = format!("sk-{}", "1".repeat(17));
    assert_eq!(
        detect_provider_from_key(&short_key),
        "unknown (try: anthropic, openai, google, groq, openrouter)"
    );
    assert_eq!(detect_provider_from_key("gsk_1"), "groq");
    assert_eq!(detect_provider_from_key("AIza1"), "google");
    assert_eq!(
        detect_provider_from_key("sk-short"),
        "unknown (try: anthropic, openai, google, groq, openrouter)"
    );
}

#[test]
fn repl_event_output() {
    assert!(approval_answer(" Yes\n"));
    assert!(approval_answer("y"));
    assert!(!approval_answer("no"));
    assert_eq!(format_tool_end("bash", false, 12, "done"), "[tool: bash -> ok in 12ms] done");
    let long = "x".repeat(205);
    let line = format_tool_end("read", true, 0, &long);
    assert_eq!(line, format!("[tool: read -> error in 0ms] {}...", "x".repeat(200)));
}

#[test]
fn skill_list_marks_active() {
    let mut catalog = SkillCatalog::default();
    assert_eq!(
        render_skill_list(&catalog, &ActiveSkills::default()),
        "[skills] none found under ~/.pi/skills or .pi/skills"
    );
    catalog.upsert(skill("beta"));
    catalog.upsert(skill("alpha"));
    let mut active = ActiveSkills::default();
    active.set("beta");
    assert_eq!(
        render_skill_list(&catalog, &active),
        "[ ] alpha - demo skill (skills/alpha/SKILL.md)\n[*] beta - demo skill (skills/beta/SKILL.md)"
    );
}

#[test]
fn styles_and_prefixes() {
    assert_eq!(role_prefix("user"), ("you> ", "     "));
    assert_eq!(role_prefix("other"), ("sys> ", "     "));
    assert_eq!(style_chat_line("you> hi"), "\x1b[1;36myou> \x1b[0mhi");
    assert_eq!(style_chat_line("err> bad"), "\x1b[1;31merr> \x1b[0m\x1b[1;31mbad\x1b[0m");
    assert_eq!(style_chat_line("plain"), "plain");
    assert_eq!(style_status("auth required"), "\x1b[1;33mauth required\x1b[0m");
    assert_eq!(style_status("ready"), "\x1b[1;36mready\x1b[0m");
    assert_eq!(render_thinking_suffix(true, Some(ThinkingLevel::Low)), " (thinking: low)");
    assert_eq!(render_thinking_suffix(false, Some(ThinkingLevel::Low)), "");
}

#[test]
fn wrapping_and_fitting() {
    assert_eq!(wrap_plain_line("abcdefg", 3), vec!["abc", "def", "g"]);
    assert_eq!(wrap_plain_line("", 3), vec![""]);
    assert_eq!(wrap_plain_line("abc", 0), vec![""]);
    assert_eq!(pad_or_truncate_visible("ab", 4), "ab  ");
    assert_eq!(pad_or_truncate_visible("abcdef", 3), "abc");
    assert_eq!(pad_or_truncate_visible("\x1b[1mab\x1b[0m", 3), "\x1b[1mab\x1b[0m ");
    assert_eq!(pad_or_truncate_visible("x", 0), "");
    assert_eq!(truncate("hello", 10), "hello");
    assert_eq!(truncate("hello world", 8), "hello...");
    assert_eq!(truncate("hello", 2), "...");
    assert_eq!(make_box_top(12, "Chat"), "┌── Chat ──┐");
    assert_eq!(make_box_top(2, "Chat"), "┌┐");
    assert_eq!(make_box_top(1, "Chat"), "");
    assert_eq!(make_box_bottom(4), "└──┘");
    let lines = vec!["a".to_string(), "b".to_string(), "c".to_string()];
    assert_eq!(history_tail(&lines, 2), vec!["b", "c"]);
    assert_eq!(history_tail(&lines, 5), lines);
}

#[test]
fn layout_of_the_screen() {
    assert_eq!(
        screen_layout(80, 24, 3),
        ScreenLayout::Boxed {
            chat_y: 2,
            chat_box_h: 16,
            chat_inner_h: 14,
            chat_inner_w: 78,
            editor_y: 18,
            editor_box_h: 5,
            footer_y: 23
        }
    );
    assert_eq!(
        screen_layout(30, 24, 3),
        ScreenLayout::Compact { history_rows: 18, status_row: 20, editor_row: 21 }
    );
    assert_eq!(
        screen_layout(80, 10, 3),
        ScreenLayout::Compact { history_rows: 4, status_row: 6, editor_row: 7 }
    );
}

#[test]
fn conversation_state_counts_turns_and_tools() {
    let mut app = TuiApp::new();
    app.push_message("user", "hello".to_string());
    app.push_system("note".to_string());
    app.push_tool_start("bash");
    app.push_tool_end("bash", true);
    app.push_message("assistant", "hi".to_string());
    assert_eq!(app.turns(), 1);
    assert_eq!(app.tool_runs(), 1);
    assert_eq!(app.tool_errors(), 1);
    assert_eq!(app.messages()[2].text, "\u{25b6} bash  running");
    assert_eq!(app.messages()[3].text, "\u{25a0} bash  error");
    app.set_ready_status("anthropic", "opus-4-6", false, true, Some(ThinkingLevel::High));
    assert_eq!(app.status, "auth required");
    assert_eq!(app.footer_thinking, "high");
    let footer = app.render_footer_row();
    assert!(footer.contains("msg:5 turn:1 u:1 a:1"));
    assert!(footer.contains("\x1b[1;33m1/1\x1b[0m"));
    let rendered = vec![vec![], vec![], vec![], vec![], vec!["**hi**".to_string()]];
    let lines = app.render_history_lines(40, &rendered);
    assert_eq!(lines[0], "you> hello");
    assert_eq!(lines[4], "pi > **hi**");
}
