use pi_coding_agent::settings::{deep_merge, CompactionConfig, Settings, SettingsManager};

fn make_manager() -> SettingsManager {
    SettingsManager::with_paths(
        "/tmp/t/home/.pi/agent/settings.json".to_string(),
        "/tmp/t/project/.pi/settings.json".to_string(),
    )
}

#[test]
fn test_load_returns_defaults_when_no_files() {
    let mgr = make_manager();
    let settings = mgr.load(None, None);
    assert_eq!(settings, Settings::default());
    assert!(settings.default_provider.is_none());
    assert!(settings.default_model.is_none());
    assert!(settings.max_turns.is_none());
}

#[test]
fn test_project_overlay_wins_over_user() {
    let mgr = make_manager();
    let user = Settings {
        default_provider: Some("anthropic".to_string()),
        default_model: Some("opus-4-6".to_string()),
        max_turns: Some(10),
        ..Default::default()
    };
    let project = Settings {
        default_model: Some("sonnet-4-6".to_string()),
        max_turns: Some(5),
        ..Default::default()
    };
    let effective = mgr.load(Some(user), Some(project));
    assert_eq!(effective.default_provider.as_deref(), Some("anthropic"));
    assert_eq!(effective.default_model.as_deref(), Some("sonnet-4-6"));
    assert_eq!(effective.max_turns, Some(5));
}

#[test]
fn test_save_load_roundtrip() {
    let mgr = make_manager();
    let original = Settings {
        default_provider: Some("openai".to_string()),
        default_model: Some("gpt-4o".to_string()),
        thinking_level: Some("high".to_string()),
        shell: Some("/bin/zsh".to_string()),
        theme: Some("dark".to_string()),
        max_turns: Some(20),
        compaction: Some(CompactionConfig { enabled: Some(true), reserve_tokens: Some(4096) }),
    };
    // What the user file holds after saving; no project file.
    let loaded = mgr.load(Some(original.clone()), None);
    assert_eq!(loaded.default_provider.as_deref(), Some("openai"));
    assert_eq!(loaded.default_model.as_deref(), Some("gpt-4o"));
    assert_eq!(loaded.thinking_level.as_deref(), Some("high"));
    assert_eq!(loaded.shell.as_deref(), Some("/bin/zsh"));
    assert_eq!(loaded.theme.as_deref(), Some("dark"));
    assert_eq!(loaded.max_turns, Some(20));
    let compaction = loaded.compaction.as_ref().unwrap();
    assert_eq!(compaction.enabled, Some(true));
    assert_eq!(compaction.reserve_tokens, Some(4096));
}

#[test]
fn test_empty_overlay_is_noop() {
    let mut base = Settings {
        default_provider: Some("anthropic".to_string()),
        default_model: Some("opus-4-6".to_string()),
        thinking_level: Some("medium".to_string()),
        max_turns: Some(15),
        compaction: Some(CompactionConfig { enabled: Some(false), reserve_tokens: Some(2048) }),
        ..Default::default()
    };
    let original = base.clone();
    let empty_overlay = Settings::default();
    deep_merge(&mut base, &empty_overlay);
    assert_eq!(base, original);
}

#[test]
fn test_compaction_deep_merge() {
    let mgr = make_manager();
    let user = Settings {
        compaction: Some(CompactionConfig { enabled: Some(false), reserve_tokens: Some(1024) }),
        ..Default::default()
    };
    let project = Settings {
        compaction: Some(CompactionConfig { enabled: None, reserve_tokens: Some(8192) }),
        ..Default::default()
    };
    let effective = mgr.load(Some(user), Some(project));
    let c = effective.compaction.unwrap();
    assert_eq!(c.enabled, Some(false));
    assert_eq!(c.reserve_tokens, Some(8192));
}

#[test]
fn merge_is_idempotent_on_example() {
    let mut a = Settings { theme: Some("light".to_string()), ..Default::default() };
    let o = Settings {
        theme: Some("dark".to_string()),
        compaction: Some(CompactionConfig { enabled: Some(true), reserve_tokens: None }),
        ..Default::default()
    };
    deep_merge(&mut a, &o);
    let once = a.clone();
    deep_merge(&mut a, &o);
    assert_eq!(a, once);
    assert_eq!(a.theme.as_deref(), Some("dark"));
}

#[test]
fn manager_paths() {
    let mgr = SettingsManager::new(Some("/home/u"), "/work/p");
    assert_eq!(mgr.user_settings_path(), "/home/u/.pi/agent/settings.json");
    assert_eq!(mgr.project_settings_path(), "/work/p/.pi/settings.json");
    let mgr = SettingsManager::new(None, "/w");
    assert_eq!(mgr.user_settings_path(), "/tmp/.pi/agent/settings.json");
}
