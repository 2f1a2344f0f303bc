use pi_coding_agent::mom::sandbox::{sandbox_command, SandboxConfig};
use pi_coding_agent::mom::skills::{is_skill_file, load_skills, parse_skill_file, SkillFile};
use pi_coding_agent::mom::slack::{
    ack_envelope, backoff_step, check_api_reply, event_context, event_type_label, handle_files,
    parse_event, websocket_url_of, DefaultEventHandler, EventFields, FileFields, SlackEventType,
    SlackFile, SocketModeClient, WsMessageKind,
};
use pi_coding_agent::mom::state::{ChannelState, StateManager};

#[test]
fn load_skills_nonexistent_dir() {
    // A directory that does not exist holds no skill files.
    let skills = load_skills(Vec::new());
    assert!(skills.is_empty());
}

#[test]
fn load_skills_populated_dir() {
    let files = vec![
        SkillFile {
            path: "/tmp/x/my-skill/SKILL.md".to_string(),
            content: Some("---\nname: greet\ndescription: Say hello\ncommand: echo hello\n---\n# Greet\n".to_string()),
        },
        SkillFile { path: "/tmp/x/broken/SKILL.md".to_string(), content: None },
    ];
    let skills = load_skills(files);
    assert_eq!(skills.len(), 1);
    assert_eq!(skills[0].name, "greet");
    assert_eq!(skills[0].description, "Say hello");
    assert_eq!(skills[0].command, "echo hello");
}

#[test]
fn skill_file_fallbacks() {
    let s = parse_skill_file("/tmp/x/tool-dir/SKILL.md", "no front matter");
    assert_eq!(s.name, "tool-dir");
    assert_eq!(s.description, "");
    let q = parse_skill_file("/a/SKILL.md", "---\n  name: \"quoted\"\ndescription: 'single'\n---");
    assert_eq!(q.name, "quoted");
    assert_eq!(q.description, "single");
    assert!(is_skill_file("/a/b/SKILL.md"));
    assert!(!is_skill_file("/a/b/README.md"));
}

#[test]
fn sandbox_commands() {
    let host = sandbox_command(&SandboxConfig::default(), "ls", "/w");
    assert_eq!(host.program, "bash");
    assert_eq!(host.args, vec!["-c", "ls"]);
    assert_eq!(host.current_dir, Some("/w".to_string()));
    let docker = sandbox_command(&SandboxConfig::Docker { name: "box".to_string() }, "ls", "/w");
    assert_eq!(docker.program, "docker");
    assert_eq!(docker.args, vec!["exec", "-w", "/w", "box", "bash", "-c", "ls"]);
    assert_eq!(docker.current_dir, None);
}

fn fields(event_type: &str) -> EventFields {
    EventFields {
        event_type: Some(event_type.to_string()),
        channel: Some("C1".to_string()),
        ts: Some("1.0".to_string()),
        user: Some("U1".to_string()),
        text: Some("hi".to_string()),
        has_bot_id: false,
        has_subtype: false,
        channel_type: Some("im".to_string()),
        files: Some(vec![
            FileFields { name: Some("a.txt".to_string()), url_private: Some("https://f/a".to_string()) },
            FileFields { name: None, url_private: Some("https://f/b".to_string()) },
        ]),
    }
}

#[test]
fn slack_events_are_read() {
    let m = parse_event(&fields("app_mention")).unwrap();
    assert_eq!(m.event_type, SlackEventType::Mention);
    assert_eq!(m.files.len(), 1);
    assert_eq!(m.files[0].name, "a.txt");
    let dm = parse_event(&fields("message")).unwrap();
    assert_eq!(dm.event_type, SlackEventType::DirectMessage);
    let mut bot = fields("message");
    bot.has_bot_id = true;
    assert!(parse_event(&bot).is_none());
    let mut chan = fields("message");
    chan.channel_type = Some("channel".to_string());
    assert!(parse_event(&chan).is_none());
    assert!(parse_event(&fields("reaction_added")).is_none());
    let ctx = event_context(&m);
    assert_eq!(ctx.thread_ts, Some("1.0".to_string()));
    assert_eq!(event_type_label(SlackEventType::DirectMessage), "DM");
    let client: SocketModeClient<DefaultEventHandler> =
        SocketModeClient::new("xapp".to_string(), "xoxb".to_string()).with_handler(DefaultEventHandler);
    assert_eq!(client.app_token_str(), "xapp");
    assert!(client.process_event(&fields("app_mention")));
    assert!(!client.process_event(&fields("other")));
}

#[test]
fn socket_mode_decisions() {
    assert_eq!(ack_envelope(&WsMessageKind::EventsApi { envelope_id: "env-123".to_string() }), Some("env-123".to_string()));
    assert_eq!(ack_envelope(&WsMessageKind::Hello { app_id: "A123".to_string() }), None);
    assert_eq!(backoff_step(1, false), (1, 2));
    assert_eq!(backoff_step(32, false), (32, 60));
    assert_eq!(backoff_step(60, true), (1, 2));
    assert_eq!(check_api_reply(Some(true), None), Ok(()));
    assert_eq!(check_api_reply(None, None), Err("Slack API error: Unknown error".to_string()));
    assert_eq!(check_api_reply(Some(false), Some("bad".to_string())), Err("Slack API error: bad".to_string()));
    assert_eq!(websocket_url_of(true, Some("wss://x".to_string()), None), Ok("wss://x".to_string()));
    assert_eq!(websocket_url_of(true, None, None), Err("No WebSocket URL in response".to_string()));
    let ev = parse_event(&fields("app_mention")).unwrap();
    assert_eq!(handle_files(&ev), "File: a.txt (https://f/a)");
    let mut two = ev.clone();
    two.files.push(SlackFile { name: "b".to_string(), url: "u".to_string() });
    assert_eq!(handle_files(&two), "File: a.txt (https://f/a)\nFile: b (u)");
}

#[test]
fn test_channel_state() {
    let mut state: ChannelState<&str, i64> = ChannelState::new("C123".to_string());
    assert_eq!(state.id, "C123");
    state.add_message("Hello");
    assert_eq!(state.message_count(), 1);
    let messages = state.get_messages();
    assert_eq!(messages.len(), 1);
}

#[test]
fn channel_state_at_given_times() {
    let mut state: ChannelState<&str, u32> = ChannelState::new_at("C123".to_string(), 1);
    state.add_message_at("Hello", 2);
    state.add_message_at("again", 3);
    assert_eq!(state.get_recent(1), &["again"]);
    assert_eq!(state.get_recent(5), &["Hello", "again"]);
    assert_eq!(*state.last_activity(), 3);
    state.set_thread_ts("9.9".to_string());
    assert_eq!(state.get_thread_ts(), Some("9.9".to_string()));
    state.clear_at(4);
    assert_eq!(state.message_count(), 0);
    assert_eq!(*state.last_activity(), 4);
    assert_eq!(state.get_thread_ts(), Some("9.9".to_string()));
}

#[test]
fn clock_stamps_are_recent() {
    let mut state: ChannelState<u8, i64> = ChannelState::new("C1".to_string());
    let before = *state.last_activity();
    state.add_message(7);
    assert!(*state.last_activity() >= before);
    assert!(before > 1_600_000_000_000);
    state.clear();
    assert_eq!(state.message_count(), 0);
}

#[test]
fn test_state_manager() {
    let mut manager: StateManager<String, i64> = StateManager::new();
    let channel = manager.get_channel("C123");
    assert_eq!(channel.id, "C123");
    let channels = manager.list_channels();
    assert_eq!(channels.len(), 1);
    assert_eq!(channels[0], "C123");
}

#[test]
fn state_manager_keeps_conversations() {
    let mut manager: StateManager<String, u32> = StateManager::new();
    manager.get_channel_at("C123", 0).add_message_at("m".to_string(), 1);
    manager.get_channel_at("D9", 2);
    assert_eq!(manager.list_channels(), vec!["C123".to_string(), "D9".to_string()]);
    let c = manager.get_channel_at("C123", 5);
    assert_eq!(c.message_count(), 1);
    assert_eq!(*c.last_activity(), 1);
    manager.remove_channel("C123");
    assert_eq!(manager.list_channels(), vec!["D9".to_string()]);
    manager.clear();
    assert!(manager.list_channels().is_empty());
}

#[test]
fn load_skills_empty_dir() {
    // An empty directory holds no skill files.
    let skills = load_skills(Vec::new());
    assert!(skills.is_empty());
}

#[test]
fn test_event_processor_creation() {
    let manager: StateManager<String, u64> = StateManager::new();
    assert!(manager.list_channels().is_empty());
}

#[test]
fn test_ack_message_serialization() {
    let envelope = pi_coding_agent::mom::slack::ack_envelope(&WsMessageKind::EventsApi {
        envelope_id: "env-123".to_string(),
    })
    .unwrap();
    let mut ack = serde_json::Map::new();
    ack.insert("envelope_id".to_string(), serde_json::Value::String(envelope));
    let json = serde_json::to_string(&ack).unwrap();
    assert!(json.contains("env-123"));
}
