use pi_coding_agent::migrate::{
    header_json_candidate, header_version, migrate_entries, migrate_header, needs_migration, EntryFacts,
    JsonField, CURRENT_VERSION,
    LineFacts, LineMigration, NewTimestamp, TimeField,
};
use pi_coding_agent::rpc::{accept_persisted_auth, PersistedAuth, RpcCommand, RpcSessionState};
use pi_coding_agent::session::{
    branch_points, describe_entry, fork_lines, is_describable, is_short_id_cuttable, load_entries,
    merge_entries, path_message_indices,
    remap_entry_ids, truncate, EntryBody, ForkError, LlmRole, MessageInfo, SessionEntry,
};
use pi_coding_agent::tree::{ancestor_path, build_tree, entry_index, EntryInfo, NavError, TreeNode};

fn entry(id: &str, parent: Option<&str>, body: EntryBody<u32>) -> SessionEntry<u64, u32> {
    SessionEntry { id: id.to_string(), parent_id: parent.map(|p| p.to_string()), timestamp: 7, body }
}

fn info(id: &str, parent: Option<&str>) -> EntryInfo {
    EntryInfo {
        id: id.to_string(),
        parent_id: parent.map(|p| p.to_string()),
        entry_type: "message".to_string(),
        summary: String::new(),
    }
}

#[test]
fn entries_are_described() {
    let e: SessionEntry<u64, MessageInfo> = SessionEntry {
        id: "a".to_string(),
        parent_id: None,
        timestamp: 0,
        body: EntryBody::Message { message: MessageInfo::Llm { role: LlmRole::User, text: "x".repeat(81) } },
    };
    let (kind, parent, summary) = describe_entry(&e);
    assert_eq!(kind, "message");
    assert_eq!(parent, None);
    assert_eq!(summary, format!("[user] {}...", "x".repeat(80)));
    let b: SessionEntry<u64, MessageInfo> = SessionEntry {
        id: "b".to_string(),
        parent_id: Some("a".to_string()),
        timestamp: 0,
        body: EntryBody::BranchSummary {
            branch_entry_id: "0123456789abcdef".to_string(),
            summary: "short".to_string(),
            tokens_before: 3,
        },
    };
    let (kind, parent, summary) = describe_entry(&b);
    assert_eq!(kind, "branch_summary");
    assert_eq!(parent, Some("a".to_string()));
    assert_eq!(summary, "[branch_summary@01234567] short");
    let m: SessionEntry<u64, MessageInfo> = SessionEntry {
        id: "c".to_string(),
        parent_id: None,
        timestamp: 0,
        body: EntryBody::ModelChange { model: "opus-4-6".to_string(), provider: "anthropic".to_string() },
    };
    assert_eq!(describe_entry(&m).2, "[model] anthropic/opus-4-6");
    assert_eq!(truncate("abcdef", 3), "abc...");
    assert_eq!(truncate("abc", 3), "abc");
}

#[test]
fn merged_entries_chain_from_last() {
    let entries = vec![
        entry("x", None, EntryBody::Message { message: 1 }),
        entry("y", Some("x"), EntryBody::Compaction {
            summary: "s".to_string(),
            first_kept_entry_id: "x".to_string(),
            tokens_before: 5,
        }),
        entry("z", Some("y"), EntryBody::Label { label: "l".to_string() }),
    ];
    let fresh = vec!["n1".to_string(), "n2".to_string(), "n3".to_string()];
    let merged = merge_entries(entries, &fresh, &Some("last".to_string()));
    assert_eq!(merged.len(), 3);
    assert_eq!(merged[0].id, "n1");
    assert_eq!(merged[0].parent_id, Some("last".to_string()));
    assert_eq!(merged[1].parent_id, Some("n1".to_string()));
    assert_eq!(merged[2].parent_id, Some("n2".to_string()));
    match &merged[1].body {
        EntryBody::Compaction { first_kept_entry_id, .. } => assert_eq!(first_kept_entry_id, "n1"),
        _ => panic!("wrong body"),
    }
}

#[test]
fn remapped_entries_keep_unknown_references() {
    let e = entry("a", None, EntryBody::BranchSummary {
        branch_entry_id: "elsewhere".to_string(),
        summary: "s".to_string(),
        tokens_before: 1,
    });
    let remap = vec![("a".to_string(), "b".to_string())];
    let r = remap_entry_ids(e, "b", &None, &remap);
    assert_eq!(r.id, "b");
    match r.body {
        EntryBody::BranchSummary { branch_entry_id, .. } => assert_eq!(branch_entry_id, "elsewhere"),
        _ => panic!("wrong body"),
    }
}

#[test]
fn fork_keeps_lines_up_to_the_entry() {
    let lines: Vec<String> = vec!["header", "l1", "  ", "l2", "l3"].into_iter().map(|s| s.to_string()).collect();
    let ids = vec![None, Some("a".to_string()), None, Some("b".to_string()), Some("c".to_string())];
    assert_eq!(fork_lines(&lines, &ids, "b"), Ok(vec!["header".to_string(), "l1".to_string(), "l2".to_string()]));
    assert_eq!(fork_lines(&lines, &ids, "q"), Err(ForkError::EntryNotFound));
    assert_eq!(fork_lines(&vec![], &vec![], "b"), Err(ForkError::EmptySession));
}

#[test]
fn loading_collects_messages_and_last_id() {
    let entries = vec![
        Some(entry("a", None, EntryBody::Message { message: 1 })),
        None,
        Some(entry("b", Some("a"), EntryBody::Label { label: "x".to_string() })),
        Some(entry("c", Some("b"), EntryBody::Message { message: 3 })),
        None,
    ];
    let (messages, last) = load_entries(entries);
    assert_eq!(messages, vec![1, 3]);
    assert_eq!(last, Some("c".to_string()));
}

#[test]
fn messages_on_a_path() {
    let entries = vec![
        entry("a", None, EntryBody::Message { message: 1 }),
        entry("b", Some("a"), EntryBody::Label { label: "x".to_string() }),
        entry("c", Some("b"), EntryBody::Message { message: 3 }),
    ];
    let path = vec!["a".to_string(), "b".to_string(), "c".to_string()];
    assert_eq!(path_message_indices(&entries, &path), vec![0, 2]);
}

#[test]
fn tree_and_paths() {
    let raw = vec![info("a", None), info("b", Some("a")), info("c", Some("a")), info("d", Some("b"))];
    let nodes = build_tree(&raw).unwrap();
    assert_eq!(nodes[0].children, vec!["b".to_string(), "c".to_string()]);
    assert_eq!(nodes[3].parent_id, Some("b".to_string()));
    let points = branch_points(nodes);
    assert_eq!(points.len(), 1);
    assert_eq!(points[0].entry_id, "a");
    assert_eq!(ancestor_path(&raw, "d"), Ok(vec!["a".to_string(), "b".to_string(), "d".to_string()]));
    assert_eq!(ancestor_path(&raw, "zz"), Err(NavError::NotFound));
    assert_eq!(entry_index(&raw, "c"), Some(2));
    let cyclic = vec![info("a", Some("b")), info("b", Some("a"))];
    let err = build_tree(&cyclic).unwrap_err();
    assert_eq!(err.start, "a");
    assert_eq!(err.repeated, "a");
    assert_eq!(
        err.message(),
        "Cycle detected in session tree: entry 'a' appears twice when walking ancestors of 'a'"
    );
    assert_eq!(ancestor_path(&cyclic, "b"), Err(NavError::Cycle("b".to_string())));
    let _unused: Vec<TreeNode> = Vec::new();
}

fn facts(id: JsonField, parent: JsonField) -> EntryFacts {
    EntryFacts {
        id,
        has_type: false,
        has_message: false,
        has_summary: false,
        has_first_kept_entry_id: false,
        has_model: true,
        has_branch_entry_id: false,
        has_timestamp: false,
        message_timestamp: None,
        created_at: JsonField::Missing,
        date: JsonField::Missing,
        time: JsonField::Missing,
        ts: JsonField::Int(1_700_000_000),
        parent_id: parent,
    }
}

#[test]
fn migration_of_entries() {
    let lines = vec![
        LineFacts::Entry(facts(JsonField::Str("a".to_string()), JsonField::Missing)),
        LineFacts::Entry(facts(JsonField::Str("a".to_string()), JsonField::Str("a".to_string()))),
        LineFacts::Blank,
        LineFacts::Malformed,
        LineFacts::Entry(facts(JsonField::Missing, JsonField::Str("a".to_string()))),
    ];
    let fresh: Vec<String> = (0..5).map(|i| format!("f{}", i)).collect();
    let plan = migrate_entries(1, &lines, &fresh);
    match &plan[0] {
        LineMigration::Edit(e) => {
            assert_eq!(e.set_id, None);
            assert_eq!(e.set_type, Some("model_change".to_string()));
            assert!(e.add_null_parent);
            assert_eq!(e.timestamp, Some(NewTimestamp::Seconds(1_700_000_000)));
        }
        other => panic!("unexpected {:?}", other),
    }
    match &plan[1] {
        LineMigration::Edit(e) => {
            assert_eq!(e.set_id, Some("f1".to_string()));
            assert_eq!(e.set_parent, Some("f1".to_string()));
        }
        other => panic!("unexpected {:?}", other),
    }
    assert!(matches!(plan[2], LineMigration::Keep));
    match &plan[3] {
        LineMigration::PreserveMalformed { id } => assert_eq!(id, "f3"),
        other => panic!("unexpected {:?}", other),
    }
    match &plan[4] {
        LineMigration::Edit(e) => {
            assert_eq!(e.set_id, Some("f4".to_string()));
            assert_eq!(e.set_parent, Some("f1".to_string()));
        }
        other => panic!("unexpected {:?}", other),
    }
    let mut v0 = facts(JsonField::Str("q".to_string()), JsonField::Missing);
    v0.has_model = false;
    v0.created_at = JsonField::Str("2024-01-02T03:04:05Z".to_string());
    let plan0 = migrate_entries(0, &vec![LineFacts::Entry(v0)], &vec!["g".to_string()]);
    match &plan0[0] {
        LineMigration::Edit(e) => {
            assert_eq!(e.set_type, Some("message".to_string()));
            assert_eq!(e.timestamp, Some(NewTimestamp::Parsed(TimeField::CreatedAt)));
        }
        other => panic!("unexpected {:?}", other),
    }
}

#[test]
fn migration_of_the_header() {
    assert_eq!(header_version(Some(2)), 2);
    assert_eq!(header_version(None), 0);
    assert_eq!(header_version(Some((1u64 << 32) + 3)), 3);
    assert_eq!(header_json_candidate("xx{\"a\":1}yy"), Some("{\"a\":1}".to_string()));
    assert_eq!(header_json_candidate("no json"), None);
    let edits = migrate_header(true, false, true, false);
    assert!(!edits.add_type && edits.add_id && !edits.add_timestamp && edits.add_cwd);
}

#[test]
fn rpc_commands_and_auth() {
    let c = RpcCommand::Prompt { id: Some("1".to_string()), message: "hi".to_string() };
    assert_eq!(c.id(), Some("1"));
    assert_eq!(c.kind_name(), "prompt");
    let a = RpcCommand::SetAutoCompaction { id: None, enabled: true };
    assert_eq!(a.id(), None);
    assert_eq!(a.kind_name(), "set_auto_compaction");
    let s = RpcSessionState { is_streaming: false, message_count: 2, auto_compaction_enabled: true };
    assert_eq!(s.message_count, 2);
    let blank = PersistedAuth { api_key: "  ".to_string(), provider: None };
    assert_eq!(accept_persisted_auth(Some(blank)), None);
    let good = PersistedAuth { api_key: "k".to_string(), provider: Some("openai".to_string()) };
    assert_eq!(accept_persisted_auth(Some(good.clone())), Some(good));
    assert_eq!(accept_persisted_auth(None), None);
}

#[test]
fn branch_entry_ids_must_cut_at_a_char_boundary() {
    assert!(is_short_id_cuttable("0123456789abcdef"));
    assert!(is_short_id_cuttable("short"));
    assert!(!is_short_id_cuttable("abcdefgé-more"));
    let summary = |target: &str| SessionEntry::<u64, MessageInfo> {
        id: "b".to_string(),
        parent_id: None,
        timestamp: 0,
        body: EntryBody::BranchSummary { branch_entry_id: target.to_string(), summary: "s".to_string(), tokens_before: 1 },
    };
    assert!(is_describable(&summary("0123456789abcdef")));
    assert!(!is_describable(&summary("abcdefgé-more")));
}

#[test]
fn only_older_schemas_are_migrated() {
    assert_eq!(CURRENT_VERSION, 3);
    assert!(needs_migration(0));
    assert!(needs_migration(2));
    assert!(!needs_migration(3));
    assert!(!needs_migration(7));
    assert!(!needs_migration(header_version(Some(3))));
    assert!(needs_migration(header_version(None)));
}
