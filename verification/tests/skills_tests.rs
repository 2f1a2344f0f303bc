use pi_coding_agent::skills::{
    decorate_user_text, front_matter_of, parse_skill_content_full, plan_install,
    skill_source_file, slugify, ActiveSkills, InstallError, Skill, SkillCatalog, SkillMetadata,
    SkillTool,
};

fn skill(name: &str, description: &str, path: &str, content: &str, tags: &[&str]) -> Skill {
    Skill {
        name: name.to_string(),
        description: description.to_string(),
        path: path.to_string(),
        content: content.to_string(),
        metadata: SkillMetadata {
            tags: tags.iter().map(|t| t.to_string()).collect(),
            ..Default::default()
        },
    }
}

#[test]
fn parse_yaml_frontmatter() {
    let raw = "---\nname: rust-style\ndescription: Rust style guide\nversion: \"1.0.0\"\nauthor: \"Test Author\"\ntags:\n  - rust\n  - style\n  - formatting\n---\nUse snake_case.";
    // What YAML parsing of the front matter gives.
    let yaml = SkillMetadata {
        name: "rust-style".to_string(),
        description: "Rust style guide".to_string(),
        version: "1.0.0".to_string(),
        author: "Test Author".to_string(),
        tags: vec!["rust".to_string(), "style".to_string(), "formatting".to_string()],
        ..Default::default()
    };
    let (name, description, body, metadata) =
        parse_skill_content_full("/tmp/rust-style/SKILL.md", raw, Some(yaml));
    assert_eq!(name, "rust-style");
    assert_eq!(description, "Rust style guide");
    assert_eq!(body, "Use snake_case.");
    assert_eq!(metadata.version, "1.0.0");
    assert_eq!(metadata.author, "Test Author");
    assert_eq!(metadata.tags, vec!["rust", "style", "formatting"]);
}

#[test]
fn parse_frontmatter_and_body() {
    let raw = "---\nname: rust-style\ndescription: Rust style guide\n---\nUse snake_case.";
    let yaml = SkillMetadata {
        name: "rust-style".to_string(),
        description: "Rust style guide".to_string(),
        ..Default::default()
    };
    let (name, description, body, _) =
        parse_skill_content_full("/tmp/rust-style/SKILL.md", raw, Some(yaml));
    assert_eq!(name, "rust-style");
    assert_eq!(description, "Rust style guide");
    assert_eq!(body, "Use snake_case.");
}

#[test]
fn fallback_name_from_parent_dir() {
    let raw = "No frontmatter";
    let (name, description, body, _) =
        parse_skill_content_full("/tmp/code-review/SKILL.md", raw, None);
    assert_eq!(name, "code-review");
    assert_eq!(description, "code-review");
    assert_eq!(body, "No frontmatter");
}

#[test]
fn key_value_front_matter_when_yaml_fails() {
    let raw = "---\nName: \"quoted\"\nversion: '2'\nlicense: MIT\nbogus line\n---\n  body  \n";
    assert_eq!(
        front_matter_of(raw).as_deref(),
        Some("Name: \"quoted\"\nversion: '2'\nlicense: MIT\nbogus line")
    );
    let (name, description, body, metadata) =
        parse_skill_content_full("/x/y/SKILL.md", raw, None);
    assert_eq!(name, "quoted");
    assert_eq!(description, "quoted");
    assert_eq!(body, "body");
    assert_eq!(metadata.version, "2");
    assert_eq!(metadata.license.as_deref(), Some("MIT"));
}

#[test]
fn decorate_user_text_includes_active_skills() {
    let mut catalog = SkillCatalog::default();
    catalog.upsert(skill(
        "review",
        "code review",
        "/tmp/review/SKILL.md",
        "Prioritize high severity issues.",
        &[],
    ));
    let mut active = ActiveSkills::default();
    active.set("review");
    let out = decorate_user_text("Check src/", &catalog, &active);
    assert!(out.contains("[Active skills]"));
    assert!(out.contains("Prioritize high severity issues."));
    assert!(out.ends_with("Check src/"));
}

#[test]
fn decorate_exact_text_and_inactive_case() {
    let mut catalog = SkillCatalog::default();
    catalog.upsert(skill("Review", "d", "/r/SKILL.md", "Body", &[]));
    let mut active = ActiveSkills::default();
    assert_eq!(decorate_user_text("hi", &catalog, &active), "hi");
    active.set("missing");
    assert_eq!(decorate_user_text("hi", &catalog, &active), "hi");
    active.set("REVIEW");
    assert_eq!(
        decorate_user_text("hi", &catalog, &active),
        "[Active skills]\n## Skill: Review\nSource: /r/SKILL.md\nVersion: \n\nBody\n[End active skills]\n\nhi"
    );
}

#[test]
fn decorate_cuts_long_content() {
    let mut catalog = SkillCatalog::default();
    catalog.upsert(skill("big", "d", "/b/SKILL.md", &"é".repeat(9000), &[]));
    let mut active = ActiveSkills::default();
    active.set("big");
    let out = decorate_user_text("", &catalog, &active);
    assert_eq!(out.chars().filter(|c| *c == 'é').count(), 8000);
}

#[test]
fn slugify_normalizes_name() {
    assert_eq!(slugify("Rust Review"), "rust_review");
    assert_eq!(slugify("C++/Style"), "c_style");
    assert_eq!(slugify("___"), "skill");
}

#[test]
fn slugify_collapses_and_trims() {
    assert_eq!(slugify("  Hello,  World!  "), "hello_world");
    assert_eq!(slugify(""), "skill");
    assert_eq!(slugify("Ünïcode 42"), "n_code_42");
}

#[test]
fn test_search_skills() {
    let mut catalog = SkillCatalog::default();
    catalog.upsert(skill(
        "rust-best-practices",
        "Best practices for Rust",
        "/tmp/rust/SKILL.md",
        "Content",
        &["rust", "best-practices"],
    ));
    catalog.upsert(skill(
        "python-style",
        "Python style guide",
        "/tmp/python/SKILL.md",
        "Content",
        &["python"],
    ));

    let results = catalog.search("rust");
    assert_eq!(results.len(), 1);
    assert_eq!(results[0].name, "rust-best-practices");

    let by_tag = catalog.by_tag("python");
    assert_eq!(by_tag.len(), 1);
    assert_eq!(by_tag[0].name, "python-style");
}

#[test]
fn test_active_skills() {
    let mut active = ActiveSkills::default();
    active.set("skill1");
    active.set("skill2");

    assert!(active.has("skill1"));
    assert!(active.has("Skill1"));
    assert!(!active.has("skill3"));

    active.remove("skill1");
    assert!(!active.has("skill1"));
    assert_eq!(active.list().len(), 1);
}

#[test]
fn catalog_is_sorted_and_case_insensitive() {
    let mut catalog = SkillCatalog::default();
    assert!(catalog.is_empty());
    catalog.upsert(skill("zeta", "z", "/z", "", &["B", "a"]));
    catalog.upsert(skill("Alpha", "a", "/a", "", &["a", "c"]));
    catalog.upsert(skill("mid", "m", "/m", "", &[]));
    assert_eq!(catalog.names(), vec!["Alpha", "mid", "zeta"]);
    assert_eq!(catalog.len(), 3);
    assert_eq!(catalog.get("ALPHA").map(|s| s.description.as_str()), Some("a"));
    assert!(catalog.get("nope").is_none());
    catalog.upsert(skill("mid", "replaced", "/m2", "", &[]));
    assert_eq!(catalog.len(), 3);
    assert_eq!(catalog.get("mid").map(|s| s.description.as_str()), Some("replaced"));
    assert_eq!(catalog.all_tags(), vec!["B", "a", "c"]);
    assert_eq!(catalog.by_tag("b").len(), 1);
    let all = catalog.skills();
    assert_eq!(all.len(), 3);
    assert_eq!(all[2].name, "zeta");
}

#[test]
fn active_list_is_sorted_and_clear_empties() {
    let mut active = ActiveSkills::default();
    active.set("Beta");
    active.set("alpha");
    active.set("BETA");
    assert_eq!(active.list(), vec!["alpha", "beta"]);
    active.clear();
    assert!(active.is_empty());
}

#[test]
fn skill_info_lists_present_fields() {
    let mut s = skill("n", "d", "/p", "c", &["x", "y"]);
    s.metadata.version = "1".to_string();
    s.metadata.license = Some("MIT".to_string());
    assert_eq!(s.info(), "Name: n\nDescription: d\nVersion: 1\nTags: x, y\nLicense: MIT\n");
    let plain = skill("n", "d", "/p", "c", &[]);
    assert_eq!(plain.info(), "Name: n\nDescription: d\n");
}

#[test]
fn install_plan_checks_file_and_content() {
    assert_eq!(
        plan_install("/src/README.md", "x", None, "/dest").err(),
        Some(InstallError::NotSkillFile)
    );
    assert_eq!(
        plan_install("/src/SKILL.md", "  \n ", None, "/dest").err(),
        Some(InstallError::EmptyFile)
    );
    let raw = "---\nname: rust-review\ndescription: review rust\n---\nUse idiomatic Rust.";
    let (dir, installed) = plan_install("/src/SKILL.md", raw, None, "/dest").unwrap();
    assert_eq!(dir, "/dest/rust_review");
    assert_eq!(installed.name, "rust-review");
    assert_eq!(installed.path, "/dest/rust_review/SKILL.md");
    assert_eq!(installed.content, "Use idiomatic Rust.");
    assert_eq!(skill_source_file("/src", true), "/src/SKILL.md");
    assert_eq!(skill_source_file("/src/SKILL.md", false), "/src/SKILL.md");
}

#[test]
fn skill_tool_output_includes_task() {
    let tool = SkillTool::from_skill(skill("Code Review", "reviews", "/r/SKILL.md", "Body", &[]));
    assert_eq!(tool.tool_name, "skill_code_review");
    assert_eq!(tool.description, "Load instructions from skill 'Code Review' (reviews)");
    assert_eq!(tool.output(Some("  check  ")), "Skill: Code Review\nSource: /r/SKILL.md\nTask: check\n\nBody");
    assert_eq!(tool.output(Some("   ")), "Skill: Code Review\nSource: /r/SKILL.md\n\nBody");
}
