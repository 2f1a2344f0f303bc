use pi_coding_agent::prompts::{expand, extract_variables, PromptRegistry, PromptTemplate};

fn vars(pairs: &[(&str, &str)]) -> Vec<(String, String)> {
    pairs.iter().map(|(k, v)| (k.to_string(), v.to_string())).collect()
}

#[test]
fn test_load_with_frontmatter() {
    let path = "/tmp/prompts/greet.md";
    let template = PromptTemplate::from_content(
        path,
        "---\nname: greeting\ndescription: Greet someone warmly\n---\nHello, {{name}}! Welcome to {{place}}.",
    );
    assert_eq!(template.name, "greeting");
    assert_eq!(template.description.as_deref(), Some("Greet someone warmly"));
    assert_eq!(template.body, "Hello, {{name}}! Welcome to {{place}}.");
    assert_eq!(template.variables, vec!["name", "place"]);
    assert_eq!(template.path, path);
}

#[test]
fn test_load_without_frontmatter_uses_file_stem() {
    let template = PromptTemplate::from_content(
        "/tmp/prompts/summarize.md",
        "Summarize the following text in {{num_sentences}} sentences:\n\n{{text}}",
    );
    assert_eq!(template.name, "summarize");
    assert!(template.description.is_none());
    assert!(template.body.contains("{{num_sentences}}"));
    assert!(template.body.contains("{{text}}"));
    assert!(template.variables.contains(&"num_sentences".to_string()));
    assert!(template.variables.contains(&"text".to_string()));
}

#[test]
fn test_discover_from_directory() {
    // The two .md files of the directory; the .txt file is not a template.
    let found = vec![
        PromptTemplate::from_content(
            "/d/alpha.md",
            "---\nname: alpha\ndescription: First template\n---\nHello {{user}}.",
        ),
        PromptTemplate::from_content(
            "/d/beta.md",
            "---\nname: beta\ndescription: Second template\n---\nBye {{user}}.",
        ),
    ];
    let registry = PromptRegistry::discover(found);
    assert_eq!(registry.len(), 2);
    assert!(registry.get("alpha").is_some());
    assert!(registry.get("beta").is_some());
    assert!(registry.get("ignored").is_none());
}

#[test]
fn test_expand_replaces_known_variables() {
    let template = PromptTemplate::from_content(
        "/d/deploy.md",
        "Deploy {{service}} to {{environment}}. Notify {{owner}}.",
    );
    let v = vars(&[("service", "api-server"), ("environment", "production")]);
    let expanded = expand(&template, &v);
    assert_eq!(expanded, "Deploy api-server to production. Notify {{owner}}.");
}

#[test]
fn test_expand_missing_variables_left_as_is() {
    let template = PromptTemplate::from_content(
        "/d/analyze.md",
        "Analyze {{file}} using {{tool}} with level {{depth}}.",
    );
    let v = vars(&[("tool", "clippy")]);
    let expanded = expand(&template, &v);
    assert!(expanded.contains("{{file}}"), "{{file}} should survive");
    assert!(expanded.contains("{{depth}}"), "{{depth}} should survive");
    assert!(expanded.contains("clippy"), "{{tool}} should be replaced");
    assert!(!expanded.contains("{{tool}}"), "{{tool}} must be gone");
}

#[test]
fn test_list_returns_all_templates() {
    let found: Vec<PromptTemplate> = ["one", "two", "three"]
        .iter()
        .map(|name| {
            PromptTemplate::from_content(
                &format!("/d/{}.md", name),
                &format!("---\nname: {}\n---\nBody for {}.", name, name),
            )
        })
        .collect();
    let registry = PromptRegistry::discover(found);
    let mut listed_names: Vec<&str> = registry.list().iter().map(|t| t.name.as_str()).collect();
    listed_names.sort();
    assert_eq!(listed_names, vec!["one", "three", "two"]);
}

#[test]
fn test_discover_later_dir_overrides_earlier() {
    let found = vec![
        PromptTemplate::from_content(
            "/a/common.md",
            "---\nname: common\ndescription: from A\n---\nVersion A.",
        ),
        PromptTemplate::from_content(
            "/b/common.md",
            "---\nname: common\ndescription: from B\n---\nVersion B.",
        ),
    ];
    let registry = PromptRegistry::discover(found);
    let template = registry.get("common").unwrap();
    assert_eq!(template.description.as_deref(), Some("from B"));
    assert!(template.body.contains("Version B"));
}

#[test]
fn test_extract_variables_deduplicates() {
    let template = PromptTemplate::from_content(
        "/d/repeat.md",
        "Hello {{name}}, {{name}} again! And also {{other}}.",
    );
    let name_count = template.variables.iter().filter(|v| v.as_str() == "name").count();
    assert_eq!(name_count, 1, "duplicate variable should appear only once");
    assert!(template.variables.contains(&"other".to_string()));
}

#[test]
fn test_discover_empty_directory() {
    let registry = PromptRegistry::discover(Vec::new());
    assert!(registry.is_empty());
}

#[test]
fn test_discover_nonexistent_directory_is_skipped() {
    // A directory that does not exist contributes no template.
    let registry = PromptRegistry::discover(Vec::new());
    assert!(registry.is_empty());
}

#[test]
fn test_template_with_no_variables() {
    let template = PromptTemplate::from_content(
        "/d/static.md",
        "---\nname: static-prompt\n---\nPlease write idiomatic Rust code.",
    );
    assert!(template.variables.is_empty());
}

#[test]
fn test_expand_with_empty_vars_returns_body_unchanged() {
    let template =
        PromptTemplate::from_content("/d/fixed.md", "---\nname: fixed\n---\nFix {{issue}} in {{file}}.");
    let expanded = expand(&template, &Vec::new());
    assert_eq!(expanded, "Fix {{issue}} in {{file}}.");
}

#[test]
fn extract_variables_edge_cases() {
    assert_eq!(extract_variables("{{a}}{{b_1}} {{ c }} {{}} {{d}"), vec!["a", "b_1"]);
    assert_eq!(extract_variables("{{x}}"), vec!["x"]);
    assert!(extract_variables("{{}}").is_empty());
}

#[test]
fn expand_applies_in_order() {
    let template = PromptTemplate::from_content("/d/t.md", "{{a}} {{b}}");
    let v = vars(&[("a", "{{b}}"), ("b", "B")]);
    assert_eq!(expand(&template, &v), "B B");
    let v = vars(&[("b", "B"), ("a", "{{b}}")]);
    assert_eq!(expand(&template, &v), "{{b}} B");
}

#[test]
fn registry_insert_replaces_same_name() {
    let mut registry = PromptRegistry::new();
    registry.insert(PromptTemplate::from_content("/x/a.md", "one"));
    registry.insert(PromptTemplate::from_content("/y/a.md", "two"));
    assert_eq!(registry.len(), 1);
    assert_eq!(registry.get("a").map(|t| t.body.as_str()), Some("two"));
}
