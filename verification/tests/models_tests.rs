use pi_coding_agent::models::{filter_models, find_exact_model_match, model_selector_id, ModelEntry};

fn model(provider: &str, id: &str, name: &str) -> ModelEntry {
    ModelEntry { provider: provider.to_string(), id: id.to_string(), name: name.to_string() }
}

#[test]
fn exact_model_match_supports_provider_prefix() {
    let models = vec![model("anthropic", "opus-4-6", "Opus"), model("openai", "gpt-x", "GPT")];
    let matched = find_exact_model_match(&models, " Anthropic / OPUS-4-6 ").unwrap();
    assert_eq!(matched.id, "opus-4-6");
    assert_eq!(matched.provider, "anthropic");
    assert!(find_exact_model_match(&models, "openai/opus-4-6").is_none());
    assert!(find_exact_model_match(&models, "anthropic/").is_none());
    assert!(find_exact_model_match(&models, "  ").is_none());
}

#[test]
fn exact_model_match_requires_uniqueness_without_provider() {
    let models = vec![model("anthropic", "same", "A"), model("openai", "same", "B")];
    assert!(find_exact_model_match(&models, "same").is_none());
    assert_eq!(find_exact_model_match(&models, "openai/same").unwrap().name, "B");
}

#[test]
fn selector_filter_and_ids() {
    let models = vec![model("anthropic", "opus-4-6", "Opus"), model("openai", "gpt-x", "GPT")];
    assert_eq!(filter_models(&models, "  ").len(), 2);
    let hits = filter_models(&models, "OPEN");
    assert_eq!(hits.len(), 1);
    assert_eq!(hits[0].id, "gpt-x");
    assert_eq!(filter_models(&models, "ic/op").len(), 1);
    assert_eq!(filter_models(&models, " opus").len(), 0);
    assert_eq!(model_selector_id(&models[0]), "anthropic/opus-4-6");
}
