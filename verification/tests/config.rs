use codehelm::config::{
    apply_overrides, load_config, merge_file, merge_value, Config, ConfigError, ConfigFile,
    ConfigLayer, ConfigOverrides, Provider,
};
use codehelm::json::{parse, Json};
use codehelm::permissions::PermissionPolicy;

fn json(text: &str) -> Json {
    parse(text).unwrap()
}

fn layer(path: &str, content: &str) -> ConfigLayer {
    ConfigLayer { path: path.to_owned(), file: ConfigFile::Content(content.to_owned()) }
}

fn missing() -> ConfigLayer {
    ConfigLayer { path: "p".to_owned(), file: ConfigFile::Missing }
}

#[test]
fn nested_values_merge_without_losing_defaults() {
    let mut target = json(r#"{"a": 1, "nested": {"left": true, "right": true}}"#);
    merge_value(&mut target, json(r#"{"nested": {"right": false}}"#));
    assert_eq!(target, json(r#"{"a": 1, "nested": {"left": true, "right": false}}"#));
}

#[test]
fn repeated_keys_count_once() {
    let mut target = Json::Object(vec![]);
    merge_value(
        &mut target,
        Json::Object(vec![
            ("k".to_owned(), json(r#"{"a": 1}"#)),
            ("k".to_owned(), json(r#"{"b": 2}"#)),
        ]),
    );
    assert_eq!(target, json(r#"{"k": {"b": 2}}"#));
}

#[test]
fn scalars_replace_objects_and_objects_scalars() {
    let mut target = json(r#"{"a": {"b": 1}, "c": 2}"#);
    merge_value(&mut target, json(r#"{"a": 3, "c": {"d": 4}}"#));
    assert_eq!(target, json(r#"{"a": 3, "c": {"d": 4}}"#));
    merge_value(&mut target, Json::Null);
    assert_eq!(target, Json::Null);
}

#[test]
fn project_wins_over_global_and_the_command_line_over_both() {
    let loaded = load_config(
        json(r#"{"model": "default", "provider": "openai", "maxTurns": 20, "deep": {"x": 1, "y": 1}}"#),
        Some(layer("global", r#"{"model": "global", "maxTurns": 5, "deep": {"x": 2}}"#)),
        layer("project", r#"{"model": "project", "deep": {"y": 3}}"#),
        ConfigOverrides {
            provider: Some(Provider::OpenaiCompatible),
            model: None,
            max_turns: Some(7),
        },
    )
    .unwrap()
    .unwrap();
    assert_eq!(
        loaded,
        json(
            r#"{"model": "project", "provider": "openai-compatible", "maxTurns": 7,
                "deep": {"x": 2, "y": 3}}"#
        )
    );
}

#[test]
fn files_that_fail_are_errors() {
    let unreadable =
        ConfigLayer { path: "g".to_owned(), file: ConfigFile::Unreadable("denied".to_owned()) };
    let error = load_config(Json::Null, Some(unreadable), missing(), ConfigOverrides::default())
        .unwrap_err();
    assert_eq!(error.describe(), "failed to read configuration g: denied");
    let mut target = json("{}");
    let error = merge_file(&mut target, layer("p", "{")).unwrap_err();
    assert!(matches!(error, ConfigError::Parse { .. }));
    assert!(error.describe().starts_with("invalid configuration p: "));
    assert_eq!(target, json("{}"));
    assert_eq!(
        ConfigError::Invalid("x".to_owned()).describe(),
        "merged configuration is invalid: x"
    );
}

#[test]
fn keys_can_only_be_set_on_objects() {
    let overrides = || ConfigOverrides { model: Some("m".to_owned()), ..ConfigOverrides::default() };
    assert_eq!(load_config(json("{}"), None, layer("p", "[]"), overrides()), Ok(None));
    assert_eq!(
        load_config(json("{}"), None, layer("p", "[]"), ConfigOverrides::default()),
        Ok(Some(json("[]")))
    );
    assert_eq!(
        load_config(json("{}"), None, layer("p", "null"), overrides()),
        Ok(Some(json(r#"{"model": "m"}"#)))
    );
    let mut value = Json::Null;
    apply_overrides(&mut value, overrides());
    assert_eq!(value.at("model").as_str(), Some("m"));
}

#[test]
fn defaults_are_the_documented_ones() {
    let config = Config::default();
    assert_eq!(config.provider, Provider::Openai);
    assert_eq!(config.model, "gpt-5-mini");
    assert_eq!(config.base_url, None);
    assert_eq!(config.max_turns, 20);
    assert_eq!(config.command_timeout_ms, 120_000);
    assert_eq!(config.max_tool_output_chars, 30_000);
    assert_eq!(config.max_instruction_chars, 100_000);
    assert_eq!(config.max_context_chars, 400_000);
    assert_eq!(config.provider_max_retries, 3);
    assert_eq!(config.provider_retry_base_ms, 500);
    assert_eq!(config.max_total_tokens, None);
    assert_eq!(config.permissions, PermissionPolicy::default());
    let names: Vec<&str> = [
        Provider::Openai,
        Provider::Anthropic,
        Provider::Ollama,
        Provider::OpenaiCompatible,
    ]
    .iter()
    .map(|provider| provider.name())
    .collect();
    assert_eq!(names, ["openai", "anthropic", "ollama", "openai-compatible"]);
}
