use orynth::config::{ConfigError, RuntimeConfig};

const EXAMPLE: &str = r#"
# Defaults for a local runtime.
[runtime]
max_concurrent_agents = 6
event_store = ".orynth/runtime.db"
artifact_dir = ".orynth/artifacts"

[models.manager]
provider = "mock"
model = "strong-reasoner-v1"
class = "strong"

[models.worker]
provider = "mock"
model = "cheap-coder-v2"
class = "cheap"

[scheduler]
mode = "economy"
prefer_warm_cache = true
promote_after_failures = 3

[context]
semantic_invalidation = true
subscriptions = true

[security]
default_network = "deny"

[plugins]
process = true
mcp = true
wasm = false
"#;

#[test]
fn parses_readable_runtime_configuration() {
    let config = RuntimeConfig::parse(
        r#"
            [runtime]
            max_concurrent_agents = 4

            [models.worker]
            provider = "mock"
            model = "foundation"
            class = "cheap"

            [security]
            default_network = "deny"
            "#,
    )
    .expect("configuration should parse");

    assert_eq!(config.runtime.max_concurrent_agents, 4);
    assert_eq!(
        config
            .models
            .worker
            .as_ref()
            .map(|model| model.model_class.as_str()),
        Some("cheap")
    );
    assert_eq!(config.security.default_network, "deny");
}

#[test]
fn rejects_invalid_limits() {
    let result = RuntimeConfig::parse(
        r#"
            [runtime]
            max_concurrent_agents = 0
            "#,
    );

    assert!(matches!(result, Err(ConfigError::Invalid(_))));
}

#[test]
fn rejects_unknown_sections() {
    let result = RuntimeConfig::parse("[unknown]\nvalue = true");

    assert!(matches!(result, Err(ConfigError::Parse(_))));
}

#[test]
fn defaults_are_valid() {
    assert!(RuntimeConfig::default().validate().is_ok());
}

#[test]
fn repository_example_configuration_parses() {
    let config = RuntimeConfig::parse(EXAMPLE).expect("repository example should parse");

    assert_eq!(config.runtime.max_concurrent_agents, 6);
    assert_eq!(config.security.default_network, "deny");
}

fn complaint(source: &str) -> String {
    RuntimeConfig::parse(source)
        .expect_err("source should be refused")
        .to_text()
}

#[test]
fn complaints_name_the_line() {
    let prefix = "configuration parse failed: ";
    assert_eq!(
        complaint("\n[runtime"),
        format!("{prefix}line 2: section header must end with ]")
    );
    assert_eq!(
        complaint("[none]"),
        format!("{prefix}line 1: unknown section [none]")
    );
    assert_eq!(
        complaint("a = 1"),
        format!("{prefix}line 1: key a must be inside a section")
    );
    assert_eq!(
        complaint("[plugins]\r\n# x\r\nprocess"),
        format!("{prefix}line 3: expected key = value")
    );
    assert_eq!(
        complaint("[plugins]\nother = true"),
        format!("{prefix}line 2: unknown key other")
    );
    assert_eq!(
        complaint("[plugins]\nmcp = yes"),
        format!("{prefix}line 2: mcp must be true or false")
    );
    assert_eq!(
        complaint("[scheduler]\nmode = economy"),
        format!("{prefix}line 2: mode must be a quoted string")
    );
    assert_eq!(
        complaint("[runtime]\nmax_concurrent_agents = 65536"),
        format!("{prefix}line 2: max_concurrent_agents must be an unsigned 16-bit integer")
    );
    assert_eq!(
        complaint("[scheduler]\npromote_after_failures = -1"),
        format!("{prefix}line 2: promote_after_failures must be an unsigned 32-bit integer")
    );
}

#[test]
fn blank_and_zero_settings_are_invalid() {
    let prefix = "invalid configuration: ";
    assert_eq!(
        complaint("[runtime]\nevent_store = \" \""),
        format!("{prefix}runtime.event_store must not be empty")
    );
    assert_eq!(
        complaint("[runtime]\nartifact_dir = \"\""),
        format!("{prefix}runtime.artifact_dir must not be empty")
    );
    assert_eq!(
        complaint("[scheduler]\nmode = \"\""),
        format!("{prefix}scheduler.mode must not be empty")
    );
    assert_eq!(
        complaint("[scheduler]\npromote_after_failures = +0"),
        format!("{prefix}scheduler.promote_after_failures must be greater than zero")
    );
    assert_eq!(
        complaint("[security]\ndefault_network = \"\""),
        format!("{prefix}security.default_network must not be empty")
    );
    assert_eq!(
        ConfigError::Read("gone".to_owned()).to_text(),
        "configuration read failed: gone"
    );
}

#[test]
fn later_entries_win_and_comments_are_ignored() {
    let config = RuntimeConfig::parse(
        "[context]\nsubscriptions = false # off\nsemantic_invalidation=false\n[context]\nsubscriptions = true\n[models.local]\nmodel = \"m\"\n[plugins]\nwasm = true",
    )
    .unwrap();
    assert!(config.context.subscriptions);
    assert!(!config.context.semantic_invalidation);
    assert!(config.plugins.wasm);
    assert_eq!(config.models.local.map(|model| model.model), Some("m".to_owned()));
    assert!(config.models.manager.is_none());
}
