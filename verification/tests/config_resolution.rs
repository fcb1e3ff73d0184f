use slab_core::config::{
    config_file_in, default_vault_root, Config, resolve_after_default, resolve_after_vault, ConfigFile,
    EnvVars, ResolveAction,
};
use slab_core::context::Context;
use slab_core::json::{JsonNumber, JsonValue};
use slab_core::output::Format;
use slab_core::sync::{push_step, status_items, PushStep};
use slab_core::types::{Post, TopicRef};
use slab_core::vault::{post_file, FileStatus};

fn no_env() -> EnvVars {
    EnvVars { team: None, token: None, vault: None, endpoint: None }
}

fn ctx(team: Option<&str>, token: Option<&str>, vault: Option<&str>) -> Context {
    Context {
        team: team.map(|s| s.to_string()),
        token: token.map(|s| s.to_string()),
        vault: vault.map(|s| s.to_string()),
        format: Format::Text,
        copy: false,
    }
}

fn serde(v: &JsonValue) -> serde_json::Value {
    match v {
        JsonValue::Null => serde_json::Value::Null,
        JsonValue::Bool(b) => serde_json::Value::Bool(*b),
        JsonValue::Number(JsonNumber::PosInt(n)) => serde_json::Value::from(*n),
        JsonValue::Number(JsonNumber::NegInt(n)) => serde_json::Value::from(*n),
        JsonValue::Number(JsonNumber::Float(t)) => serde_json::from_str(t).unwrap(),
        JsonValue::Str(s) => serde_json::Value::String(s.clone()),
        JsonValue::Array(a) => serde_json::Value::Array(a.iter().map(serde).collect()),
        JsonValue::Object(es) => {
            serde_json::Value::Object(es.iter().map(|(k, x)| (k.clone(), serde(x))).collect())
        }
    }
}

#[test]
fn vault_roots_and_config_files() {
    assert_eq!(default_vault_root(&Some("/home/u".to_string())), "/home/u/.slab");
    assert_eq!(default_vault_root(&None), "./.slab");
    assert_eq!(config_file_in("/v"), "/v/.slab/config.toml");
}

#[test]
fn explicit_vault_config_comes_first() {
    let (args, first) = ctx(Some("override"), None, Some("/v")).config(no_env(), None);
    assert!(matches!(first, ResolveAction::LoadVault(ref d) if d == "/v"));
    let saved = ConfigFile { team: "saved".into(), token: "tok".into(), endpoint: None };
    match resolve_after_vault(&args, "/v", Some(saved)) {
        ResolveAction::Finish(Ok(c)) => {
            assert_eq!(c.team, "override");
            assert_eq!(c.token, "tok");
            assert_eq!(c.endpoint, "https://api.slab.com/v1/graphql");
            assert_eq!(c.vault_path, "/v");
        }
        _ => panic!("expected the saved configuration"),
    }
}

#[test]
fn default_vault_of_team_comes_next() {
    let (args, first) = ctx(Some("acme"), Some("tok"), None).config(no_env(), Some("/home/u".into()));
    assert!(matches!(first, ResolveAction::LoadDefault(ref d) if d == "/home/u/.slab/acme"));
    let saved = ConfigFile { team: "acme".into(), token: "old".into(), endpoint: Some("https://e".into()) };
    match resolve_after_default(&args, "/home/u/.slab/acme", Some(saved)) {
        ResolveAction::Finish(Ok(c)) => {
            assert_eq!(c.token, "tok");
            assert_eq!(c.endpoint, "https://e");
        }
        _ => panic!("expected the saved configuration"),
    }
    match resolve_after_default(&args, "/home/u/.slab/acme", None) {
        ResolveAction::Finish(Ok(c)) => assert_eq!(c.vault_path, "/home/u/.slab/acme"),
        _ => panic!("expected the environment's configuration"),
    }
}

#[test]
fn no_team_means_environment() {
    let (args, first) = ctx(None, None, None).config(no_env(), None);
    match first {
        ResolveAction::Finish(Err(e)) => assert_eq!(e.message(), "--team or SLAB_TEAM is required"),
        _ => panic!("expected an error"),
    }
    let (_, missing_vault) = ctx(None, None, Some("/nowhere")).config(no_env(), None);
    assert!(matches!(missing_vault, ResolveAction::LoadVault(_)));
    match resolve_after_vault(&args, "/nowhere", None) {
        ResolveAction::Finish(Err(e)) => assert_eq!(e.message(), "--team or SLAB_TEAM is required"),
        _ => panic!("expected an error"),
    }
}

#[test]
fn status_as_json_items() {
    let statuses = vec![
        ("a.md".to_string(), FileStatus::Clean),
        ("b.md".to_string(), FileStatus::Modified),
    ];
    let items = serde(&status_items(&statuses));
    let expected: serde_json::Value =
        serde_json::from_str(r#"[{"path": "b.md", "status": "M"}]"#).unwrap();
    assert_eq!(items, expected);
}

#[test]
fn pushing_a_written_post_updates_it() {
    let post = Post {
        id: "p9".into(),
        title: "Notes".into(),
        content: None,
        markdown: None,
        text: None,
        inserted_at: None,
        updated_at: None,
        version: Some(2),
        topics: Some(vec![TopicRef { id: "t".into(), name: "Eng".into() }]),
    };
    let f = post_file(&post);
    match push_step("Inbox/Notes.md", FileStatus::Added, &f.content, "") {
        PushStep::Update { id, .. } => assert_eq!(id, "p9"),
        _ => panic!("expected an update of the written post"),
    }
}

#[test]
fn saved_config_loads_back() {
    let c = Config {
        team: "acme".to_string(),
        token: "tok".to_string(),
        endpoint: "https://acme.slab.com/graphql".to_string(),
        vault_path: "/v/acme".to_string(),
    };
    let d = Config::from_file(&c.to_file(), &c.vault_path);
    assert_eq!(
        (d.team, d.token, d.endpoint, d.vault_path),
        (c.team, c.token, c.endpoint, c.vault_path)
    );
}
