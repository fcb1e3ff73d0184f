use slab_core::config::Config;
use slab_core::json::{JsonNumber, JsonValue};
use slab_core::status::vault_status;
use slab_core::store::PostState;
use slab_core::sync::remote_file_hash;
use slab_core::types::{Post, TopicRef};
use slab_core::vault::{
    hash_content, inbox_entry_path, parse_frontmatter_slab_id, post_file, sanitize_filename,
    sort_by_path, strip_frontmatter, tracked_status, FileStatus, Frontmatter,
};

fn value(v: &serde_json::Value) -> JsonValue {
    match v {
        serde_json::Value::Null => JsonValue::Null,
        serde_json::Value::Bool(b) => JsonValue::Bool(*b),
        serde_json::Value::Number(n) => JsonValue::Number(match (n.as_u64(), n.as_i64()) {
            (Some(u), _) => JsonNumber::PosInt(u),
            (None, Some(i)) => JsonNumber::NegInt(i),
            (None, None) => JsonNumber::Float(n.to_string()),
        }),
        serde_json::Value::String(s) => JsonValue::Str(s.clone()),
        serde_json::Value::Array(a) => JsonValue::Array(a.iter().map(value).collect()),
        serde_json::Value::Object(m) => {
            JsonValue::Object(m.iter().map(|(k, x)| (k.clone(), value(x))).collect())
        }
    }
}

fn sample_post(topics: Option<Vec<TopicRef>>) -> Post {
    Post {
        id: "abc123".to_string(),
        title: "Atlas/RFC".to_string(),
        content: Some(value(
            &serde_json::from_str(r#"{"ops": [{"insert": "Hello\n"}]}"#).unwrap(),
        )),
        markdown: None,
        text: None,
        inserted_at: None,
        updated_at: Some("2025-01-15T10:30:00Z".to_string()),
        version: Some(42),
        topics,
    }
}

fn state(path: &str, local_hash: &str) -> PostState {
    PostState {
        slab_id: format!("id-{path}"),
        path: path.to_string(),
        title: "t".to_string(),
        remote_updated_at: None,
        remote_content_hash: local_hash.to_string(),
        local_content_hash: local_hash.to_string(),
        version: None,
    }
}

#[test]
fn frontmatter_yaml_layout() {
    let fm = Frontmatter {
        slab_id: "abc123".to_string(),
        title: "Atlas RFC".to_string(),
        topics: vec!["Engineering".to_string()],
        version: Some(42),
        updated_at: Some("2025-01-15T10:30:00Z".to_string()),
    };
    assert_eq!(
        fm.to_yaml(),
        "---\nslab_id: \"abc123\"\ntitle: \"Atlas RFC\"\ntopics:\n  - \"Engineering\"\nversion: 42\nupdated_at: \"2025-01-15T10:30:00Z\"\n---\n"
    );
}

#[test]
fn frontmatter_yaml_minimal() {
    let fm = Frontmatter {
        slab_id: "x".to_string(),
        title: "T".to_string(),
        topics: vec![],
        version: Some(-3),
        updated_at: None,
    };
    assert_eq!(fm.to_yaml(), "---\nslab_id: \"x\"\ntitle: \"T\"\nversion: -3\n---\n");
}

#[test]
fn strip_frontmatter_cases() {
    assert_eq!(strip_frontmatter("---\nslab_id: \"x\"\n---\nBody\n"), "Body\n");
    assert_eq!(strip_frontmatter("No frontmatter\n"), "No frontmatter\n");
    assert_eq!(strip_frontmatter("---\nunterminated\n"), "---\nunterminated\n");
}

#[test]
fn slab_id_from_frontmatter() {
    let doc = "---\nslab_id: \"abc123\"\ntitle: \"Atlas RFC\"\n---\nbody\n";
    assert_eq!(parse_frontmatter_slab_id(doc), Some("abc123".to_string()));
    assert_eq!(parse_frontmatter_slab_id("---\ntitle: x\nslab_id: plain-id\n---\n"), Some("plain-id".to_string()));
    assert_eq!(parse_frontmatter_slab_id("no frontmatter"), None);
    assert_eq!(parse_frontmatter_slab_id("---\nslab_id: \"\"\n---\n"), None);
    assert_eq!(parse_frontmatter_slab_id("---\nslab_id: \"x\"\n"), None);
}

#[test]
fn filenames_are_sanitized() {
    assert_eq!(sanitize_filename(" a/b:c*d?e\"f<g>h|i\\j "), "a-b-c-d-e-f-g-h-i-j");
    assert_eq!(sanitize_filename("plain name"), "plain name");
}

#[test]
fn content_hash_is_sha256_hex() {
    assert_eq!(
        hash_content(""),
        "e3b0c44298fc1c149afbf4c8996fb92427ae41e4649b934ca495991b7852b855"
    );
    assert_eq!(
        hash_content("abc"),
        "ba7816bf8f01cfea414140de5dae2223b00361a396177a9cb410ff61f20015ad"
    );
}

#[test]
fn written_post_file_layout() {
    let post = sample_post(Some(vec![TopicRef { id: "t1".into(), name: "Engineering".into() }]));
    let f = post_file(&post);
    assert_eq!(f.rel_dir, "Topics/Engineering");
    assert_eq!(f.rel_path, "Topics/Engineering/Atlas-RFC.md");
    assert_eq!(
        f.content,
        "---\nslab_id: \"abc123\"\ntitle: \"Atlas/RFC\"\ntopics:\n  - \"Engineering\"\nversion: 42\nupdated_at: \"2025-01-15T10:30:00Z\"\n---\nHello\n"
    );
    assert_eq!(f.state.path, f.rel_path);
    assert_eq!(f.state.slab_id, "abc123");
    assert_eq!(f.state.local_content_hash, hash_content(&f.content));
    assert_eq!(f.state.remote_content_hash, f.state.local_content_hash);
}

#[test]
fn uncategorized_post_dir() {
    let f = post_file(&sample_post(None));
    assert_eq!(f.rel_path, "Topics/Uncategorized/Atlas-RFC.md");
}

#[test]
fn written_post_reads_back() {
    let post = sample_post(Some(vec![TopicRef { id: "t1".into(), name: "Eng".into() }]));
    let f = post_file(&post);
    assert_eq!(tracked_status(&f.state, Some(&f.content)), FileStatus::Clean);
    assert_eq!(parse_frontmatter_slab_id(&f.content), Some("abc123".to_string()));
    assert_eq!(strip_frontmatter(&f.content), "Hello\n");
}

#[test]
fn tracked_status_cases() {
    let s = state("a.md", &hash_content("abc"));
    assert_eq!(tracked_status(&s, None), FileStatus::Deleted);
    assert_eq!(tracked_status(&s, Some("abc")), FileStatus::Clean);
    assert_eq!(tracked_status(&s, Some("abcd")), FileStatus::Modified);
}

#[test]
fn inbox_markdown_entries() {
    assert_eq!(inbox_entry_path("new.md"), Some("Inbox/new.md".to_string()));
    assert_eq!(inbox_entry_path("notes.txt"), None);
    assert_eq!(inbox_entry_path("README"), None);
}

#[test]
fn status_entries_sorted_by_path() {
    let entries = vec![
        ("b.md".to_string(), FileStatus::Modified),
        ("a.md".to_string(), FileStatus::Clean),
        ("a.md".to_string(), FileStatus::Added),
    ];
    let sorted = sort_by_path(&entries);
    assert_eq!(
        sorted,
        vec![
            ("a.md".to_string(), FileStatus::Clean),
            ("a.md".to_string(), FileStatus::Added),
            ("b.md".to_string(), FileStatus::Modified),
        ]
    );
}

#[test]
fn vault_status_reports_files() {
    let states = vec![state("Topics/B.md", &hash_content("b")), state("Topics/A.md", "x")];
    let current = vec![Some("b".to_string()), None];
    let inbox = vec!["new.md".to_string(), "notes.txt".to_string()];
    let st = vault_status(&states, &current, &inbox);
    assert_eq!(
        st,
        vec![
            ("Inbox/new.md".to_string(), FileStatus::Added),
            ("Topics/A.md".to_string(), FileStatus::Deleted),
            ("Topics/B.md".to_string(), FileStatus::Clean),
        ]
    );
}

#[test]
fn tracked_inbox_file_is_not_added() {
    let states = vec![state("Inbox/new.md", &hash_content("n"))];
    let current = vec![Some("changed".to_string())];
    let inbox = vec!["new.md".to_string()];
    let st = vault_status(&states, &current, &inbox);
    assert_eq!(st, vec![("Inbox/new.md".to_string(), FileStatus::Modified)]);
}

#[test]
fn status_markers() {
    assert_eq!(FileStatus::Clean.marker(), " ");
    assert_eq!(FileStatus::Modified.marker(), "M");
    assert_eq!(FileStatus::Added.marker(), "A");
    assert_eq!(FileStatus::Deleted.marker(), "D");
    assert_eq!(FileStatus::Conflict.marker(), "C");
}

#[test]
fn config_paths() {
    let cfg = Config {
        team: "acme".into(),
        token: "t".into(),
        endpoint: "e".into(),
        vault_path: "/home/u/.slab/acme".into(),
    };
    assert_eq!(cfg.slab_dir(), "/home/u/.slab/acme/.slab");
    assert_eq!(cfg.state_db_path(), "/home/u/.slab/acme/.slab/state.db");
    assert_eq!(cfg.config_file_path(), "/home/u/.slab/acme/.slab/config.toml");
}

#[test]
fn remote_hash_matches_pulled_state_until_post_changes() {
    let p = sample_post(None);
    let pulled = post_file(&p);
    assert_eq!(remote_file_hash(&p), pulled.state.remote_content_hash);
    let mut changed = sample_post(None);
    changed.version = Some(43);
    assert_ne!(remote_file_hash(&changed), pulled.state.remote_content_hash);
}

#[test]
fn slab_id_read_back_whatever_the_title_holds() {
    let fm = Frontmatter {
        slab_id: "abc123".to_string(),
        title: "two\nslab_id: \"other\"\n---\nlines".to_string(),
        topics: vec!["x\ny".to_string()],
        version: None,
        updated_at: None,
    };
    let text = format!("{}body\n", fm.to_yaml());
    assert_eq!(parse_frontmatter_slab_id(&text), Some("abc123".to_string()));
}

#[test]
fn sanitized_names_are_stable() {
    let r = sanitize_filename(" a/b:c ");
    assert_eq!(r, "a-b-c");
    assert_eq!(sanitize_filename(&r), r);
    let r = sanitize_filename("\t<x|y>?*\"z\\ \n");
    assert_eq!(r, "-x-y----z-");
    assert_eq!(sanitize_filename(&r), r);
}

#[test]
fn written_post_file_reported_clean() {
    let p = sample_post(None);
    let f = post_file(&p);
    let rel_path = f.rel_path;
    let content = f.content;
    let written = f.state;
    assert_eq!(written.version, p.version);
    assert_eq!(written.slab_id, p.id);
    let states = vec![state("Topics/Z.md", "x"), written];
    let current = vec![None, Some(content)];
    let st = vault_status(&states, &current, &vec![]);
    assert!(st.contains(&(rel_path, FileStatus::Clean)));
}

#[test]
fn frontmatter_quotes_and_backslashes_escaped() {
    let fm = Frontmatter {
        slab_id: "a\"b\\c".to_string(),
        title: "The \"Atlas\" RFC".to_string(),
        topics: vec!["C:\\docs".to_string()],
        version: None,
        updated_at: None,
    };
    let y = fm.to_yaml();
    assert_eq!(
        y,
        "---\nslab_id: \"a\\\"b\\\\c\"\ntitle: \"The \\\"Atlas\\\" RFC\"\ntopics:\n  - \"C:\\\\docs\"\n---\n"
    );
    let text = format!("{y}body\n");
    assert_eq!(parse_frontmatter_slab_id(&text), Some("a\"b\\c".to_string()));
    assert_eq!(strip_frontmatter(&text), "body\n");
    assert_eq!(
        parse_frontmatter_slab_id("---\nslab_id: plain-id\n---\n"),
        Some("plain-id".to_string())
    );
}

#[test]
fn pulled_copies_kept_under_slab_dir() {
    assert_eq!(slab_core::vault::pulled_copy_path("abc123"), ".slab/pulled/abc123.md");
    assert_eq!(slab_core::vault::pulled_copy_path("a/b"), ".slab/pulled/a-b.md");
}
