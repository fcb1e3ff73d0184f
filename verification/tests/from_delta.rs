use slab_core::from_delta::delta_to_markdown;
use slab_core::json::{JsonNumber, JsonValue};

/// The library's JSON value for a JSON text.
fn value(v: &serde_json::Value) -> JsonValue {
    match v {
        serde_json::Value::Null => JsonValue::Null,
        serde_json::Value::Bool(b) => JsonValue::Bool(*b),
        serde_json::Value::Number(n) => JsonValue::Number(match (n.as_u64(), n.as_i64()) {
            (Some(u), _) => JsonNumber::PosInt(u),
            (None, Some(i)) => JsonNumber::NegInt(i),
            (None, None) => JsonNumber::Float(n.to_string()),
        }),
        serde_json::Value::String(s) => JsonValue::Str(s.clone()),
        serde_json::Value::Array(a) => JsonValue::Array(a.iter().map(value).collect()),
        serde_json::Value::Object(m) => {
            JsonValue::Object(m.iter().map(|(k, x)| (k.clone(), value(x))).collect())
        }
    }
}

fn delta(text: &str) -> JsonValue {
    value(&serde_json::from_str::<serde_json::Value>(text).unwrap())
}

#[test]
fn plain_text() {
    let delta = delta(r#"{"ops": [{"insert": "Hello, world!\n"}]}"#);
    let md = delta_to_markdown(&delta);
    assert_eq!(md, "Hello, world!\n");
}

#[test]
fn heading() {
    let delta = delta(
        r#"{"ops": [{"insert": "Title"}, {"insert": "\n", "attributes": {"header": 1}}]}"#,
    );
    let md = delta_to_markdown(&delta);
    assert_eq!(md, "# Title\n");
}

#[test]
fn bold_italic() {
    let delta = delta(
        r#"{"ops": [
            {"insert": "bold", "attributes": {"bold": true}},
            {"insert": " and "},
            {"insert": "italic", "attributes": {"italic": true}},
            {"insert": "\n"}
        ]}"#,
    );
    let md = delta_to_markdown(&delta);
    assert_eq!(md, "**bold** and *italic*\n");
}

#[test]
fn from_delta_code_block() {
    let delta = delta(
        r#"{"ops": [
            {"insert": "fn main() {}"},
            {"insert": "\n", "attributes": {"code-block": "rust"}}
        ]}"#,
    );
    let md = delta_to_markdown(&delta);
    assert_eq!(md, "```rust\nfn main() {}\n```\n");
}

#[test]
fn bullet_list() {
    let delta = delta(
        r#"{"ops": [
            {"insert": "item one"},
            {"insert": "\n", "attributes": {"list": "bullet"}},
            {"insert": "item two"},
            {"insert": "\n", "attributes": {"list": "bullet"}}
        ]}"#,
    );
    let md = delta_to_markdown(&delta);
    assert_eq!(md, "- item one\n- item two\n");
}

#[test]
fn from_delta_link() {
    let delta = delta(
        r#"{"ops": [
            {"insert": "click here", "attributes": {"link": "https://example.com"}},
            {"insert": "\n"}
        ]}"#,
    );
    let md = delta_to_markdown(&delta);
    assert_eq!(md, "[click here](https://example.com)\n");
}

#[test]
fn image_embed() {
    let delta = delta(
        r#"{"ops": [
            {"insert": {"image": "https://example.com/img.png"}},
            {"insert": "\n"}
        ]}"#,
    );
    let md = delta_to_markdown(&delta);
    assert_eq!(md, "![image](https://example.com/img.png)\n");
}

#[test]
fn blockquote() {
    let delta = delta(
        r#"{"ops": [
            {"insert": "quoted text"},
            {"insert": "\n", "attributes": {"blockquote": true}}
        ]}"#,
    );
    let md = delta_to_markdown(&delta);
    assert_eq!(md, "> quoted text\n");
}

#[test]
fn unknown_embed_passthrough() {
    let delta = delta(
        r#"{"ops": [
            {"insert": {"video": "https://example.com/v.mp4"}},
            {"insert": "\n"}
        ]}"#,
    );
    let md = delta_to_markdown(&delta);
    assert!(md.contains("<!-- slab:embed"));
    assert!(md.contains("video"));
}
