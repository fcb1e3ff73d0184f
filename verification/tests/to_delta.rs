use slab_core::json::{JsonNumber, JsonValue};
use slab_core::to_delta::markdown_to_delta;

/// A library JSON value as a `serde_json::Value`.
fn serde(v: &JsonValue) -> serde_json::Value {
    match v {
        JsonValue::Null => serde_json::Value::Null,
        JsonValue::Bool(b) => serde_json::Value::Bool(*b),
        JsonValue::Number(JsonNumber::PosInt(n)) => serde_json::Value::from(*n),
        JsonValue::Number(JsonNumber::NegInt(n)) => serde_json::Value::from(*n),
        JsonValue::Number(JsonNumber::Float(t)) => serde_json::from_str(t).unwrap(),
        JsonValue::Str(s) => serde_json::Value::String(s.clone()),
        JsonValue::Array(a) => serde_json::Value::Array(a.iter().map(serde).collect()),
        JsonValue::Object(es) => {
            serde_json::Value::Object(es.iter().map(|(k, x)| (k.clone(), serde(x))).collect())
        }
    }
}

#[test]
fn plain_paragraph() {
    let delta = serde(&markdown_to_delta("Hello, world!\n"));
    let ops = delta["ops"].as_array().unwrap();
    assert!(ops.iter().any(|op| op["insert"] == "Hello, world!"));
}

#[test]
fn heading_roundtrip() {
    let delta = serde(&markdown_to_delta("# Title\n"));
    let ops = delta["ops"].as_array().unwrap();
    assert!(ops.iter().any(|op| op["attributes"]["header"] == 1));
}

#[test]
fn bold_text() {
    let delta = serde(&markdown_to_delta("**bold**\n"));
    let ops = delta["ops"].as_array().unwrap();
    assert!(ops.iter().any(|op| op["insert"] == "bold" && op["attributes"]["bold"] == true));
}

#[test]
fn to_delta_link() {
    let delta = serde(&markdown_to_delta("[click](https://example.com)\n"));
    let ops = delta["ops"].as_array().unwrap();
    assert!(ops
        .iter()
        .any(|op| op["insert"] == "click" && op["attributes"]["link"] == "https://example.com"));
}

#[test]
fn to_delta_code_block() {
    let delta = serde(&markdown_to_delta("```rust\nfn main() {}\n```\n"));
    let ops = delta["ops"].as_array().unwrap();
    assert!(ops.iter().any(|op| op["attributes"]["code-block"] == "rust"));
}

#[test]
fn embed_passthrough() {
    let md = "<!-- slab:embed {\"video\":\"https://example.com/v.mp4\"} -->\n";
    let delta = serde(&markdown_to_delta(md));
    let ops = delta["ops"].as_array().unwrap();
    assert!(ops.iter().any(|op| op["insert"]["video"] == "https://example.com/v.mp4"));
}

#[test]
fn every_op_is_an_insert_of_text_or_object() {
    let empty = serde(&markdown_to_delta(""));
    assert_eq!(empty.as_object().unwrap().len(), 1);
    assert!(empty["ops"].as_array().unwrap().is_empty());
    let md = "# T\n\nSome **bold** and `code`, a [link](http://x).\n\n- item\n\n---\n\n![i](http://img)\n\n```rust\nfn x() {}\n\n```\n";
    let d = serde(&markdown_to_delta(md));
    let obj = d.as_object().unwrap();
    assert_eq!(obj.len(), 1);
    let ops = obj["ops"].as_array().unwrap();
    assert!(!ops.is_empty());
    for op in ops {
        let o = op.as_object().unwrap();
        let ins = &o["insert"];
        assert!(ins.is_string() || ins.is_object());
        assert!(o.len() == 1 || (o.len() == 2 && o["attributes"].is_object()));
    }
}

#[test]
fn inserts_are_non_empty_outside_code_blocks() {
    let md = "# T\n\nSome **bold**, *it* and `code`.\nNext line  \nbreak.\n\n> quoted\n\n- a\n- b\n\n---\n";
    let d = serde(&markdown_to_delta(md));
    for op in d["ops"].as_array().unwrap() {
        let ins = &op["insert"];
        assert!(ins.is_object() || !ins.as_str().unwrap().is_empty());
    }
}
