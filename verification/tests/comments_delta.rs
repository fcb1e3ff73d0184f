use slab_core::comments::{
    comment_delta, create_comment_vars, default_mark, format_comment_content, format_comment_list,
    short_id_from, thread_anchor,
};
use slab_core::from_delta::delta_to_markdown;
use slab_core::json::{JsonNumber, JsonValue};
use slab_core::output::Format;
use slab_core::to_delta::{markdown_to_delta, parse_slab_embed_comment};
use slab_core::types::{Comment, CommentAuthor, CommentThread, Post};

fn value(v: &serde_json::Value) -> JsonValue {
    match v {
        serde_json::Value::Null => JsonValue::Null,
        serde_json::Value::Bool(b) => JsonValue::Bool(*b),
        serde_json::Value::Number(n) => JsonValue::Number(match (n.as_u64(), n.as_i64()) {
            (Some(u), _) => JsonNumber::PosInt(u),
            (None, Some(i)) => JsonNumber::NegInt(i),
            (None, None) => JsonNumber::Float(n.to_string()),
        }),
        serde_json::Value::String(s) => JsonValue::Str(s.clone()),
        serde_json::Value::Array(a) => JsonValue::Array(a.iter().map(value).collect()),
        serde_json::Value::Object(m) => {
            JsonValue::Object(m.iter().map(|(k, x)| (k.clone(), value(x))).collect())
        }
    }
}

fn serde(v: &JsonValue) -> serde_json::Value {
    match v {
        JsonValue::Null => serde_json::Value::Null,
        JsonValue::Bool(b) => serde_json::Value::Bool(*b),
        JsonValue::Number(JsonNumber::PosInt(n)) => serde_json::Value::from(*n),
        JsonValue::Number(JsonNumber::NegInt(n)) => serde_json::Value::from(*n),
        JsonValue::Number(JsonNumber::Float(t)) => serde_json::from_str(t).unwrap(),
        JsonValue::Str(s) => serde_json::Value::String(s.clone()),
        JsonValue::Array(a) => serde_json::Value::Array(a.iter().map(serde).collect()),
        JsonValue::Object(es) => {
            serde_json::Value::Object(es.iter().map(|(k, x)| (k.clone(), serde(x))).collect())
        }
    }
}

fn json(text: &str) -> serde_json::Value {
    serde_json::from_str(text).unwrap()
}

fn md(delta_text: &str) -> String {
    delta_to_markdown(&value(&json(delta_text)))
}

fn comment(id: &str, content: Option<&str>, author: Option<&str>, date: Option<&str>) -> Comment {
    Comment {
        id: id.to_string(),
        content: content.map(|s| s.to_string()),
        author: author.map(|n| CommentAuthor { id: "u".into(), name: Some(n.to_string()), avatar_url: None }),
        inserted_at: date.map(|s| s.to_string()),
        updated_at: None,
    }
}

#[test]
fn comment_delta_text() {
    assert_eq!(comment_delta("say \"hi\"\nbye\\"), "[{\"insert\":\"say \\\"hi\\\"\\nbye\\\\\\n\"}]");
    let parsed: serde_json::Value = serde_json::from_str(&comment_delta("a \"b\"\nc")).unwrap();
    assert_eq!(parsed, json(r#"[{"insert": "a \"b\"\nc\n"}]"#));
}

#[test]
fn comment_delta_escapes_control_characters() {
    assert_eq!(comment_delta("a\tb\r\u{1}\u{8}\u{c}"), "[{\"insert\":\"a\\tb\\r\\u0001\\b\\f\\n\"}]");
    for body in ["a\tb", "say \"hi\"\nbye", "x\u{1f}y\\", "é ✓"] {
        let parsed: serde_json::Value = serde_json::from_str(&comment_delta(body)).unwrap();
        let expected = serde_json::Value::Array(vec![serde_json::Value::Object(
            [("insert".to_string(), serde_json::Value::String(format!("{body}\n")))].into_iter().collect(),
        )]);
        assert_eq!(parsed, expected);
    }
}

#[test]
fn thread_ids_are_base36() {
    assert_eq!(short_id_from(0), "00000000");
    assert_eq!(short_id_from(35), "z0000000");
    assert_eq!(short_id_from(36), "01000000");
    assert_eq!(short_id_from(36u128.pow(8) + 1), "10000000");
}

#[test]
fn comment_content_shown_as_text() {
    assert_eq!(format_comment_content(Some("[{\"insert\":\"Looks good\\n\"}]")), "Looks good");
    assert_eq!(format_comment_content(Some("not json")), "not json");
    assert_eq!(format_comment_content(None), "");
}

#[test]
fn comment_listing_formats() {
    let threads = vec![
        CommentThread {
            id: "t1".into(),
            comments: Some(vec![comment("c1", Some("[{\"insert\":\"hi\\n\"}]"), Some("Ann"), Some("2025"))]),
            resolved_at: Some("2025-03".into()),
        },
        CommentThread { id: "t2".into(), comments: None, resolved_at: None },
        CommentThread {
            id: "t3".into(),
            comments: Some(vec![comment("c2", Some("plain"), None, None)]),
            resolved_at: None,
        },
    ];
    assert_eq!(
        format_comment_list(&threads, Format::Text).unwrap(),
        "thread t1 [resolved]\n  hi (Ann, 2025)\n\nthread t3\n  plain (unknown, )\n\n"
    );
    assert_eq!(
        format_comment_list(&threads, Format::Tsv).unwrap(),
        "THREAD\tCOMMENT\tAUTHOR\tDATE\tCONTENT\nt1\tc1\tAnn\t2025\thi\nt3\tc2\tunknown\t-\tplain\n"
    );
    let none = vec![CommentThread { id: "t2".into(), comments: None, resolved_at: None }];
    assert_eq!(format_comment_list(&none, Format::Text).unwrap(), "no comments on this post\n");
    assert!(format_comment_list(&threads, Format::Json).is_none());
}

#[test]
fn new_thread_request() {
    let post = Post {
        id: "p".into(),
        title: "t".into(),
        content: None,
        markdown: None,
        text: Some("abc".into()),
        inserted_at: None,
        updated_at: None,
        version: None,
        topics: None,
    };
    assert_eq!(thread_anchor(&post), (1, 3));
    let mark = default_mark();
    assert_eq!(serde(&mark), json(r#"{"type": "plain", "index": 0, "length": 1}"#));
    let vars = create_comment_vars("p", "abc12345", "[]", 1, 3, &mark);
    assert_eq!(
        serde(&vars),
        json(r#"{"threadId": "abc12345", "id": "p", "version": 1, "checksum": 3,
                 "mark": {"type": "plain", "index": 0, "length": 1}, "content": "[]", "notifyGroups": true}"#)
    );
}

#[test]
fn delta_lists_and_inline_formats() {
    assert_eq!(
        md(r#"{"ops": [{"insert": "one"}, {"insert": "\n", "attributes": {"list": "ordered"}},
                       {"insert": "done"}, {"insert": "\n", "attributes": {"list": "checked", "indent": 1}},
                       {"insert": "todo"}, {"insert": "\n", "attributes": {"list": "unchecked"}}]}"#),
        "1. one\n  - [x] done\n- [ ] todo\n"
    );
    assert_eq!(
        md(r#"{"ops": [{"insert": "x", "attributes": {"strike": true}}, {"insert": " "},
                       {"insert": "y", "attributes": {"code": true, "bold": true}}, {"insert": " "},
                       {"insert": "z", "attributes": {"underline": true}}, {"insert": "\n"}]}"#),
        "~~x~~ `y` <u>z</u>\n"
    );
    assert_eq!(
        md(r#"{"ops": [{"insert": "Sub"}, {"insert": "\n", "attributes": {"header": 2}}]}"#),
        "## Sub\n"
    );
}

#[test]
fn delta_embeds_and_blocks() {
    assert_eq!(
        md(r#"{"ops": [{"insert": {"mention": {"name": "Ann"}}}, {"insert": "\n"},
                       {"insert": {"divider": true}}, {"insert": "\n"}]}"#),
        "@Ann\n---\n"
    );
    assert_eq!(
        md(r#"{"ops": [{"insert": "a"}, {"insert": "\n", "attributes": {"code-block": "plain"}},
                       {"insert": "b"}, {"insert": "\n", "attributes": {"code-block": "plain"}},
                       {"insert": "after\n"}]}"#),
        "```\na\nb\n```\n\nafter\n"
    );
    assert_eq!(
        md(r#"{"ops": [{"insert": "tail"}, {"insert": "\n", "attributes": {"code-block": true}}]}"#),
        "```\ntail\n```\n"
    );
    assert_eq!(md(r#"[{"insert": "bare array\n"}]"#), "bare array\n");
    assert_eq!(md(r#"{"nothing": 1}"#), "");
    assert_eq!(md(r#"{"ops": [{"insert": "no newline"}]}"#), "no newline\n");
}

#[test]
fn unknown_embed_round_trip() {
    let text = md(r#"{"ops": [{"insert": {"video": "https://example.com/v.mp4"}}, {"insert": "\n"}]}"#);
    assert_eq!(text, "<!-- slab:embed {\"video\":\"https://example.com/v.mp4\"} -->\n");
    let back = serde(&markdown_to_delta(&text));
    let ops = back["ops"].as_array().unwrap();
    assert!(ops.iter().any(|op| op["insert"] == json(r#"{"video": "https://example.com/v.mp4"}"#)));
}

#[test]
fn embed_comments_parsed() {
    let v = parse_slab_embed_comment("  <!-- slab:embed {\"a\": [1, 2]} -->  ").unwrap();
    assert_eq!(serde(&v), json(r#"{"a": [1, 2]}"#));
    assert!(parse_slab_embed_comment("<!-- slab:embed not json -->").is_none());
    assert!(parse_slab_embed_comment("<!-- other -->").is_none());
}

#[test]
fn markdown_blocks_to_delta() {
    let d = serde(&markdown_to_delta("- one\n- two\n\n---\n\n![pic](https://e.com/p.png)\n\n`code` and ~~gone~~\n"));
    let ops = d["ops"].as_array().unwrap();
    assert!(ops.iter().any(|op| op["insert"] == "\n" && op["attributes"]["list"] == "bullet"));
    assert!(ops.iter().any(|op| op["insert"]["divider"] == true));
    assert!(ops.iter().any(|op| op["insert"]["image"] == "https://e.com/p.png"));
    assert!(ops.iter().any(|op| op["insert"] == "code" && op["attributes"]["code"] == true));
    // Text before a format opens joins the formatted run (nothing flushes it).
    assert!(ops.iter().any(|op| op["insert"] == " and gone" && op["attributes"]["strike"] == true));
}

#[test]
fn heading_and_quote_to_delta() {
    let d = serde(&markdown_to_delta("### Three\n\n> quoted\n"));
    let ops = d["ops"].as_array().unwrap();
    assert!(ops.iter().any(|op| op["insert"] == "Three"));
    assert!(ops.iter().any(|op| op["attributes"]["header"] == 3));
    assert!(ops.iter().any(|op| op["insert"] == "quoted"));
}
