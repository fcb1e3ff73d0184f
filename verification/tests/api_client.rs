use slab_core::api::{
    add_unseen_posts, alias_index, bearer_value, children_batch_query, children_batch_vars, chunks,
    graphql_error_message, graphql_outcome, is_public_api, json_to_text, organization_host,
    organization_vars, post_from_web, search_results, topic_from_web, topic_subtree,
    update_content_vars, SearchNode, WebContent, WebPost, WebTopic,
};
use slab_core::json::{JsonNumber, JsonValue};
use slab_core::types::{Post, Topic};

fn value(v: &serde_json::Value) -> JsonValue {
    match v {
        serde_json::Value::Null => JsonValue::Null,
        serde_json::Value::Bool(b) => JsonValue::Bool(*b),
        serde_json::Value::Number(n) => JsonValue::Number(match (n.as_u64(), n.as_i64()) {
            (Some(u), _) => JsonNumber::PosInt(u),
            (None, Some(i)) => JsonNumber::NegInt(i),
            (None, None) => JsonNumber::Float(n.to_string()),
        }),
        serde_json::Value::String(s) => JsonValue::Str(s.clone()),
        serde_json::Value::Array(a) => JsonValue::Array(a.iter().map(value).collect()),
        serde_json::Value::Object(m) => {
            JsonValue::Object(m.iter().map(|(k, x)| (k.clone(), value(x))).collect())
        }
    }
}

fn serde(v: &JsonValue) -> serde_json::Value {
    match v {
        JsonValue::Null => serde_json::Value::Null,
        JsonValue::Bool(b) => serde_json::Value::Bool(*b),
        JsonValue::Number(JsonNumber::PosInt(n)) => serde_json::Value::from(*n),
        JsonValue::Number(JsonNumber::NegInt(n)) => serde_json::Value::from(*n),
        JsonValue::Number(JsonNumber::Float(t)) => serde_json::from_str(t).unwrap(),
        JsonValue::Str(s) => serde_json::Value::String(s.clone()),
        JsonValue::Array(a) => serde_json::Value::Array(a.iter().map(serde).collect()),
        JsonValue::Object(es) => {
            serde_json::Value::Object(es.iter().map(|(k, x)| (k.clone(), serde(x))).collect())
        }
    }
}

fn json(text: &str) -> serde_json::Value {
    serde_json::from_str(text).unwrap()
}

fn topic(id: &str, parent: Option<&str>) -> Topic {
    Topic {
        id: id.to_string(),
        name: id.to_string(),
        description: None,
        parent_topic_id: parent.map(|s| s.to_string()),
        posts: None,
    }
}

fn web_post(id: &str, version: Option<i64>, text: Option<&str>) -> WebPost {
    WebPost {
        id: id.to_string(),
        title: format!("title {id}"),
        content: Some(WebContent {
            delta: Some(value(&json(r#"{"ops": [{"insert": "x\n"}]}"#))),
            markdown: Some("x\n".to_string()),
            text: text.map(|s| s.to_string()),
            version,
        }),
        inserted_at: Some("2025-01-01".to_string()),
        edited_at: Some("2025-02-02".to_string()),
        topics: None,
    }
}

fn ids(ps: &[Post]) -> Vec<&str> {
    ps.iter().map(|p| p.id.as_str()).collect()
}

#[test]
fn web_post_becomes_post() {
    let p = post_from_web(web_post("p1", Some(3), Some("x")));
    assert_eq!(p.id, "p1");
    assert_eq!(p.updated_at, Some("2025-02-02".to_string()));
    assert_eq!(p.inserted_at, Some("2025-01-01".to_string()));
    assert_eq!(p.version, Some(3));
    assert_eq!(p.markdown, Some("x\n".to_string()));
    assert_eq!(serde(p.content.as_ref().unwrap()), json(r#"{"ops": [{"insert": "x\n"}]}"#));
    let empty = post_from_web(WebPost {
        id: "p2".into(),
        title: "t".into(),
        content: None,
        inserted_at: None,
        edited_at: None,
        topics: None,
    });
    assert!(empty.content.is_none() && empty.version.is_none() && empty.text.is_none());
}

#[test]
fn json_fields_as_text() {
    let nested = JsonValue::Str("[{\"insert\":\"Hi there\\n\"}]".to_string());
    assert_eq!(json_to_text(&nested), "Hi there");
    assert_eq!(json_to_text(&JsonValue::Str("plain words".to_string())), "plain words");
    assert_eq!(json_to_text(&JsonValue::Str("42".to_string())), "42");
    assert_eq!(json_to_text(&value(&json(r#"[{"insert": "  Ops\n"}]"#))), "Ops");
    assert_eq!(json_to_text(&value(&json(r#"{"ops": [{"insert": "Doc\n"}]}"#))), "Doc");
    assert_eq!(json_to_text(&JsonValue::Number(JsonNumber::PosInt(3))), "");
}

#[test]
fn web_topic_becomes_topic() {
    let t = topic_from_web(WebTopic {
        id: "t1".into(),
        name: "Eng".into(),
        description: Some(JsonValue::Str("[{\"insert\":\"About eng\\n\"}]".into())),
        parent: Some("t0".into()),
    });
    assert_eq!(t.description, Some("About eng".to_string()));
    assert_eq!(t.parent_topic_id, Some("t0".to_string()));
    assert!(t.posts.is_none());
}

#[test]
fn graphql_replies() {
    let msgs = vec!["a".to_string(), "b".to_string()];
    assert_eq!(graphql_error_message(&msgs), "GraphQL errors: a; b");
    assert_eq!(graphql_outcome::<u8>(Some(1), Some(msgs)), Err("GraphQL errors: a; b".to_string()));
    assert_eq!(graphql_outcome::<u8>(None, None), Err("no data in GraphQL response".to_string()));
    assert_eq!(graphql_outcome::<u8>(Some(7), None), Ok(7));
}

#[test]
fn organization_requests() {
    assert!(is_public_api("https://api.slab.com/v1/graphql"));
    assert!(!is_public_api("https://acme.slab.com/graphql"));
    assert_eq!(organization_host("acme"), "acme.slab.com");
    assert!(organization_vars("https://api.slab.com/v1/graphql", "acme").is_none());
    let vars = organization_vars("https://acme.slab.com/graphql", "acme").unwrap();
    assert_eq!(serde(&vars), json(r#"{"host": "acme.slab.com"}"#));
}

#[test]
fn children_batch_request() {
    assert_eq!(
        children_batch_query(2),
        "query($p0: ID, $p1: ID) { t0: listTopics(first: 100, parentId: $p0) { edges { node { id name description parent { id } } } pageInfo { endCursor hasNextPage } } t1: listTopics(first: 100, parentId: $p1) { edges { node { id name description parent { id } } } pageInfo { endCursor hasNextPage } }}"
    );
    let vars = children_batch_vars(&vec!["a".to_string(), "b".to_string()]);
    assert_eq!(serde(&vars), json(r#"{"p0": "a", "p1": "b"}"#));
    assert_eq!(alias_index("t12"), 12);
    assert_eq!(alias_index("tt3"), 3);
    assert_eq!(alias_index("t"), 0);
    assert_eq!(alias_index("tx"), 0);
    assert_eq!(alias_index("t+4"), 4);
}

#[test]
fn frontier_in_groups_of_ten() {
    let ids: Vec<String> = (0..25).map(|i| format!("t{i}")).collect();
    let groups = chunks(&ids, 10);
    assert_eq!(groups.iter().map(|g| g.len()).collect::<Vec<_>>(), vec![10, 10, 5]);
    assert_eq!(groups[2][0], "t20");
}

#[test]
fn subtree_walk_order() {
    let topics = vec![topic("A", None), topic("B", Some("A")), topic("C", Some("A")), topic("D", Some("B"))];
    assert_eq!(topic_subtree(&topics, "A"), vec!["A", "C", "B", "D"]);
    assert_eq!(topic_subtree(&topics, "B"), vec!["B", "D"]);
    assert_eq!(topic_subtree(&topics, "Z"), vec!["Z"]);
}

#[test]
fn posts_listed_once() {
    let mut posts = vec![post_from_web(web_post("p1", None, None))];
    let page = vec![
        post_from_web(web_post("p2", None, None)),
        post_from_web(web_post("p1", None, None)),
        post_from_web(web_post("p2", None, None)),
    ];
    add_unseen_posts(&mut posts, page);
    assert_eq!(ids(&posts), vec!["p1", "p2"]);
}

#[test]
fn search_hits_with_posts() {
    let nodes = vec![
        SearchNode { post: Some(web_post("p1", None, None)), highlight: Some(JsonValue::Str("hit".into())) },
        SearchNode { post: None, highlight: None },
        SearchNode { post: Some(web_post("p2", None, None)), highlight: None },
    ];
    let rs = search_results(nodes);
    assert_eq!(rs.len(), 2);
    assert_eq!(rs[0].post.id, "p1");
    assert_eq!(rs[0].highlight, Some("hit".to_string()));
    assert_eq!(rs[1].highlight, None);
}

#[test]
fn content_update_variables() {
    let delta = value(&json(r#"{"ops": [{"insert": "new\n"}]}"#));
    let current = post_from_web(web_post("p1", Some(5), Some("a😀b")));
    assert_eq!(current.checksum(), 4);
    let vars = update_content_vars("p1", &delta, &current).unwrap();
    assert_eq!(
        serde(&vars),
        json(r#"{"id": "p1", "delta": {"ops": [{"insert": "new\n"}]}, "version": 5, "checksum": 4}"#)
    );
    let unversioned = post_from_web(web_post("p2", None, None));
    assert_eq!(
        update_content_vars("p2", &delta, &unversioned).err(),
        Some("post has no content version".to_string())
    );
}

#[test]
fn requests_carry_bearer_token() {
    assert_eq!(bearer_value("tok-123"), "Bearer tok-123");
}
