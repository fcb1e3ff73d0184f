use slab_core::auth::{self, AuthAction, AuthPlan};
use slab_core::config::{Config, EnvVars};
use slab_core::context::Context;
use slab_core::links::{backlinks_of, backlinks_target, backlinks_text, extract_links, links_target, links_text};
use slab_core::output::Format;
use slab_core::posts::{extract_post_id, format_post_list, open_url, post_text};
use slab_core::search::{
    format_remote_results, keep_first, search_files, wants_more_results, LocalSearch,
};
use slab_core::topics::{find_topic, format_topic_list, format_topic_posts, topic_detail};
use slab_core::tree::{render_tree, TreeEntry, TreeOptions};
use slab_core::types::{Post, SearchResult, Topic, TopicRef};
use slab_core::vault_cmd::{info_header, posts_line};

fn post(id: &str, title: &str, updated: Option<&str>, topics: Option<Vec<&str>>) -> Post {
    Post {
        id: id.to_string(),
        title: title.to_string(),
        content: None,
        markdown: None,
        text: None,
        inserted_at: None,
        updated_at: updated.map(|s| s.to_string()),
        version: None,
        topics: topics.map(|ts| {
            ts.into_iter().map(|n| TopicRef { id: format!("id-{n}"), name: n.to_string() }).collect()
        }),
    }
}

fn topic(id: &str, name: &str, desc: Option<&str>, parent: Option<&str>) -> Topic {
    Topic {
        id: id.to_string(),
        name: name.to_string(),
        description: desc.map(|s| s.to_string()),
        parent_topic_id: parent.map(|s| s.to_string()),
        posts: None,
    }
}

fn ctx() -> Context {
    Context { team: None, token: None, vault: None, format: Format::Text, copy: false }
}

fn dir(name: &str, children: Vec<TreeEntry>) -> TreeEntry {
    TreeEntry { name: name.to_string(), is_dir: true, children }
}

fn file(name: &str) -> TreeEntry {
    TreeEntry { name: name.to_string(), is_dir: false, children: vec![] }
}

#[test]
fn post_ids_from_urls() {
    assert_eq!(extract_post_id("https://acme.slab.com/posts/my-rfc-abc123"), "abc123");
    assert_eq!(extract_post_id("https://acme.slab.com/posts/abc123"), "abc123");
    assert_eq!(extract_post_id("abc123"), "abc123");
    assert_eq!(extract_post_id("https://example.com/posts/x-y"), "https://example.com/posts/x-y");
}

#[test]
fn post_listing_formats() {
    let posts = vec![
        post("p1", "One", Some("2025-01-01"), Some(vec!["Eng", "Ops"])),
        post("p2", "Two", None, None),
    ];
    assert_eq!(
        format_post_list(&posts, Format::Text).unwrap(),
        "  p1 — One [Eng, Ops]\n  p2 — Two []\n"
    );
    assert_eq!(
        format_post_list(&posts, Format::Tsv).unwrap(),
        "ID\tTITLE\tUPDATED\np1\tOne\t2025-01-01\np2\tTwo\t-\n"
    );
    assert_eq!(format_post_list(&vec![], Format::Md).unwrap(), "(no posts)\n");
    assert!(format_post_list(&posts, Format::Json).is_none());
}

#[test]
fn post_text_header() {
    let p = post("p1", "One", None, None);
    assert_eq!(post_text(&p), "# One\n\nID: p1 | Updated: unknown\n\n");
}

#[test]
fn open_urls() {
    assert_eq!(open_url("https://x.y/z", "acme", None), Ok("https://x.y/z".to_string()));
    assert_eq!(open_url("abc", "acme", None), Ok("https://acme.slab.com/posts/abc".to_string()));
    assert_eq!(
        open_url("Topics/A.md", "acme", Some("---\nslab_id: \"p1\"\n---\n")),
        Ok("https://acme.slab.com/posts/p1".to_string())
    );
    assert_eq!(
        open_url("Topics/A.md", "acme", Some("no frontmatter")),
        Err("no slab_id in frontmatter for Topics/A.md".to_string())
    );
}

#[test]
fn local_search_is_grep_style() {
    let mut s = LocalSearch::new("Hello", 10);
    s.add_file(&"a.md".to_string(), "Hello world\nnothing\r\nsay HELLO\n");
    s.add_file(&"b.md".to_string(), "no match here");
    assert_eq!(s.matches.len(), 1);
    assert_eq!(s.text_output("Hello"), "a.md:1: Hello world\na.md:3: say HELLO\n");
    let empty = LocalSearch::new("zzz", 10);
    assert_eq!(empty.text_output("zzz"), "no matches for \"zzz\"\n");
}

#[test]
fn local_search_stops_at_limit() {
    let files = vec![
        ("a.md".to_string(), "x".to_string()),
        ("b.md".to_string(), "none".to_string()),
        ("c.md".to_string(), "X two".to_string()),
        ("d.md".to_string(), "x three".to_string()),
    ];
    let s = search_files("x", 2, &files);
    let paths: Vec<&str> = s.matches.iter().map(|m| m.0.as_str()).collect();
    assert_eq!(paths, vec!["a.md", "c.md"]);
    assert_eq!(s.text_output("x"), "a.md:1: x\nc.md:1: X two\n");
    assert_eq!(search_files("x", 1, &files).matches.len(), 1);
    assert_eq!(search_files("x", 10, &files).matches.len(), 3);
    let none = search_files("x", 0, &files);
    assert!(none.matches.is_empty());
    assert_eq!(none.text_output("x"), "no matches for \"x\"\n");
}

#[test]
fn remote_search_paging_and_text() {
    assert!(wants_more_results(1, 2, &Some("c".to_string())));
    assert!(!wants_more_results(2, 2, &Some("c".to_string())));
    assert!(!wants_more_results(1, 2, &None));
    let results = vec![
        SearchResult { post: post("p1", "T", None, None), highlight: Some("hi".to_string()) },
        SearchResult { post: post("p2", "U", None, None), highlight: None },
    ];
    let kept = keep_first(results, 5);
    assert_eq!(kept.len(), 2);
    assert_eq!(
        format_remote_results(&kept, "q", Format::Text).unwrap(),
        "2 result(s) for \"q\"\n\n  p1 — T\n    hi\n  p2 — U\n"
    );
    assert_eq!(
        format_remote_results(&kept, "q", Format::Tsv).unwrap(),
        "ID\tTITLE\tHIGHLIGHT\np1\tT\thi\np2\tU\t\n"
    );
    assert_eq!(keep_first(kept, 1).len(), 1);
}

#[test]
fn topic_listing_formats() {
    let topics = vec![topic("t1", "Eng", Some("Engineering"), None), topic("t2", "Ops", Some(""), Some("t1"))];
    assert_eq!(
        format_topic_list(&topics, Format::Text).unwrap(),
        "  t1 — Eng (Engineering)\n  t2 — Ops\n"
    );
    assert_eq!(
        format_topic_list(&topics, Format::Tsv).unwrap(),
        "ID\tNAME\tPARENT\nt1\tEng\t-\nt2\tOps\tt1\n"
    );
    assert_eq!(format_topic_list(&vec![], Format::Text).unwrap(), "(no topics)\n");
    assert_eq!(find_topic(&topics, "t2"), Ok(1));
    assert_eq!(find_topic(&topics, "nope"), Err("topic not found: nope".to_string()));
    assert_eq!(
        topic_detail(&topics[0]),
        "ID:          t1\nName:        Eng\nDescription: Engineering\nParent:      -\n"
    );
    let posts = vec![post("p1", "One", None, None)];
    assert_eq!(format_topic_posts(&posts, Format::Text).unwrap(), "  p1 — One\n");
    assert_eq!(format_topic_posts(&vec![], Format::Text).unwrap(), "(no posts in topic)\n");
}

#[test]
fn links_and_backlinks() {
    let links = extract_links("See [a](notes.md) and [[Wiki|shown]] and [x](https://e.com) [[Plain]]");
    assert_eq!(links, vec!["notes.md".to_string(), "Wiki".to_string(), "Plain".to_string()]);
    assert_eq!(
        links_text("f.md", &links),
        "outgoing links from f.md:\n  -> notes.md\n  -> Wiki\n  -> Plain\n"
    );
    assert_eq!(links_text("f.md", &vec![]), "outgoing links from f.md:\n  (none)\n");
    let files = vec![
        ("c.md".to_string(), "[t](Topics/target.md)".to_string()),
        ("a.md".to_string(), "[[target]] and [[target]]".to_string()),
        ("b.md".to_string(), "nothing".to_string()),
    ];
    let incoming = backlinks_of(&files, "Topics/target.md");
    assert_eq!(incoming, vec!["a.md".to_string(), "c.md".to_string()]);
    assert_eq!(backlinks_text("Topics/target.md", &incoming), "backlinks to Topics/target.md:\n  <- a.md\n  <- c.md\n");
    assert_eq!(backlinks_target(None), Err("file argument is required".to_string()));
    assert_eq!(backlinks_target(Some("")), Err("file argument is required".to_string()));
    assert_eq!(links_target(None, Some("first.md")), "first.md");
    assert_eq!(links_target(Some("x.md"), Some("first.md")), "x.md");
}

#[test]
fn tree_drawing() {
    let entries = vec![
        dir("Topics", vec![dir("Eng", vec![file("rfc.md")]), file("a.md")]),
        file("README.md"),
        file(".hidden"),
        dir("Inbox", vec![]),
    ];
    let all = TreeOptions { path: None, dirs: false, depth: None };
    assert_eq!(
        render_tree("vault", &entries, &all),
        "vault/\nInbox/\nTopics/\n├── Eng/\n│   └── rfc.md\n└── a.md\nREADME.md\n"
    );
    let shallow = TreeOptions { path: None, dirs: false, depth: Some(1) };
    assert_eq!(render_tree("vault", &entries, &shallow), "vault/\nInbox/\nTopics/\nREADME.md\n");
    let dirs_only = TreeOptions { path: None, dirs: true, depth: None };
    assert_eq!(render_tree("vault", &entries, &dirs_only), "vault/\nInbox/\nTopics/\n└── Eng/\n");
}

#[test]
fn login_needs_team_and_token() {
    let r = auth::run(&ctx(), AuthAction::Login { token: None, team: None }, None, None, None);
    assert!(matches!(r, Err(ref e) if e == "--team is required for login"));
    let r = auth::run(&ctx(), AuthAction::Login { token: None, team: Some("acme".into()) }, None, None, None);
    assert!(matches!(r, Err(ref e) if e == "--token is required for login"));
    let r = auth::run(&ctx(), AuthAction::Login { token: None, team: None }, Some("envteam".into()), Some("tok".into()), None);
    match r {
        Ok(AuthPlan::Login { team, token }) => {
            assert_eq!(team, "envteam");
            assert_eq!(token, "tok");
        }
        _ => panic!("expected a login"),
    }
    let r = auth::run(&ctx(), AuthAction::Status, None, None, None);
    assert!(matches!(r, Ok(AuthPlan::Status { ref text }) if text == "not authenticated — run `slab auth login` first\n"));
    let cfg = Config { team: "acme".into(), token: "0123456789".into(), endpoint: "e".into(), vault_path: "/v".into() };
    let r = auth::run(&ctx(), AuthAction::Status, None, None, Some(&cfg));
    assert!(matches!(r, Ok(AuthPlan::Status { ref text }) if text == "team:  acme\nvault: /v\nendpoint: e\ntoken: 01234567...\n"));
}

#[test]
fn token_preview_and_status() {
    assert_eq!(auth::token_preview("abcdefghijk"), "abcdefgh");
    assert_eq!(auth::token_preview("short"), "short");
    assert_eq!(auth::token_preview("abcde€xyz"), "abcde€");
    let cfg = Config { team: "acme".into(), token: "0123456789".into(), endpoint: "e".into(), vault_path: "/v".into() };
    assert_eq!(auth::status_text(Some(&cfg)), "team:  acme\nvault: /v\nendpoint: e\ntoken: 01234567...\n");
    assert_eq!(auth::status_text(None), "not authenticated — run `slab auth login` first\n");
    assert_eq!(auth::logout_text(Some("/v/.slab/config.toml")), "removed /v/.slab/config.toml\nlogged out\n");
    assert_eq!(auth::logout_text(None), "logged out\n");
    assert_eq!(auth::login_text("acme.slab.com", "acme"), "authenticated to acme.slab.com (acme)\n");
}

#[test]
fn vault_info_lines() {
    let cfg = Config { team: "acme".into(), token: "t".into(), endpoint: "e".into(), vault_path: "/v".into() };
    assert_eq!(info_header(&cfg), "team:     acme\nvault:    /v\nendpoint: e\n");
    assert_eq!(posts_line(Some(12)), "posts:    12\n");
    assert_eq!(posts_line(None), "posts:    (no state db — run `slab pull` first)\n");
}

#[test]
fn formats_by_name() {
    assert_eq!(Format::parse("JSON"), Ok(Format::Json));
    assert_eq!(Format::parse("markdown"), Ok(Format::Md));
    assert_eq!(Format::parse("Tsv"), Ok(Format::Tsv));
    assert_eq!(Format::parse("xml"), Err("unknown format: xml".to_string()));
    assert_eq!("text".parse::<Format>(), Ok(Format::Text));
    assert_eq!(Format::Md.as_str(), "md");
}

#[test]
fn config_from_environment() {
    let env = EnvVars { team: None, token: None, vault: None, endpoint: None };
    let r = Config::from_env(&None, &None, &None, &env, &Some("/home/u".into()));
    assert!(matches!(r, Err(ref e) if e.message() == "--team or SLAB_TEAM is required"));
    let r = Config::from_env(&Some("acme".into()), &None, &None, &env, &None);
    assert!(matches!(r, Err(ref e) if e.message() == "--token or SLAB_API_TOKEN is required"));
    let c = Config::from_env(&Some("acme".into()), &Some("tok".into()), &None, &env, &Some("/home/u".into())).unwrap();
    assert_eq!(c.vault_path, "/home/u/.slab/acme");
    assert_eq!(c.endpoint, "https://api.slab.com/v1/graphql");
    let env2 = EnvVars { team: Some("envteam".into()), token: Some("envtok".into()), vault: Some("/vv".into()), endpoint: Some("https://x/graphql".into()) };
    let c = Config::from_env(&None, &None, &None, &env2, &None).unwrap();
    assert_eq!(c.team, "envteam");
    assert_eq!(c.vault_path, "/vv");
    assert_eq!(c.endpoint, "https://x/graphql");
}

#[test]
fn each_link_reported_once() {
    assert_eq!(extract_links("[a] and [b](c.md)"), vec!["c.md"]);
    assert_eq!(extract_links("[a [b](c.md)"), vec!["c.md"]);
    assert_eq!(extract_links("[[W]](x.md) [t] (y)"), vec!["W"]);
}
