use slab_core::sync::{
    diff_selection, done_line, dry_run_line, file_diff, modified_push_step, pull_mode, push_action,
    push_selection, PushAction,
    push_step,
    next_pull_cursor, status_text, PullMode, PushStep,
};
use slab_core::vault::FileStatus;

fn statuses() -> Vec<(String, FileStatus)> {
    vec![
        ("Inbox/new.md".to_string(), FileStatus::Added),
        ("Topics/A.md".to_string(), FileStatus::Clean),
        ("Topics/B.md".to_string(), FileStatus::Modified),
        ("Topics/C.md".to_string(), FileStatus::Deleted),
    ]
}

fn paths(v: &[(String, FileStatus)]) -> Vec<&str> {
    v.iter().map(|e| e.0.as_str()).collect()
}

#[test]
fn push_takes_modified_files() {
    assert_eq!(paths(&push_selection(&statuses(), None, false)), vec!["Topics/B.md"]);
}

#[test]
fn push_all_takes_added_files_too() {
    assert_eq!(
        paths(&push_selection(&statuses(), None, true)),
        vec!["Inbox/new.md", "Topics/B.md"]
    );
}

#[test]
fn push_named_file_unless_clean() {
    assert_eq!(paths(&push_selection(&statuses(), Some("Inbox/new.md"), false)), vec!["Inbox/new.md"]);
    assert!(push_selection(&statuses(), Some("Topics/A.md"), true).is_empty());
    assert_eq!(paths(&push_selection(&statuses(), Some("Topics/C.md"), false)), vec!["Topics/C.md"]);
}

#[test]
fn diff_takes_named_or_modified() {
    assert_eq!(paths(&diff_selection(&statuses(), None)), vec!["Topics/B.md"]);
    assert_eq!(paths(&diff_selection(&statuses(), Some("Topics/A.md"))), vec!["Topics/A.md"]);
}

#[test]
fn status_text_lists_changes() {
    assert_eq!(status_text(&statuses()), "A Inbox/new.md\nM Topics/B.md\nD Topics/C.md\n");
    let clean = vec![("Topics/A.md".to_string(), FileStatus::Clean)];
    assert_eq!(status_text(&clean), "nothing to push, vault is clean\n");
    assert_eq!(status_text(&Vec::new()), "nothing to push, vault is clean\n");
}

#[test]
fn added_file_with_slab_id_updates_that_post() {
    let content = "---\nslab_id: \"p42\"\ntitle: \"x\"\n---\nHello\n";
    let step = push_step("Inbox/draft.md", FileStatus::Added, content, "");
    match &step {
        PushStep::Update { id, .. } => assert_eq!(id, "p42"),
        _ => panic!("expected an update"),
    }
    assert_eq!(dry_run_line("Inbox/draft.md", &step), "would push: Inbox/draft.md -> p42\n");
    assert_eq!(done_line("Inbox/draft.md", &step, "p42"), "pushed: Inbox/draft.md -> p42\n");
}

#[test]
fn added_file_without_slab_id_creates_post() {
    let step = push_step("Inbox/My Draft.md", FileStatus::Added, "# Title\n", "");
    match &step {
        PushStep::Create { title, .. } => assert_eq!(title, "My Draft"),
        _ => panic!("expected a creation"),
    }
    assert_eq!(
        dry_run_line("Inbox/My Draft.md", &step),
        "would create: Inbox/My Draft.md as \"My Draft\"\n"
    );
    assert_eq!(done_line("Inbox/My Draft.md", &step, "new1"), "created: Inbox/My Draft.md -> new1\n");
}

#[test]
fn modified_file_updates_tracked_post() {
    let step = push_step("Topics/B.md", FileStatus::Modified, "---\nslab_id: \"other\"\n---\nx\n", "p7");
    match &step {
        PushStep::Update { id, .. } => assert_eq!(id, "p7"),
        _ => panic!("expected an update"),
    }
    let clean = push_step("Topics/A.md", FileStatus::Clean, "x", "p1");
    assert!(matches!(clean, PushStep::Skip));
}

#[test]
fn diff_of_file_body() {
    let pulled = "---\nslab_id: \"x\"\nversion: 1\n---\nline one\nline two\n";
    let content = "---\nslab_id: \"x\"\n---\nline one\nline 2\n";
    assert_eq!(
        file_diff("Topics/A.md", pulled, content),
        "--- a/Topics/A.md\n+++ b/Topics/A.md\nline one\n-line two\n+line 2\n\n"
    );
    assert_eq!(
        file_diff("Topics/A.md", pulled, pulled),
        "--- a/Topics/A.md\n+++ b/Topics/A.md\nline one\nline two\n\n"
    );
    assert_eq!(file_diff("a.md", "", "x"), "--- a/a.md\n+++ b/a.md\n+x\n\n");
}

#[test]
fn modified_push_refused_when_remote_changed() {
    let content = "---\nslab_id: \"p1\"\n---\n# Hi\n";
    let r = modified_push_step("Topics/A.md", content, "p1", "h0", Some("h1"), false);
    assert_eq!(
        r.err().unwrap(),
        "conflict: remote post changed since last pull (use --force to overwrite)"
    );
    let r = modified_push_step("Topics/A.md", content, "p1", "h0", Some("h1"), true);
    assert!(matches!(r, Ok(PushStep::Update { ref id, .. }) if id == "p1"));
    let r = modified_push_step("Topics/A.md", content, "p1", "h0", Some("h0"), false);
    assert!(matches!(r, Ok(PushStep::Update { ref id, .. }) if id == "p1"));
    let r = modified_push_step("Topics/A.md", content, "p1", "h0", None, false);
    assert!(r.is_err());
}

#[test]
fn pull_modes() {
    assert!(matches!(pull_mode(Some("t"), Some("p")), PullMode::Post(ref p) if p == "p"));
    assert!(matches!(pull_mode(Some("t"), None), PullMode::Topic(ref t) if t == "t"));
    assert!(matches!(pull_mode(None, None), PullMode::All));
}

#[test]
fn pull_stops_on_empty_page_or_last_page() {
    assert_eq!(next_pull_cursor(0, Some("c2".to_string())), None);
    assert_eq!(next_pull_cursor(3, None), None);
    assert_eq!(next_pull_cursor(3, Some("c2".to_string())), Some("c2".to_string()));
}

#[test]
fn dry_run_prints_whatever_the_remote_holds() {
    let content = "---\nslab_id: \"p1\"\n---\n# Hi\n";
    let a = push_action("Topics/A.md", FileStatus::Modified, content, "p1", "h0", Some("h1"), false, true);
    assert!(matches!(a, PushAction::Print(ref l) if l == "would push: Topics/A.md -> p1\n"));
    let a = push_action("Inbox/n.md", FileStatus::Added, "# New\n", "", "", None, false, true);
    assert!(matches!(a, PushAction::Print(ref l) if l == "would create: Inbox/n.md as \"n\"\n"));
    let a = push_action("Topics/A.md", FileStatus::Modified, content, "p1", "h0", Some("h1"), false, false);
    assert!(matches!(a, PushAction::Refuse(ref e) if e.starts_with("conflict:")));
    let a = push_action("Topics/A.md", FileStatus::Modified, content, "p1", "h0", Some("h0"), false, false);
    assert!(matches!(a, PushAction::Send(PushStep::Update { ref id, .. }) if id == "p1"));
}
