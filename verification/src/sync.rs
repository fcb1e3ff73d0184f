//! Decisions of `slab status`, `slab diff` and `slab push`: which files they
//! take, what they print, and what pushing a file asks of Slab.
use vstd::prelude::*;

use crate::from_delta::push_lit;
use crate::json::{Json, JsonValue};
use crate::paths::{file_name_of, path_file_stem, stem_of};
use crate::text::{chars_of, str_is, string_of};
use crate::to_delta::{delta_of_events, lit_string, markdown_to_delta, push_entry};
use crate::markdown::markdown_events;
use crate::status::entries_of;
use crate::types::Post;
use crate::vault::{
    fields_single_line, lemma_post_file_body, lemma_post_file_slab_id, opt_str_view, post_file_text,
    post_markdown, topic_names, parse_frontmatter_slab_id, push_str, slab_id_spec, status_marker, strip_frontmatter, strip_spec,
    content_hash, post_file, FileStatus,
};

verus! {

/// The entries of `s` that `keep` holds of, in order.
pub open spec fn select(
    s: Seq<(Seq<char>, FileStatus)>,
    keep: spec_fn((Seq<char>, FileStatus)) -> bool,
) -> Seq<(Seq<char>, FileStatus)>
    decreases s.len(),
{
    if s.len() == 0 {
        Seq::empty()
    } else if keep(s.last()) {
        select(s.drop_last(), keep).push(s.last())
    } else {
        select(s.drop_last(), keep)
    }
}

/// Which files `slab push` takes: the named file unless it is clean; with
/// `--all` the modified and added files; else the modified ones.
pub open spec fn push_keeps(file: Option<Seq<char>>, all: bool) -> spec_fn(
    (Seq<char>, FileStatus),
) -> bool {
    |e: (Seq<char>, FileStatus)|
        match file {
            Some(f) => e.0 == f && e.1 != FileStatus::Clean,
            None => if all {
                e.1 == FileStatus::Modified || e.1 == FileStatus::Added
            } else {
                e.1 == FileStatus::Modified
            },
        }
}

/// Which files `slab diff` takes: the named file, or the modified ones.
pub open spec fn diff_keeps(file: Option<Seq<char>>) -> spec_fn((Seq<char>, FileStatus)) -> bool {
    |e: (Seq<char>, FileStatus)|
        match file {
            Some(f) => e.0 == f,
            None => e.1 == FileStatus::Modified,
        }
}

proof fn lemma_select_contains(
    s: Seq<(Seq<char>, FileStatus)>,
    keep: spec_fn((Seq<char>, FileStatus)) -> bool,
    e: (Seq<char>, FileStatus),
)
    ensures
        select(s, keep).contains(e) <==> s.contains(e) && keep(e),
    decreases s.len(),
{
    if s.len() > 0 {
        let d = s.drop_last();
        lemma_select_contains(d, keep, e);
        assert(s =~= d.push(s.last()));
        let r = select(d, keep);
        if s.contains(e) && keep(e) {
            let i = choose|i: int| 0 <= i < s.len() && s[i] == e;
            if i < s.len() - 1 {
                assert(d[i] == e);
                let j = choose|j: int| 0 <= j < r.len() && r[j] == e;
                if keep(s.last()) {
                    assert(r.push(s.last())[j] == e);
                }
            } else {
                assert(r.push(s.last())[r.len() as int] == e);
            }
        }
        if select(s, keep).contains(e) {
            let j = choose|j: int| 0 <= j < select(s, keep).len() && select(s, keep)[j] == e;
            if keep(s.last()) && j == r.len() {
                assert(s[s.len() - 1] == e);
            } else {
                assert(r[j] == e);
                let i = choose|i: int| 0 <= i < d.len() && d[i] == e;
                assert(s[i] == e);
            }
        }
    }
}

/// `slab push` takes, among the files listed by status, exactly: the
/// named file when it is not clean; with `--all`, every modified or added
/// file; otherwise every modified file. `slab diff` takes the named file,
/// or every modified file.
pub proof fn lemma_selected_files(
    s: Seq<(Seq<char>, FileStatus)>,
    e: (Seq<char>, FileStatus),
    file: Option<Seq<char>>,
    all: bool,
)
    ensures
        select(s, push_keeps(file, all)).contains(e) <==> s.contains(e) && match file {
            Some(f) => e.0 == f && e.1 != FileStatus::Clean,
            None => e.1 == FileStatus::Modified || (all && e.1 == FileStatus::Added),
        },
        select(s, diff_keeps(file)).contains(e) <==> s.contains(e) && match file {
            Some(f) => e.0 == f,
            None => e.1 == FileStatus::Modified,
        },
{
    lemma_select_contains(s, push_keeps(file, all), e);
    lemma_select_contains(s, diff_keeps(file), e);
}

pub open spec fn opt_str(o: Option<&str>) -> Option<Seq<char>> {
    match o {
        Some(s) => Some(s@),
        None => None,
    }
}

fn keeps_for_push(e: &(String, FileStatus), file: Option<&str>, all: bool) -> (b: bool)
    ensures
        b == (push_keeps(opt_str(file), all))((e.0@, e.1)),
{
    match file {
        Some(f) => str_is(e.0.as_str(), f) && e.1 != FileStatus::Clean,
        None => if all {
            e.1 == FileStatus::Modified || e.1 == FileStatus::Added
        } else {
            e.1 == FileStatus::Modified
        },
    }
}

fn keeps_for_diff(e: &(String, FileStatus), file: Option<&str>) -> (b: bool)
    ensures
        b == (diff_keeps(opt_str(file)))((e.0@, e.1)),
{
    match file {
        Some(f) => str_is(e.0.as_str(), f),
        None => e.1 == FileStatus::Modified,
    }
}

/// The files that `slab push` pushes, in status order.
pub fn push_selection(statuses: &Vec<(String, FileStatus)>, file: Option<&str>, all: bool) -> (r: Vec<
    (String, FileStatus),
>)
    ensures
        entries_of(r@) == select(entries_of(statuses@), push_keeps(opt_str(file), all)),
{
    let ghost keep = push_keeps(opt_str(file), all);
    let ghost es = entries_of(statuses@);
    let mut r: Vec<(String, FileStatus)> = Vec::new();
    let mut i: usize = 0;
    while i < statuses.len()
        invariant
            i <= statuses@.len(),
            keep == push_keeps(opt_str(file), all),
            es == entries_of(statuses@),
            entries_of(r@) == select(es.take(i as int), keep),
        decreases statuses.len() - i,
    {
        assert(es.take(i + 1).drop_last() =~= es.take(i as int));
        assert(es[i as int] == (statuses@[i as int].0@, statuses@[i as int].1));
        let ghost prev = r@;
        if keeps_for_push(&statuses[i], file, all) {
            r.push((statuses[i].0.clone(), statuses[i].1));
            assert(entries_of(r@) =~= entries_of(prev).push(es[i as int]));
        }
        i = i + 1;
    }
    assert(es.take(statuses@.len() as int) =~= es);
    r
}

/// The files that `slab diff` shows, in status order.
pub fn diff_selection(statuses: &Vec<(String, FileStatus)>, file: Option<&str>) -> (r: Vec<
    (String, FileStatus),
>)
    ensures
        entries_of(r@) == select(entries_of(statuses@), diff_keeps(opt_str(file))),
{
    let ghost keep = diff_keeps(opt_str(file));
    let ghost es = entries_of(statuses@);
    let mut r: Vec<(String, FileStatus)> = Vec::new();
    let mut i: usize = 0;
    while i < statuses.len()
        invariant
            i <= statuses@.len(),
            keep == diff_keeps(opt_str(file)),
            es == entries_of(statuses@),
            entries_of(r@) == select(es.take(i as int), keep),
        decreases statuses.len() - i,
    {
        assert(es.take(i + 1).drop_last() =~= es.take(i as int));
        assert(es[i as int] == (statuses@[i as int].0@, statuses@[i as int].1));
        let ghost prev = r@;
        if keeps_for_diff(&statuses[i], file) {
            r.push((statuses[i].0.clone(), statuses[i].1));
            assert(entries_of(r@) =~= entries_of(prev).push(es[i as int]));
        }
        i = i + 1;
    }
    assert(es.take(statuses@.len() as int) =~= es);
    r
}

/// The `<marker> <path>` lines of the files that are not clean.
pub open spec fn status_lines(s: Seq<(Seq<char>, FileStatus)>) -> Seq<char>
    decreases s.len(),
{
    if s.len() == 0 {
        Seq::empty()
    } else if s.last().1 == FileStatus::Clean {
        status_lines(s.drop_last())
    } else {
        status_lines(s.drop_last()) + status_marker(s.last().1) + " "@ + s.last().0 + "\n"@
    }
}

/// The text of `slab status`.
pub open spec fn status_text_spec(s: Seq<(Seq<char>, FileStatus)>) -> Seq<char> {
    let lines = status_lines(s);
    if lines.len() == 0 {
        "nothing to push, vault is clean\n"@
    } else {
        lines
    }
}

/// `slab status` lists, in order, a line `<letter> <path>` for each file
/// that is not clean (`M` modified, `A` added, `D` deleted, `C` in
/// conflict) and nothing for a clean file; with no such file it says the
/// vault is clean.
pub proof fn lemma_status_lines(s: Seq<(Seq<char>, FileStatus)>, path: Seq<char>, st: FileStatus)
    ensures
        status_text_spec(Seq::empty()) == "nothing to push, vault is clean\n"@,
        status_lines(s.push((path, FileStatus::Clean))) == status_lines(s),
        st != FileStatus::Clean ==> status_lines(s.push((path, st))) == status_lines(s) + match st {
            FileStatus::Modified => "M"@,
            FileStatus::Added => "A"@,
            FileStatus::Deleted => "D"@,
            FileStatus::Conflict => "C"@,
            FileStatus::Clean => " "@,
        } + " "@ + path + "\n"@,
        st != FileStatus::Clean ==> status_text_spec(s.push((path, st))) == status_lines(s.push(
            (path, st),
        )),
{
    assert(s.push((path, FileStatus::Clean)).drop_last() =~= s);
    assert(s.push((path, st)).drop_last() =~= s);
    reveal_strlit(" ");
    reveal_strlit("\n");
}

/// `slab status` as text: a line for each file that is not clean, or a
/// line saying the vault is clean.
pub fn status_text(statuses: &Vec<(String, FileStatus)>) -> (r: String)
    ensures
        r@ == status_text_spec(entries_of(statuses@)),
{
    let ghost es = entries_of(statuses@);
    let mut o: Vec<char> = Vec::new();
    let mut i: usize = 0;
    while i < statuses.len()
        invariant
            i <= statuses@.len(),
            es == entries_of(statuses@),
            o@ == status_lines(es.take(i as int)),
        decreases statuses.len() - i,
    {
        assert(es.take(i + 1).drop_last() =~= es.take(i as int));
        assert(es[i as int] == (statuses@[i as int].0@, statuses@[i as int].1));
        let st = statuses[i].1;
        if st != FileStatus::Clean {
            push_lit(&mut o, st.marker());
            push_lit(&mut o, " ");
            push_str(&mut o, &statuses[i].0);
            push_lit(&mut o, "\n");
        }
        i = i + 1;
    }
    assert(es.take(statuses@.len() as int) =~= es);
    if o.len() == 0 {
        return lit_string("nothing to push, vault is clean\n");
    }
    string_of(o.as_slice())
}

/// `{"path": p, "status": marker}`.
pub open spec fn status_item(e: (Seq<char>, FileStatus)) -> Json {
    Json::Obj(seq![("path"@, Json::Str(e.0)), ("status"@, Json::Str(status_marker(e.1)))])
}

/// The items of `slab status --format json`: the files that are not clean.
pub open spec fn status_items_spec(s: Seq<(Seq<char>, FileStatus)>) -> Seq<Json>
    decreases s.len(),
{
    if s.len() == 0 {
        Seq::empty()
    } else if s.last().1 == FileStatus::Clean {
        status_items_spec(s.drop_last())
    } else {
        status_items_spec(s.drop_last()).push(status_item(s.last()))
    }
}

/// `slab status` as JSON.
pub fn status_items(statuses: &Vec<(String, FileStatus)>) -> (r: JsonValue)
    ensures
        r@ == Json::Arr(status_items_spec(entries_of(statuses@))),
{
    let ghost es = entries_of(statuses@);
    let mut items: Vec<JsonValue> = Vec::new();
    let mut i: usize = 0;
    while i < statuses.len()
        invariant
            i <= statuses@.len(),
            es == entries_of(statuses@),
            crate::json::seq_view(items@) == status_items_spec(es.take(i as int)),
        decreases statuses.len() - i,
    {
        assert(es.take(i + 1).drop_last() =~= es.take(i as int));
        assert(es[i as int] == (statuses@[i as int].0@, statuses@[i as int].1));
        let st = statuses[i].1;
        if st != FileStatus::Clean {
            let mut e: Vec<(String, JsonValue)> = Vec::new();
            push_entry(&mut e, lit_string("path"), JsonValue::Str(statuses[i].0.clone()));
            push_entry(&mut e, lit_string("status"), JsonValue::string(st.marker()));
            assert(crate::json::entries_view(e@) =~= seq![
                ("path"@, Json::Str(es[i as int].0)),
                ("status"@, Json::Str(status_marker(st))),
            ]);
            let item = JsonValue::Object(e);
            let ghost prev = items@;
            items.push(item);
            proof {
                crate::json::lemma_seq_view_push(prev, item);
            }
        }
        i = i + 1;
    }
    assert(es.take(statuses@.len() as int) =~= es);
    JsonValue::Array(items)
}

// ---------------------------------------------------------------------
// Pushing a file
/// What pushing one file asks of Slab.
pub enum PushStep {
    /// Update the content of the post `id` to `delta`.
    Update { id: String, delta: JsonValue },
    /// Create a post titled `title` holding `delta`.
    Create { title: String, delta: JsonValue },
    /// Nothing.
    Skip,
}

/// Model of a push step.
pub enum PushStepView {
    Update(Seq<char>, Json),
    Create(Seq<char>, Json),
    Skip,
}

pub open spec fn step_view(s: PushStep) -> PushStepView {
    match s {
        PushStep::Update { id, delta } => PushStepView::Update(id@, delta@),
        PushStep::Create { title, delta } => PushStepView::Create(title@, delta@),
        PushStep::Skip => PushStepView::Skip,
    }
}

/// The Delta pushed for a file: that of its body, frontmatter left out.
pub open spec fn file_delta(content: Seq<char>) -> Json {
    delta_of_events(markdown_events(strip_spec(content)))
}

/// The title of a new post made from the file at `path`: its file stem.
pub open spec fn new_post_title(path: Seq<char>) -> Seq<char> {
    match path_file_stem(path) {
        Some(s) => s,
        None => "Untitled"@,
    }
}

/// What `slab push` does with a file of status `status` and content
/// `content`; `tracked_id` is the post a modified file was pulled from. A
/// modified file updates its post; an added file updates the post its
/// frontmatter names, or creates a post named after the file.
pub open spec fn push_step_spec(
    path: Seq<char>,
    status: FileStatus,
    content: Seq<char>,
    tracked_id: Seq<char>,
) -> PushStepView {
    match status {
        FileStatus::Modified => PushStepView::Update(tracked_id, file_delta(content)),
        FileStatus::Added => match slab_id_spec(content) {
            Some(id) => PushStepView::Update(id, file_delta(content)),
            None => PushStepView::Create(new_post_title(path), file_delta(content)),
        },
        _ => PushStepView::Skip,
    }
}

/// The stem of a path's file name, or `Untitled`.
pub fn new_post_title_of(path: &str) -> (r: String)
    ensures
        r@ == new_post_title(path@),
{
    let pc = chars_of(path);
    match file_name_of(pc.as_slice()) {
        Some(n) => string_of(stem_of(n.as_slice()).as_slice()),
        None => lit_string("Untitled"),
    }
}

/// The step `slab push` takes for one file.
pub fn push_step(path: &str, status: FileStatus, content: &str, tracked_id: &str) -> (r: PushStep)
    ensures
        step_view(r) == push_step_spec(path@, status, content@, tracked_id@),
{
    match status {
        FileStatus::Modified => {
            let body = strip_frontmatter(content);
            let delta = markdown_to_delta(body.as_str());
            PushStep::Update { id: lit_string(tracked_id), delta }
        },
        FileStatus::Added => {
            let body = strip_frontmatter(content);
            let delta = markdown_to_delta(body.as_str());
            match parse_frontmatter_slab_id(content) {
                Some(id) => PushStep::Update { id, delta },
                None => PushStep::Create { title: new_post_title_of(path), delta },
            }
        },
        _ => PushStep::Skip,
    }
}

/// Pushing a file written for a post (kept as an added file) updates
/// that post with the Delta of the post's Markdown (when no frontmatter
/// field holds a newline and the id is non-empty); pushing it as a
/// modified file sends the same Delta.
pub proof fn lemma_push_written_post(post: Post, path: Seq<char>, tracked_id: Seq<char>)
    requires
        fields_single_line(post.id@, post.title@, topic_names(post.topics), opt_str_view(
            post.updated_at,
        )),
        post.id@.len() > 0,
    ensures
        push_step_spec(path, FileStatus::Added, post_file_text(post), tracked_id)
            == PushStepView::Update(post.id@, delta_of_events(markdown_events(post_markdown(post)))),
        push_step_spec(path, FileStatus::Modified, post_file_text(post), tracked_id)
            == PushStepView::Update(tracked_id, delta_of_events(markdown_events(post_markdown(post)))),
{
    lemma_post_file_slab_id(post);
    lemma_post_file_body(post);
}

/// The error of a push refused because the remote post changed.
pub open spec fn conflict_message() -> Seq<char> {
    "conflict: remote post changed since last pull (use --force to overwrite)"@
}

/// The remote post changed since the last pull: the hash of the file it
/// would be written as now (`None` when it was not fetched) is not the
/// hash stored at the pull.
pub open spec fn remote_changed(stored_hash: Seq<char>, remote_hash: Option<Seq<char>>) -> bool {
    remote_hash != Some(stored_hash)
}

/// What `slab push` does with a modified file: without `force`, a remote
/// that changed since the last pull refuses the push with a conflict;
/// otherwise the file's post is updated.
pub open spec fn modified_push_spec(
    path: Seq<char>,
    content: Seq<char>,
    tracked_id: Seq<char>,
    stored_hash: Seq<char>,
    remote_hash: Option<Seq<char>>,
    force: bool,
) -> Result<PushStepView, Seq<char>> {
    if !force && remote_changed(stored_hash, remote_hash) {
        Err(conflict_message())
    } else {
        Ok(push_step_spec(path, FileStatus::Modified, content, tracked_id))
    }
}

/// The hash of the file a post would be written as now; the state of a
/// pulled file stores this hash for the post as it was pulled.
pub fn remote_file_hash(post: &Post) -> (h: String)
    ensures
        h@ == content_hash(post_file_text(*post)),
{
    post_file(post).state.remote_content_hash
}

/// The step `slab push` takes for a modified file, given the hash stored
/// at the last pull, the hash of the remote post fetched now (`None` when
/// it was not fetched) and `--force`.
pub fn modified_push_step(
    path: &str,
    content: &str,
    tracked_id: &str,
    stored_hash: &str,
    remote_hash: Option<&str>,
    force: bool,
) -> (r: Result<PushStep, String>)
    ensures
        match modified_push_spec(
            path@,
            content@,
            tracked_id@,
            stored_hash@,
            match remote_hash {
                Some(h) => Some(h@),
                None => None,
            },
            force,
        ) {
            Ok(st) => r matches Ok(s) && step_view(s) == st,
            Err(e) => r matches Err(m) && m@ == e,
        },
{
    let changed = match remote_hash {
        Some(h) => !str_is(h, stored_hash),
        None => true,
    };
    if !force && changed {
        return Err(lit_string("conflict: remote post changed since last pull (use --force to overwrite)"));
    }
    Ok(push_step(path, FileStatus::Modified, content, tracked_id))
}

/// What `slab push` does for one selected file.
pub enum PushAction {
    /// A dry run: print this line and send nothing.
    Print(String),
    /// Send this step to Slab.
    Send(PushStep),
    /// Stop the push with this error (a remote that changed).
    Refuse(String),
}

/// Model of a push action.
pub enum PushActionView {
    Print(Seq<char>),
    Send(PushStepView),
    Refuse(Seq<char>),
}

pub open spec fn action_view(a: PushAction) -> PushActionView {
    match a {
        PushAction::Print(l) => PushActionView::Print(l@),
        PushAction::Send(s) => PushActionView::Send(step_view(s)),
        PushAction::Refuse(e) => PushActionView::Refuse(e@),
    }
}

/// What `slab push` does for a file of status `status`: a dry run prints
/// the step it would take and sends nothing, whatever the remote holds;
/// otherwise a modified file is refused when the remote changed (without
/// `force`), and each other step is sent.
pub open spec fn push_action_spec(
    path: Seq<char>,
    status: FileStatus,
    content: Seq<char>,
    tracked_id: Seq<char>,
    stored_hash: Seq<char>,
    remote_hash: Option<Seq<char>>,
    force: bool,
    dry_run: bool,
) -> PushActionView {
    if dry_run {
        PushActionView::Print(
            dry_run_line_spec(path, push_step_spec(path, status, content, tracked_id)),
        )
    } else if status == FileStatus::Modified {
        match modified_push_spec(path, content, tracked_id, stored_hash, remote_hash, force) {
            Ok(st) => PushActionView::Send(st),
            Err(e) => PushActionView::Refuse(e),
        }
    } else {
        PushActionView::Send(push_step_spec(path, status, content, tracked_id))
    }
}

/// The action `slab push` takes for one file; `tracked_id` and
/// `stored_hash` are those of a modified file's state, and `remote_hash`
/// the hash of the remote post fetched now (`None` when not fetched).
pub fn push_action(
    path: &str,
    status: FileStatus,
    content: &str,
    tracked_id: &str,
    stored_hash: &str,
    remote_hash: Option<&str>,
    force: bool,
    dry_run: bool,
) -> (r: PushAction)
    ensures
        action_view(r) == push_action_spec(
            path@,
            status,
            content@,
            tracked_id@,
            stored_hash@,
            match remote_hash {
                Some(h) => Some(h@),
                None => None,
            },
            force,
            dry_run,
        ),
{
    if dry_run {
        let step = push_step(path, status, content, tracked_id);
        return PushAction::Print(dry_run_line(path, &step));
    }
    if status == FileStatus::Modified {
        match modified_push_step(path, content, tracked_id, stored_hash, remote_hash, force) {
            Ok(st) => PushAction::Send(st),
            Err(e) => PushAction::Refuse(e),
        }
    } else {
        PushAction::Send(push_step(path, status, content, tracked_id))
    }
}

/// A dry run sends nothing and is refused nothing, whatever the remote
/// holds: it prints the line of the step the file would take, for a
/// modified file `would push: <path> -> <id>`.
pub proof fn lemma_dry_run_prints(
    path: Seq<char>,
    status: FileStatus,
    content: Seq<char>,
    tracked_id: Seq<char>,
    stored_hash: Seq<char>,
    remote_hash: Option<Seq<char>>,
    force: bool,
)
    ensures
        push_action_spec(path, status, content, tracked_id, stored_hash, remote_hash, force, true)
            == PushActionView::Print(
            dry_run_line_spec(path, push_step_spec(path, status, content, tracked_id)),
        ),
        status == FileStatus::Modified ==> push_action_spec(
            path,
            status,
            content,
            tracked_id,
            stored_hash,
            remote_hash,
            force,
            true,
        ) == PushActionView::Print("would push: "@ + path + " -> "@ + tracked_id + "\n"@),
{
}

/// A post unchanged since it was pulled does not hold a push back: the
/// hash stored when its file was written is the hash of its file now.
pub proof fn lemma_unchanged_remote_pushes(
    post: Post,
    path: Seq<char>,
    content: Seq<char>,
    tracked_id: Seq<char>,
    force: bool,
)
    ensures
        modified_push_spec(
            path,
            content,
            tracked_id,
            content_hash(post_file_text(post)),
            Some(content_hash(post_file_text(post))),
            force,
        ) == Ok::<PushStepView, Seq<char>>(push_step_spec(path, FileStatus::Modified, content, tracked_id)),
{
}

/// The line `slab push --dry-run` prints for a step.
pub open spec fn dry_run_line_spec(path: Seq<char>, s: PushStepView) -> Seq<char> {
    match s {
        PushStepView::Update(id, _) => "would push: "@ + path + " -> "@ + id + "\n"@,
        PushStepView::Create(title, _) => "would create: "@ + path + " as \""@ + title + "\"\n"@,
        PushStepView::Skip => Seq::empty(),
    }
}

pub fn dry_run_line(path: &str, s: &PushStep) -> (r: String)
    ensures
        r@ == dry_run_line_spec(path@, step_view(*s)),
{
    let mut o: Vec<char> = Vec::new();
    match s {
        PushStep::Update { id, .. } => {
            push_lit(&mut o, "would push: ");
            push_lit(&mut o, path);
            push_lit(&mut o, " -> ");
            push_str(&mut o, id);
            push_lit(&mut o, "\n");
        },
        PushStep::Create { title, .. } => {
            push_lit(&mut o, "would create: ");
            push_lit(&mut o, path);
            push_lit(&mut o, " as \"");
            push_str(&mut o, title);
            push_lit(&mut o, "\"\n");
        },
        PushStep::Skip => {},
    }
    string_of(o.as_slice())
}

/// The line printed once a step is done; `post_id` is the post Slab
/// answered with.
pub open spec fn done_line_spec(path: Seq<char>, s: PushStepView, post_id: Seq<char>) -> Seq<char> {
    match s {
        PushStepView::Update(_, _) => "pushed: "@ + path + " -> "@ + post_id + "\n"@,
        PushStepView::Create(_, _) => "created: "@ + path + " -> "@ + post_id + "\n"@,
        PushStepView::Skip => Seq::empty(),
    }
}

pub fn done_line(path: &str, s: &PushStep, post_id: &str) -> (r: String)
    ensures
        r@ == done_line_spec(path@, step_view(*s), post_id@),
{
    let mut o: Vec<char> = Vec::new();
    match s {
        PushStep::Update { .. } => {
            push_lit(&mut o, "pushed: ");
            push_lit(&mut o, path);
            push_lit(&mut o, " -> ");
            push_lit(&mut o, post_id);
            push_lit(&mut o, "\n");
        },
        PushStep::Create { .. } => {
            push_lit(&mut o, "created: ");
            push_lit(&mut o, path);
            push_lit(&mut o, " -> ");
            push_lit(&mut o, post_id);
            push_lit(&mut o, "\n");
        },
        PushStep::Skip => {},
    }
    string_of(o.as_slice())
}

// ---------------------------------------------------------------------
// Diffs
#[verifier::external_type_specification]
#[verifier::external_body]
pub struct ExChangeTag(similar::ChangeTag);

/// What a line of a diff does.
#[derive(Debug, Clone, Copy, PartialEq, Eq, Structural)]
pub enum DiffTag {
    Equal,
    Delete,
    Insert,
}

/// The line changes that `similar::TextDiff::from_lines(old, new)` finds,
/// each with its text as `Change`'s `Display` writes it (a line that lacks
/// its newline gets one).
pub uninterp spec fn line_changes(old: Seq<char>, new: Seq<char>) -> Seq<(DiffTag, Seq<char>)>;

pub open spec fn changes_view(v: Seq<(DiffTag, String)>) -> Seq<(DiffTag, Seq<char>)> {
    v.map_values(|c: (DiffTag, String)| (c.0, c.1@))
}

/// `similar::TextDiff::from_lines(old, new).iter_all_changes()`, each
/// change as its tag and text. The contract names the changes, a function
/// of the two texts alone.
#[verifier::external_body]
fn diff_lines(old: &str, new: &str) -> (r: Vec<(DiffTag, String)>)
    ensures
        changes_view(r@) == line_changes(old@, new@),
{
    let diff = similar::TextDiff::from_lines(old, new);
    diff.iter_all_changes().map(|c| {
        let tag = match c.tag() {
            similar::ChangeTag::Equal => DiffTag::Equal,
            similar::ChangeTag::Delete => DiffTag::Delete,
            similar::ChangeTag::Insert => DiffTag::Insert,
        };
        (tag, c.to_string())
    }).collect()
}

/// The sign a change is shown with (none for an unchanged line).
pub open spec fn change_sign(t: DiffTag) -> Seq<char> {
    match t {
        DiffTag::Delete => "-"@,
        DiffTag::Insert => "+"@,
        DiffTag::Equal => Seq::empty(),
    }
}

pub open spec fn change_lines(cs: Seq<(DiffTag, Seq<char>)>) -> Seq<char>
    decreases cs.len(),
{
    if cs.len() == 0 {
        Seq::empty()
    } else {
        change_lines(cs.drop_last()) + change_sign(cs.last().0) + cs.last().1
    }
}

/// What `slab diff` prints for a file, given its line changes.
pub open spec fn diff_text_spec(path: Seq<char>, cs: Seq<(DiffTag, Seq<char>)>) -> Seq<char> {
    "--- a/"@ + path + "\n+++ b/"@ + path + "\n"@ + change_lines(cs) + "\n"@
}

/// The text of a file's diff from its line changes.
pub fn render_diff(path: &str, changes: &Vec<(DiffTag, String)>) -> (r: String)
    ensures
        r@ == diff_text_spec(path@, changes_view(changes@)),
{
    let ghost cv = changes_view(changes@);
    let mut o: Vec<char> = Vec::new();
    push_lit(&mut o, "--- a/");
    push_lit(&mut o, path);
    push_lit(&mut o, "\n+++ b/");
    push_lit(&mut o, path);
    push_lit(&mut o, "\n");
    let ghost head = o@;
    let mut i: usize = 0;
    assert(cv.take(0) =~= Seq::<(DiffTag, Seq<char>)>::empty());
    while i < changes.len()
        invariant
            i <= changes@.len(),
            cv == changes_view(changes@),
            o@ == head + change_lines(cv.take(i as int)),
        decreases changes.len() - i,
    {
        assert(cv.take(i + 1).drop_last() =~= cv.take(i as int));
        assert(cv[i as int] == (changes@[i as int].0, changes@[i as int].1@));
        match changes[i].0 {
            DiffTag::Delete => push_lit(&mut o, "-"),
            DiffTag::Insert => push_lit(&mut o, "+"),
            DiffTag::Equal => {},
        }
        push_str(&mut o, &changes[i].1);
        i = i + 1;
        assert(o@ =~= head + change_lines(cv.take(i as int)));
    }
    assert(cv.take(changes@.len() as int) =~= cv);
    push_lit(&mut o, "\n");
    string_of(o.as_slice())
}

/// `slab diff` of a file: the local changes, as the line diff of the body
/// at the last pull (`pulled`, the file's text as last pulled, frontmatter
/// left out) against the current body (`content`, frontmatter left out).
pub fn file_diff(path: &str, pulled: &str, content: &str) -> (r: String)
    ensures
        r@ == diff_text_spec(path@, line_changes(strip_spec(pulled@), strip_spec(content@))),
{
    let old_body = strip_frontmatter(pulled);
    let body = strip_frontmatter(content);
    let changes = diff_lines(old_body.as_str(), body.as_str());
    render_diff(path, &changes)
}

// ---------------------------------------------------------------------
// Pulling
/// What `slab pull` pulls.
pub enum PullMode {
    /// One post.
    Post(String),
    /// The posts of a topic and its subtopics.
    Topic(String),
    /// Every post, page by page.
    All,
}

/// `slab pull`: the post when one is named, else the topic when one is
/// named, else everything.
pub fn pull_mode(topic: Option<&str>, post_id: Option<&str>) -> (r: PullMode)
    ensures
        match post_id {
            Some(p) => r matches PullMode::Post(x) && x@ == p@,
            None => match topic {
                Some(t) => r matches PullMode::Topic(x) && x@ == t@,
                None => r matches PullMode::All,
            },
        },
{
    match post_id {
        Some(p) => PullMode::Post(lit_string(p)),
        None => match topic {
            Some(t) => PullMode::Topic(lit_string(t)),
            None => PullMode::All,
        },
    }
}

/// Where `slab pull --all` goes after a page of `page_len` posts: on to
/// the next page when the page had posts and the reply names a next page;
/// `None` ends the pull.
pub fn next_pull_cursor(page_len: usize, next: Option<String>) -> (r: Option<String>)
    ensures
        r == (if page_len == 0 {
            None
        } else {
            next
        }),
{
    if page_len == 0 {
        None
    } else {
        next
    }
}

} // verus!
