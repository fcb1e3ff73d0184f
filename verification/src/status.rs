//! The sync status of the vault's files, in path order.
use vstd::prelude::*;

use crate::store::PostState;
use crate::vault::{
    entry_key, inbox_entry_path, inbox_path_spec, insert_pos, lemma_insert_pos, sort_by_path,
    sort_spec, sorted_by_key, str_lt, tracked_status, tracked_status_spec, FileStatus,
    content_hash, post_file_text, post_rel_path,
};
use crate::types::Post;

verus! {

/// The paths (as text) and statuses of status entries.
pub open spec fn entries_of(s: Seq<(String, FileStatus)>) -> Seq<(Seq<char>, FileStatus)> {
    s.map_values(|e: (String, FileStatus)| (e.0@, e.1))
}

/// `insert_pos` on the paths as text.
pub open spec fn view_pos(s: Seq<(Seq<char>, FileStatus)>, k: Seq<char>) -> int
    decreases s.len(),
{
    if s.len() == 0 {
        0
    } else if str_lt(k, s[0].0) {
        0
    } else {
        1 + view_pos(s.drop_first(), k)
    }
}

/// `sort_spec` on the paths as text: stable sort by path.
pub open spec fn sort_view(s: Seq<(Seq<char>, FileStatus)>) -> Seq<(Seq<char>, FileStatus)>
    decreases s.len(),
{
    if s.len() == 0 {
        s
    } else {
        let r = sort_view(s.drop_last());
        r.insert(view_pos(r, s.last().0), s.last())
    }
}

proof fn lemma_view_pos(s: Seq<(String, FileStatus)>, k: Seq<char>)
    ensures
        insert_pos(s, k) == view_pos(entries_of(s), k),
    decreases s.len(),
{
    if s.len() > 0 {
        assert(entries_of(s.drop_first()) =~= entries_of(s).drop_first());
        lemma_view_pos(s.drop_first(), k);
    }
}

/// The status sort orders the entries as `sort_view` orders their views.
pub proof fn lemma_sort_view(s: Seq<(String, FileStatus)>)
    ensures
        entries_of(sort_spec(s)) == sort_view(entries_of(s)),
    decreases s.len(),
{
    if s.len() > 0 {
        lemma_sort_view(s.drop_last());
        let r = sort_spec(s.drop_last());
        let k = entry_key(s.last());
        lemma_view_pos(r, k);
        lemma_insert_pos(r, k);
        assert(entries_of(s).drop_last() =~= entries_of(s.drop_last()));
        assert(entries_of(r.insert(insert_pos(r, k), s.last())) =~= entries_of(r).insert(
            insert_pos(r, k),
            (s.last().0@, s.last().1),
        ));
    }
}

/// The status of the tracked files: each state's path with the status of
/// the file's current content (`None` when the file is gone).
pub open spec fn tracked_entries(states: Seq<PostState>, current: Seq<Option<String>>) -> Seq<
    (Seq<char>, FileStatus),
>
    decreases states.len(),
{
    if states.len() == 0 {
        Seq::empty()
    } else {
        let i = states.len() - 1;
        tracked_entries(states.drop_last(), current).push(
            (
                states[i].path@,
                tracked_status_spec(
                    states[i].local_content_hash@,
                    match current[i] {
                        Some(c) => Some(c@),
                        None => None,
                    },
                ),
            ),
        )
    }
}

/// Some state is recorded for the path `p`.
pub open spec fn is_tracked(states: Seq<PostState>, p: Seq<char>) -> bool {
    exists|i: int| 0 <= i < states.len() && (#[trigger] states[i]).path@ == p
}

/// The Markdown files of `Inbox/` (by entry name, in the order listed)
/// that no state is recorded for: added files.
pub open spec fn added_entries(states: Seq<PostState>, names: Seq<String>) -> Seq<
    (Seq<char>, FileStatus),
>
    decreases names.len(),
{
    if names.len() == 0 {
        Seq::empty()
    } else {
        let rest = added_entries(states, names.drop_last());
        match inbox_path_spec(names.last()@) {
            Some(p) => if is_tracked(states, p) {
                rest
            } else {
                rest.push((p, FileStatus::Added))
            },
            None => rest,
        }
    }
}

/// The status of a vault: the tracked files and the added Inbox files, by path.
pub open spec fn vault_status_spec(
    states: Seq<PostState>,
    current: Seq<Option<String>>,
    inbox: Seq<String>,
) -> Seq<(Seq<char>, FileStatus)> {
    sort_view(tracked_entries(states, current) + added_entries(states, inbox))
}

fn path_is_tracked(states: &Vec<PostState>, p: &String) -> (b: bool)
    ensures
        b == is_tracked(states@, p@),
{
    let mut i: usize = 0;
    while i < states.len()
        invariant
            i <= states@.len(),
            forall|j: int| 0 <= j < i ==> (#[trigger] states@[j]).path@ != p@,
        decreases states.len() - i,
    {
        if crate::text::str_is(states[i].path.as_str(), p.as_str()) {
            return true;
        }
        i = i + 1;
    }
    false
}

/// The status of the vault from what was read: the tracked states, the current
/// content of each one's file (`None` when it does not exist), and the
/// names of the entries of `Inbox/`.
pub fn vault_status(states: &Vec<PostState>, current: &Vec<Option<String>>, inbox: &Vec<String>) -> (r:
    Vec<(String, FileStatus)>)
    requires
        current@.len() == states@.len(),
    ensures
        entries_of(r@) == vault_status_spec(states@, current@, inbox@),
        sorted_by_key(r@),
{
    let mut all: Vec<(String, FileStatus)> = Vec::new();
    let mut i: usize = 0;
    while i < states.len()
        invariant
            i <= states@.len(),
            current@.len() == states@.len(),
            entries_of(all@) == tracked_entries(states@.take(i as int), current@),
        decreases states.len() - i,
    {
        let st = tracked_status(&states[i], match &current[i] {
            Some(c) => Some(c.as_str()),
            None => None,
        });
        let ghost prev = all@;
        all.push((states[i].path.clone(), st));
        assert(states@.take(i + 1).drop_last() =~= states@.take(i as int));
        assert(entries_of(all@) =~= entries_of(prev).push((states@[i as int].path@, st)));
        i = i + 1;
    }
    assert(states@.take(states@.len() as int) =~= states@);
    let ghost tracked_part = entries_of(all@);
    let mut j: usize = 0;
    assert(inbox@.take(0) =~= Seq::<String>::empty());
    while j < inbox.len()
        invariant
            j <= inbox@.len(),
            entries_of(all@) == tracked_part + added_entries(states@, inbox@.take(j as int)),
        decreases inbox.len() - j,
    {
        assert(inbox@.take(j + 1).drop_last() =~= inbox@.take(j as int));
        let ghost prev = all@;
        match inbox_entry_path(inbox[j].as_str()) {
            Some(p) => {
                if !path_is_tracked(states, &p) {
                    let ghost pv = p@;
                    all.push((p, FileStatus::Added));
                    assert(entries_of(all@) =~= entries_of(prev).push((pv, FileStatus::Added)));
                }
            },
            None => {},
        }
        j = j + 1;
    }
    assert(inbox@.take(inbox@.len() as int) =~= inbox@);
    let r = sort_by_path(&all);
    proof {
        lemma_sort_view(all@);
    }
    r
}

/// Paths in non-decreasing order.
pub open spec fn view_sorted(s: Seq<(Seq<char>, FileStatus)>) -> bool {
    forall|i: int, j: int| 0 <= i < j < s.len() ==> !str_lt(s[j].0, s[i].0)
}

proof fn lemma_view_pos_props(s: Seq<(Seq<char>, FileStatus)>, k: Seq<char>)
    ensures
        0 <= view_pos(s, k) <= s.len(),
        forall|i: int| 0 <= i < view_pos(s, k) ==> !str_lt(k, #[trigger] s[i].0),
        view_pos(s, k) < s.len() ==> str_lt(k, s[view_pos(s, k)].0),
    decreases s.len(),
{
    if s.len() > 0 && !str_lt(k, s[0].0) {
        lemma_view_pos_props(s.drop_first(), k);
        assert forall|i: int| 0 <= i < view_pos(s, k) implies !str_lt(k, #[trigger] s[i].0) by {
            if i > 0 {
                assert(s[i] == s.drop_first()[i - 1]);
            }
        }
    }
}

proof fn lemma_view_insert_sorted(s: Seq<(Seq<char>, FileStatus)>, e: (Seq<char>, FileStatus))
    requires
        view_sorted(s),
    ensures
        view_sorted(s.insert(view_pos(s, e.0), e)),
{
    let k = e.0;
    let p = view_pos(s, k);
    lemma_view_pos_props(s, k);
    let r = s.insert(p, e);
    assert forall|i: int, j: int| 0 <= i < j < r.len() implies !str_lt(r[j].0, r[i].0) by {
        if j < p {
            assert(r[i] == s[i] && r[j] == s[j]);
        } else if j == p {
            assert(r[j] == e && r[i] == s[i]);
        } else if i > p {
            assert(r[i] == s[i - 1] && r[j] == s[j - 1]);
        } else if i == p {
            assert(r[i] == e && r[j] == s[j - 1]);
            if str_lt(s[j - 1].0, k) {
                if j - 1 == p {
                    crate::vault::lemma_str_lt_trans(s[p].0, k, s[p].0);
                    crate::vault::lemma_str_lt_irrefl(s[p].0);
                } else {
                    assert(!str_lt(s[j - 1].0, s[p].0));
                    crate::vault::lemma_str_lt_trans(s[j - 1].0, k, s[p].0);
                }
            }
        } else {
            assert(r[i] == s[i] && r[j] == s[j - 1]);
        }
    }
}

/// The status sort orders entries by path.
pub proof fn lemma_sort_view_sorted(s: Seq<(Seq<char>, FileStatus)>)
    ensures
        view_sorted(sort_view(s)),
    decreases s.len(),
{
    if s.len() > 0 {
        lemma_sort_view_sorted(s.drop_last());
        lemma_view_insert_sorted(sort_view(s.drop_last()), s.last());
    }
}

/// The status sort neither loses nor adds entries.
pub proof fn lemma_sort_view_permutes(s: Seq<(Seq<char>, FileStatus)>)
    ensures
        sort_view(s).to_multiset() == s.to_multiset(),
    decreases s.len(),
{
    broadcast use vstd::seq_lib::group_to_multiset_ensures;
    if s.len() > 0 {
        lemma_sort_view_permutes(s.drop_last());
        let r = sort_view(s.drop_last());
        let p = view_pos(r, s.last().0);
        lemma_view_pos_props(r, s.last().0);
        assert(r =~= r.take(p) + r.skip(p));
        assert(r.insert(p, s.last()) =~= r.take(p) + seq![s.last()] + r.skip(p));
        vstd::seq_lib::lemma_multiset_commutative(r.take(p), seq![s.last()] + r.skip(p));
        vstd::seq_lib::lemma_multiset_commutative(seq![s.last()], r.skip(p));
        vstd::seq_lib::lemma_multiset_commutative(r.take(p) + seq![s.last()], r.skip(p));
        vstd::seq_lib::lemma_multiset_commutative(r.take(p), seq![s.last()]);
        vstd::seq_lib::lemma_multiset_commutative(r.take(p), r.skip(p));
        assert(s =~= s.drop_last().push(s.last()));
    }
}

/// `slab status` reports each tracked file and each untracked Inbox
/// Markdown file once, in path order.
pub proof fn lemma_status_reports_each_file(
    states: Seq<PostState>,
    current: Seq<Option<String>>,
    inbox: Seq<String>,
)
    ensures
        vault_status_spec(states, current, inbox).to_multiset() == (tracked_entries(states, current)
            + added_entries(states, inbox)).to_multiset(),
        view_sorted(vault_status_spec(states, current, inbox)),
{
    lemma_sort_view_permutes(tracked_entries(states, current) + added_entries(states, inbox));
    lemma_sort_view_sorted(tracked_entries(states, current) + added_entries(states, inbox));
}

proof fn lemma_tracked_entry(states: Seq<PostState>, current: Seq<Option<String>>, i: int)
    requires
        0 <= i < states.len(),
    ensures
        tracked_entries(states, current).len() == states.len(),
        tracked_entries(states, current)[i] == (
            states[i].path@,
            tracked_status_spec(
                states[i].local_content_hash@,
                match current[i] {
                    Some(c) => Some(c@),
                    None => None,
                },
            ),
        ),
    decreases states.len(),
{
    let prev = tracked_entries(states.drop_last(), current);
    if states.len() > 1 {
        if i < states.len() - 1 {
            lemma_tracked_entry(states.drop_last(), current, i);
            assert(states.drop_last()[i] == states[i]);
        } else {
            lemma_tracked_entry(states.drop_last(), current, 0);
        }
    } else {
        assert(states.drop_last().len() == 0);
        assert(prev.len() == 0);
    }
    assert(prev.len() == states.len() - 1);
    assert(tracked_entries(states, current) == prev.push(
        (
            states[states.len() - 1].path@,
            tracked_status_spec(
                states[states.len() - 1].local_content_hash@,
                match current[states.len() - 1] {
                    Some(c) => Some(c@),
                    None => None,
                },
            ),
        ),
    ));
}

/// A file just written for a post, and not touched since, is reported as
/// clean: when the state of the vault's `i`-th tracked file is that of
/// the post's file and the file holds the text written for the post,
/// `slab status` lists the file's path as clean.
pub proof fn lemma_written_file_reads_clean(
    states: Seq<PostState>,
    current: Seq<Option<String>>,
    inbox: Seq<String>,
    i: int,
    post: Post,
)
    requires
        0 <= i < states.len(),
        states[i].path@ == post_rel_path(post),
        states[i].local_content_hash@ == content_hash(post_file_text(post)),
        current[i] matches Some(c) && c@ == post_file_text(post),
    ensures
        vault_status_spec(states, current, inbox).contains((post_rel_path(post), FileStatus::Clean)),
{
    broadcast use vstd::seq_lib::group_to_multiset_ensures;
    lemma_tracked_entry(states, current, i);
    let all = tracked_entries(states, current) + added_entries(states, inbox);
    let e = (post_rel_path(post), FileStatus::Clean);
    assert(all[i] == e);
    assert(all.contains(e));
    lemma_sort_view_permutes(all);
    assert(all.to_multiset().count(e) > 0);
    assert(sort_view(all).to_multiset().count(e) > 0);
}

/// After a full pull, every pulled post's file is reported clean: when
/// the first tracked states are those written for the pulled posts (as
/// `post_file` gives them, with each post's id and version) and each file
/// still holds the text written for its post, `slab status` lists every
/// pulled post's path as clean.
pub proof fn lemma_pulled_posts_read_clean(
    states: Seq<PostState>,
    current: Seq<Option<String>>,
    inbox: Seq<String>,
    posts: Seq<Post>,
)
    requires
        posts.len() <= states.len(),
        forall|k: int|
            0 <= k < posts.len() ==> {
                &&& states[k].path@ == post_rel_path(#[trigger] posts[k])
                &&& states[k].local_content_hash@ == content_hash(post_file_text(posts[k]))
                &&& current[k] matches Some(c) && c@ == post_file_text(posts[k])
            },
    ensures
        forall|k: int|
            0 <= k < posts.len() ==> vault_status_spec(states, current, inbox).contains(
                (post_rel_path(#[trigger] posts[k]), FileStatus::Clean),
            ),
{
    assert forall|k: int| 0 <= k < posts.len() implies vault_status_spec(
        states,
        current,
        inbox,
    ).contains((post_rel_path(#[trigger] posts[k]), FileStatus::Clean)) by {
        lemma_written_file_reads_clean(states, current, inbox, k, posts[k]);
    }
}

proof fn lemma_added_entry(states: Seq<PostState>, names: Seq<String>, k: int)
    requires
        0 <= k < names.len(),
        crate::paths::extension_of_name(names[k]@) == Some("md"@),
        !is_tracked(states, crate::paths::path_join("Inbox"@, names[k]@)),
    ensures
        added_entries(states, names).contains(
            (crate::paths::path_join("Inbox"@, names[k]@), FileStatus::Added),
        ),
    decreases names.len(),
{
    let e = (crate::paths::path_join("Inbox"@, names[k]@), FileStatus::Added);
    let rest = added_entries(states, names.drop_last());
    if k == names.len() - 1 {
        assert(names.last() == names[k]);
        let r = rest.push(e);
        assert(r[r.len() - 1] == e);
    } else {
        assert(names.drop_last()[k] == names[k]);
        lemma_added_entry(states, names.drop_last(), k);
        let j = choose|j: int| 0 <= j < rest.len() && rest[j] == e;
        match inbox_path_spec(names.last()@) {
            Some(p) => if !is_tracked(states, p) {
                assert(rest.push((p, FileStatus::Added))[j] == e);
            },
            None => {},
        }
    }
}

/// How `slab status` classifies files: a tracked file that is gone is
/// deleted; one whose content hashes to the hash recorded when it was
/// written is clean; one whose content hashes otherwise is modified; a
/// Markdown file of `Inbox/` that is not tracked is added.
pub proof fn lemma_status_classification(
    states: Seq<PostState>,
    current: Seq<Option<String>>,
    inbox: Seq<String>,
    i: int,
    k: int,
)
    ensures
        0 <= i < states.len() && current[i] is None ==> vault_status_spec(
            states,
            current,
            inbox,
        ).contains((states[i].path@, FileStatus::Deleted)),
        0 <= i < states.len() && (current[i] matches Some(c) && content_hash(c@)
            == states[i].local_content_hash@) ==> vault_status_spec(states, current, inbox).contains(
            (states[i].path@, FileStatus::Clean),
        ),
        0 <= i < states.len() && (current[i] matches Some(c) && content_hash(c@)
            != states[i].local_content_hash@) ==> vault_status_spec(states, current, inbox).contains(
            (states[i].path@, FileStatus::Modified),
        ),
        0 <= k < inbox.len() && crate::paths::extension_of_name(inbox[k]@) == Some("md"@)
            && !is_tracked(states, crate::paths::path_join("Inbox"@, inbox[k]@))
            ==> vault_status_spec(states, current, inbox).contains(
            (crate::paths::path_join("Inbox"@, inbox[k]@), FileStatus::Added),
        ),
{
    broadcast use vstd::seq_lib::group_to_multiset_ensures;
    let t = tracked_entries(states, current);
    let a = added_entries(states, inbox);
    let all = t + a;
    lemma_sort_view_permutes(all);
    if 0 <= i < states.len() {
        lemma_tracked_entry(states, current, i);
        assert(all[i] == t[i]);
        assert(all.contains(t[i]));
        assert(all.to_multiset().count(t[i]) > 0);
        assert(sort_view(all).to_multiset().count(t[i]) > 0);
    }
    if 0 <= k < inbox.len() && crate::paths::extension_of_name(inbox[k]@) == Some("md"@)
        && !is_tracked(states, crate::paths::path_join("Inbox"@, inbox[k]@)) {
        let e = (crate::paths::path_join("Inbox"@, inbox[k]@), FileStatus::Added);
        lemma_added_entry(states, inbox, k);
        let j = choose|j: int| 0 <= j < a.len() && a[j] == e;
        assert(all[t.len() + j] == e);
        assert(all.contains(e));
        assert(all.to_multiset().count(e) > 0);
        assert(sort_view(all).to_multiset().count(e) > 0);
    }
}

} // verus!
