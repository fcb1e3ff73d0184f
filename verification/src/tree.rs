//! `slab tree`: the vault's directories and files drawn as a tree.
use vstd::prelude::*;

use crate::from_delta::push_lit;
use crate::paths::{path_join, path_join_str};
use crate::text::{chars_of, push_all, string_of};
use crate::vault::{chars_less, push_str, str_lt};

verus! {

/// Options of `slab tree`.
pub struct TreeOptions {
    /// Subdirectory of the vault to show (relative path).
    pub path: Option<String>,
    /// Show only directories.
    pub dirs: bool,
    /// Limit recursion depth (1 = direct children only).
    pub depth: Option<usize>,
}

/// A directory entry as read from the vault: its name, whether it is a
/// directory, and (for a directory the tree goes into) its entries.
pub struct TreeEntry {
    pub name: String,
    pub is_dir: bool,
    pub children: Vec<TreeEntry>,
}

/// Names starting with `.` are hidden.
pub open spec fn is_hidden(name: Seq<char>) -> bool {
    name.len() > 0 && name[0] == '.'
}

/// An entry the tree shows: not hidden, and a directory when only
/// directories are shown.
pub open spec fn shown(e: TreeEntry, dirs_only: bool) -> bool {
    !is_hidden(e.name@) && (!dirs_only || e.is_dir)
}

/// Indices (below `n`, increasing) of the shown entries that are
/// directories (`want_dir`) or files.
pub open spec fn group_idx(es: Seq<TreeEntry>, n: int, dirs_only: bool, want_dir: bool) -> Seq<int>
    decreases n,
{
    if n <= 0 {
        Seq::empty()
    } else if shown(es[n - 1], dirs_only) && es[n - 1].is_dir == want_dir {
        group_idx(es, n - 1, dirs_only, want_dir).push(n - 1)
    } else {
        group_idx(es, n - 1, dirs_only, want_dir)
    }
}

/// Where an entry named `k` goes among `idx`: after every entry whose name
/// is not greater.
pub open spec fn name_pos(es: Seq<TreeEntry>, idx: Seq<int>, k: Seq<char>) -> int
    decreases idx.len(),
{
    if idx.len() == 0 {
        0
    } else if str_lt(k, es[idx[0]].name@) {
        0
    } else {
        1 + name_pos(es, idx.drop_first(), k)
    }
}

/// The indices `idx` ordered by entry name, stably (insertion sort).
pub open spec fn name_sort(es: Seq<TreeEntry>, idx: Seq<int>) -> Seq<int>
    decreases idx.len(),
{
    if idx.len() == 0 {
        idx
    } else {
        let r = name_sort(es, idx.drop_last());
        r.insert(name_pos(es, r, es[idx.last()].name@), idx.last())
    }
}

/// The order the tree shows a directory's entries in: the shown entries,
/// directories first, each group by name.
pub open spec fn tree_order(es: Seq<TreeEntry>, dirs_only: bool) -> Seq<int> {
    name_sort(es, group_idx(es, es.len() as int, dirs_only, true)) + name_sort(
        es,
        group_idx(es, es.len() as int, dirs_only, false),
    )
}

/// The connector drawn before an entry's name.
pub open spec fn connector(is_root: bool, is_last: bool) -> Seq<char> {
    if is_root {
        Seq::empty()
    } else if is_last {
        "└── "@
    } else {
        "├── "@
    }
}

/// The prefix of the lines under a directory.
pub open spec fn child_prefix(prefix: Seq<char>, is_root: bool, is_last: bool) -> Seq<char> {
    if is_root {
        Seq::empty()
    } else if is_last {
        prefix + "    "@
    } else {
        prefix + "│   "@
    }
}

/// The depth left below a level: none when unlimited.
pub open spec fn below(remaining: Option<nat>) -> Option<nat> {
    match remaining {
        Some(r) => Some((r - 1) as nat),
        None => None,
    }
}

/// The lines of a directory's entries: nothing once the
/// depth is used up; else each shown entry in order, a directory with the
/// lines of its own entries under it.
pub open spec fn level_text(
    es: Seq<TreeEntry>,
    prefix: Seq<char>,
    is_root: bool,
    remaining: Option<nat>,
    dirs_only: bool,
) -> Seq<char>
    decreases es, 1nat, 0nat,
{
    if remaining == Some(0nat) {
        Seq::empty()
    } else {
        let ord = tree_order(es, dirs_only);
        items_text(es, ord, ord.len(), prefix, is_root, remaining, dirs_only)
    }
}

/// The lines of the first `j` entries of `ord`.
pub open spec fn items_text(
    es: Seq<TreeEntry>,
    ord: Seq<int>,
    j: nat,
    prefix: Seq<char>,
    is_root: bool,
    remaining: Option<nat>,
    dirs_only: bool,
) -> Seq<char>
    decreases es, 0nat, j,
{
    if j == 0 || j > ord.len() {
        Seq::empty()
    } else {
        items_text(es, ord, (j - 1) as nat, prefix, is_root, remaining, dirs_only) + item_text(
            es,
            ord[j - 1],
            j == ord.len(),
            prefix,
            is_root,
            remaining,
            dirs_only,
        )
    }
}

/// The lines of the entry `es[k]`: its own line, and under a directory the
/// lines of its entries.
pub open spec fn item_text(
    es: Seq<TreeEntry>,
    k: int,
    is_last: bool,
    prefix: Seq<char>,
    is_root: bool,
    remaining: Option<nat>,
    dirs_only: bool,
) -> Seq<char>
    decreases es, 0nat, 0nat,
{
    if 0 <= k < es.len() {
        let e = es[k];
        let line = prefix + connector(is_root, is_last) + e.name@;
        if e.is_dir {
            proof {
                assert(decreases_to!(es => es[k]));
                assert(decreases_to!(es[k] => es[k].children));
                assert(decreases_to!(es[k].children => es[k].children@));
            }
            line + "/\n"@ + level_text(
                e.children@,
                child_prefix(prefix, is_root, is_last),
                false,
                below(remaining),
                dirs_only,
            )
        } else {
            line + "\n"@
        }
    } else {
        Seq::empty()
    }
}

/// How an entry is drawn: at the top level its name alone; below it, after
/// the prefix of its level, `└── ` before the last entry of a directory and
/// `├── ` before the others. A file's line ends there; a directory's line
/// ends with `/`, and the lines of its entries follow with the prefix
/// extended by four spaces under a last entry and by `│   ` otherwise.
pub proof fn lemma_tree_item_lines(
    es: Seq<TreeEntry>,
    k: int,
    prefix: Seq<char>,
    remaining: Option<nat>,
    dirs_only: bool,
)
    requires
        0 <= k < es.len(),
    ensures
        !es[k].is_dir ==> item_text(es, k, true, prefix, false, remaining, dirs_only) == prefix
            + "└── "@ + es[k].name@ + "\n"@,
        !es[k].is_dir ==> item_text(es, k, false, prefix, false, remaining, dirs_only) == prefix
            + "├── "@ + es[k].name@ + "\n"@,
        !es[k].is_dir ==> item_text(es, k, false, prefix, true, remaining, dirs_only) == prefix
            + es[k].name@ + "\n"@,
        es[k].is_dir ==> item_text(es, k, true, prefix, false, remaining, dirs_only) == prefix
            + "└── "@ + es[k].name@ + "/\n"@ + level_text(
            es[k].children@,
            prefix + "    "@,
            false,
            below(remaining),
            dirs_only,
        ),
        es[k].is_dir ==> item_text(es, k, false, prefix, false, remaining, dirs_only) == prefix
            + "├── "@ + es[k].name@ + "/\n"@ + level_text(
            es[k].children@,
            prefix + "│   "@,
            false,
            below(remaining),
            dirs_only,
        ),
{
    assert(prefix + Seq::<char>::empty() =~= prefix);
}

pub open spec fn opt_nat(o: Option<usize>) -> Option<nat> {
    match o {
        Some(n) => Some(n as nat),
        None => None,
    }
}

/// The text of `slab tree` for the directory shown as `root` with entries
/// `entries`: its root line, then its entries.
pub open spec fn tree_text(root: Seq<char>, entries: Seq<TreeEntry>, dirs_only: bool, depth: Option<usize>) -> Seq<char> {
    root + "/\n"@ + level_text(entries, Seq::empty(), true, opt_nat(depth), dirs_only)
}

fn is_shown(e: &TreeEntry, dirs_only: bool) -> (b: bool)
    ensures
        b == shown(*e, dirs_only),
{
    let nc = chars_of(e.name.as_str());
    let hidden = nc.len() > 0 && nc[0] == '.';
    !hidden && (!dirs_only || e.is_dir)
}

proof fn lemma_name_pos_at(es: Seq<TreeEntry>, idx: Seq<int>, k: Seq<char>, j: int)
    requires
        0 <= j <= idx.len(),
        forall|i: int| 0 <= i < j ==> !str_lt(k, #[trigger] es[idx[i]].name@),
        j < idx.len() ==> str_lt(k, es[idx[j]].name@),
    ensures
        name_pos(es, idx, k) == j,
    decreases j,
{
    if j > 0 {
        assert forall|i: int| 0 <= i < j - 1 implies !str_lt(k, #[trigger] es[idx.drop_first()[i]].name@) by {
            assert(idx.drop_first()[i] == idx[i + 1]);
        }
        lemma_name_pos_at(es, idx.drop_first(), k, j - 1);
    }
}

/// The indices of the shown directories (or files) of `es`, by name.
fn sorted_group(es: &Vec<TreeEntry>, dirs_only: bool, want_dir: bool) -> (r: Vec<usize>)
    ensures
        r@.map_values(|k: usize| k as int) == name_sort(es@, group_idx(es@, es@.len() as int, dirs_only, want_dir)),
        forall|i: int| 0 <= i < r@.len() ==> (#[trigger] r@[i]) < es@.len(),
{
    let mut out: Vec<usize> = Vec::new();
    let mut i: usize = 0;
    while i < es.len()
        invariant
            i <= es@.len(),
            out@.map_values(|k: usize| k as int) == name_sort(es@, group_idx(es@, i as int, dirs_only, want_dir)),
            forall|t: int| 0 <= t < out@.len() ==> (#[trigger] out@[t]) < i,
        decreases es.len() - i,
    {
        if is_shown(&es[i], dirs_only) && es[i].is_dir == want_dir {
            let ghost gi = group_idx(es@, i as int, dirs_only, want_dir);
            assert(group_idx(es@, i + 1, dirs_only, want_dir) == gi.push(i as int));
            assert(gi.push(i as int).drop_last() =~= gi);
            let ghost so = out@.map_values(|k: usize| k as int);
            let key = chars_of(es[i].name.as_str());
            let mut j: usize = 0;
            while j < out.len() && !chars_less(key.as_slice(), chars_of(es[out[j]].name.as_str()).as_slice())
                invariant
                    j <= out@.len(),
                    so == out@.map_values(|k: usize| k as int),
                    forall|t: int| 0 <= t < out@.len() ==> (#[trigger] out@[t]) < i,
                    i < es@.len(),
                    key@ == es@[i as int].name@,
                    forall|t: int| 0 <= t < j ==> !str_lt(key@, #[trigger] es@[so[t]].name@),
                decreases out.len() - j,
            {
                assert(so[j as int] == out@[j as int] as int);
                j = j + 1;
            }
            proof {
                if j < out@.len() {
                    assert(so[j as int] == out@[j as int] as int);
                }
                lemma_name_pos_at(es@, so, key@, j as int);
            }
            out.insert(j, i);
            assert(out@.map_values(|k: usize| k as int) =~= so.insert(j as int, i as int));
        } else {
            assert(group_idx(es@, i + 1, dirs_only, want_dir) == group_idx(es@, i as int, dirs_only, want_dir));
        }
        i = i + 1;
    }
    out
}

/// Appends the lines of a directory's entries.
fn render_level(
    es: &Vec<TreeEntry>,
    prefix: &Vec<char>,
    is_root: bool,
    remaining: Option<usize>,
    dirs_only: bool,
    out: &mut Vec<char>,
)
    ensures
        final(out)@ == old(out)@ + level_text(es@, prefix@, is_root, opt_nat(remaining), dirs_only),
    decreases es, 1nat,
{
    if remaining == Some(0usize) {
        return;
    }
    let dirs = sorted_group(es, dirs_only, true);
    let files = sorted_group(es, dirs_only, false);
    let mut ord = dirs;
    let mut more = files;
    let ghost od = ord@.map_values(|k: usize| k as int);
    let ghost of = more@.map_values(|k: usize| k as int);
    ord.append(&mut more);
    let ghost ordv = tree_order(es@, dirs_only);
    assert(ord@.map_values(|k: usize| k as int) =~= ordv) by {
        assert(ordv == od + of);
    }
    assert(forall|t: int| 0 <= t < ord@.len() ==> (#[trigger] ord@[t]) < es@.len()) by {
        assert forall|t: int| 0 <= t < ord@.len() implies (#[trigger] ord@[t]) < es@.len() by {
            if t < od.len() {
                assert(ord@[t] == dirs@[t]);
            } else {
                assert(ord@[t] == files@[t - od.len()]);
            }
        }
    }
    let ghost base = out@;
    let ghost rem = opt_nat(remaining);
    let n = ord.len();
    let mut j: usize = 0;
    while j < n
        invariant
            j <= n,
            n == ord@.len(),
            ordv == ord@.map_values(|k: usize| k as int),
            forall|t: int| 0 <= t < ord@.len() ==> (#[trigger] ord@[t]) < es@.len(),
            remaining != Some(0usize),
            rem == opt_nat(remaining),
            out@ == base + items_text(es@, ordv, j as nat, prefix@, is_root, rem, dirs_only),
        decreases n - j,
    {
        let k = ord[j];
        assert(ordv[j as int] == k as int);
        render_item(es, k, j + 1 == n, prefix, is_root, remaining, dirs_only, out);
        j = j + 1;
        assert(items_text(es@, ordv, j as nat, prefix@, is_root, rem, dirs_only) == items_text(
            es@,
            ordv,
            (j - 1) as nat,
            prefix@,
            is_root,
            rem,
            dirs_only,
        ) + item_text(es@, k as int, j == ordv.len(), prefix@, is_root, rem, dirs_only));
        assert(out@ =~= base + items_text(es@, ordv, j as nat, prefix@, is_root, rem, dirs_only));
    }
}

/// Appends the lines of the entry `es[k]`.
fn render_item(
    es: &Vec<TreeEntry>,
    k: usize,
    is_last: bool,
    prefix: &Vec<char>,
    is_root: bool,
    remaining: Option<usize>,
    dirs_only: bool,
    out: &mut Vec<char>,
)
    requires
        k < es@.len(),
        remaining != Some(0usize),
    ensures
        final(out)@ == old(out)@ + item_text(es@, k as int, is_last, prefix@, is_root, opt_nat(remaining), dirs_only),
    decreases es, 0nat,
{
    let ghost base = out@;
    let e = &es[k];
    push_all(out, prefix.as_slice());
    if is_root {
    } else if is_last {
        push_lit(out, "└── ");
    } else {
        push_lit(out, "├── ");
    }
    push_str(out, &e.name);
    let ghost line = out@;
    assert(line == base + prefix@ + connector(is_root, is_last) + e.name@);
    if e.is_dir {
        push_lit(out, "/\n");
        let mut cp: Vec<char> = Vec::new();
        if !is_root {
            push_all(&mut cp, prefix.as_slice());
            if is_last {
                push_lit(&mut cp, "    ");
            } else {
                push_lit(&mut cp, "│   ");
            }
        }
        assert(cp@ == child_prefix(prefix@, is_root, is_last));
        let child_rem: Option<usize> = match remaining {
            Some(r) => Some(r - 1),
            None => None,
        };
        assert(opt_nat(child_rem) == below(opt_nat(remaining)));
        assert(decreases_to!(es => es@));
        assert(decreases_to!(es@ => es@[k as int]));
        assert(decreases_to!(es@[k as int] => es@[k as int].children));
        render_level(&e.children, &cp, false, child_rem, dirs_only, out);
    } else {
        push_lit(out, "\n");
    }
    assert(out@ =~= base + item_text(es@, k as int, is_last, prefix@, is_root, opt_nat(remaining), dirs_only));
}

/// `slab tree`: the root's display path and `/`, then the tree of its
/// entries.
pub fn render_tree(root: &str, entries: &Vec<TreeEntry>, opts: &TreeOptions) -> (r: String)
    ensures
        r@ == tree_text(root@, entries@, opts.dirs, opts.depth),
{
    let mut out = chars_of(root);
    push_lit(&mut out, "/\n");
    let prefix: Vec<char> = Vec::new();
    render_level(entries, &prefix, true, opts.depth, opts.dirs, &mut out);
    string_of(out.as_slice())
}

/// Whether the tree reads a directory's entries at the depth left
/// A level is read unless the depth left (`remaining`) is used up.
pub fn reads_level(remaining: Option<usize>) -> (b: bool)
    ensures
        b == (opt_nat(remaining) != Some(0nat)),
{
    remaining != Some(0usize)
}

/// Whether the tree needs the entries of an entry met at the depth left
/// `remaining` (counting the entry's own level): a shown directory whose
/// entries are still within the depth.
pub fn needs_children(e: &TreeEntry, dirs_only: bool, remaining: Option<usize>) -> (b: bool)
    ensures
        b == (shown(*e, dirs_only) && e.is_dir && (remaining matches Some(r) ==> r >= 2)),
{
    is_shown(e, dirs_only) && e.is_dir && match remaining {
        Some(r) => r != 1 && r != 0,
        None => true,
    }
}

/// The directory `slab tree` shows: the vault, or the given subdirectory
/// of it.
pub fn tree_root(vault_path: &str, opts: &TreeOptions) -> (r: String)
    ensures
        r@ == (match opts.path {
            Some(p) => path_join(vault_path@, p@),
            None => vault_path@,
        }),
{
    match &opts.path {
        Some(p) => path_join_str(vault_path, p.as_str()),
        None => string_of(chars_of(vault_path).as_slice()),
    }
}

} // verus!
