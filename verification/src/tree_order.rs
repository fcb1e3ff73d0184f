//! The order in which `slab tree` shows a directory's entries.
use vstd::prelude::*;

use crate::tree::{group_idx, name_pos, name_sort, shown, tree_order, TreeEntry};
use crate::vault::str_lt;

verus! {

proof fn lemma_group_idx(es: Seq<TreeEntry>, n: int, dirs_only: bool, want_dir: bool)
    requires
        n <= es.len(),
    ensures
        forall|i: int| 0 <= i < group_idx(es, n, dirs_only, want_dir).len() ==> {
            let k = #[trigger] group_idx(es, n, dirs_only, want_dir)[i];
            &&& 0 <= k < es.len()
            &&& shown(es[k], dirs_only)
            &&& es[k].is_dir == want_dir
        },
    decreases n,
{
    if n > 0 {
        lemma_group_idx(es, n - 1, dirs_only, want_dir);
        let g = group_idx(es, n - 1, dirs_only, want_dir);
        if shown(es[n - 1], dirs_only) && es[n - 1].is_dir == want_dir {
            assert forall|i: int| 0 <= i < g.len() + 1 implies #[trigger] g.push(n - 1)[i] == (if i
                < g.len() {
                g[i]
            } else {
                n - 1
            }) by {}
        }
    }
}

proof fn lemma_name_pos_props(es: Seq<TreeEntry>, idx: Seq<int>, k: Seq<char>)
    ensures
        0 <= name_pos(es, idx, k) <= idx.len(),
        forall|i: int| 0 <= i < name_pos(es, idx, k) ==> !str_lt(k, #[trigger] es[idx[i]].name@),
        name_pos(es, idx, k) < idx.len() ==> str_lt(k, es[idx[name_pos(es, idx, k)]].name@),
    decreases idx.len(),
{
    if idx.len() > 0 && !str_lt(k, es[idx[0]].name@) {
        lemma_name_pos_props(es, idx.drop_first(), k);
        assert forall|i: int| 0 <= i < name_pos(es, idx, k) implies !str_lt(
            k,
            #[trigger] es[idx[i]].name@,
        ) by {
            if i > 0 {
                assert(idx[i] == idx.drop_first()[i - 1]);
            }
        }
    }
}

/// Indices in order of their entries' names.
pub open spec fn by_name(es: Seq<TreeEntry>, idx: Seq<int>) -> bool {
    forall|i: int, j: int| 0 <= i < j < idx.len() ==> !str_lt(es[idx[j]].name@, es[idx[i]].name@)
}

proof fn lemma_name_sort(es: Seq<TreeEntry>, idx: Seq<int>)
    ensures
        by_name(es, name_sort(es, idx)),
        name_sort(es, idx).len() == idx.len(),
        forall|i: int| 0 <= i < name_sort(es, idx).len() ==> idx.contains(
            #[trigger] name_sort(es, idx)[i],
        ),
    decreases idx.len(),
{
    if idx.len() > 0 {
        let s = name_sort(es, idx.drop_last());
        lemma_name_sort(es, idx.drop_last());
        let x = idx.last();
        let k = es[x].name@;
        let p = name_pos(es, s, k);
        lemma_name_pos_props(es, s, k);
        let r = s.insert(p, x);
        assert forall|i: int, j: int| 0 <= i < j < r.len() implies !str_lt(
            es[r[j]].name@,
            es[r[i]].name@,
        ) by {
            if j < p {
                assert(r[i] == s[i] && r[j] == s[j]);
            } else if j == p {
                assert(r[j] == x && r[i] == s[i]);
            } else if i > p {
                assert(r[i] == s[i - 1] && r[j] == s[j - 1]);
            } else if i == p {
                assert(r[i] == x && r[j] == s[j - 1]);
                if str_lt(es[s[j - 1]].name@, k) {
                    if j - 1 == p {
                        crate::vault::lemma_str_lt_trans(es[s[p]].name@, k, es[s[p]].name@);
                        crate::vault::lemma_str_lt_irrefl(es[s[p]].name@);
                    } else {
                        assert(!str_lt(es[s[j - 1]].name@, es[s[p]].name@));
                        crate::vault::lemma_str_lt_trans(es[s[j - 1]].name@, k, es[s[p]].name@);
                    }
                }
            } else {
                assert(r[i] == s[i] && r[j] == s[j - 1]);
            }
        }
        assert forall|i: int| 0 <= i < r.len() implies idx.contains(#[trigger] r[i]) by {
            if i < p {
                assert(r[i] == s[i]);
                assert(idx.drop_last().contains(s[i]));
                let t = choose|t: int| 0 <= t < idx.drop_last().len() && idx.drop_last()[t] == s[i];
                assert(idx[t] == s[i]);
            } else if i == p {
                assert(idx[idx.len() - 1] == x);
            } else {
                assert(r[i] == s[i - 1]);
                assert(idx.drop_last().contains(s[i - 1]));
                let t = choose|t: int| 0 <= t < idx.drop_last().len() && idx.drop_last()[t] == s[i - 1];
                assert(idx[t] == s[i - 1]);
            }
        }
    }
}

/// The tree shows only shown entries (no hidden ones; only
/// directories when asked), directories before files, each group ordered
/// by name.
pub proof fn lemma_tree_order(es: Seq<TreeEntry>, dirs_only: bool)
    ensures
        forall|i: int| 0 <= i < tree_order(es, dirs_only).len() ==> {
            let k = #[trigger] tree_order(es, dirs_only)[i];
            0 <= k < es.len() && shown(es[k], dirs_only)
        },
        forall|i: int, j: int|
            0 <= i < j < tree_order(es, dirs_only).len() && es[tree_order(es, dirs_only)[j]].is_dir
                ==> es[tree_order(es, dirs_only)[i]].is_dir,
        forall|i: int, j: int|
            0 <= i < j < tree_order(es, dirs_only).len() && es[tree_order(es, dirs_only)[i]].is_dir
                == es[tree_order(es, dirs_only)[j]].is_dir ==> !str_lt(
                es[tree_order(es, dirs_only)[j]].name@,
                es[tree_order(es, dirs_only)[i]].name@,
            ),
{
    let gd = group_idx(es, es.len() as int, dirs_only, true);
    let gf = group_idx(es, es.len() as int, dirs_only, false);
    lemma_group_idx(es, es.len() as int, dirs_only, true);
    lemma_group_idx(es, es.len() as int, dirs_only, false);
    lemma_name_sort(es, gd);
    lemma_name_sort(es, gf);
    let d = name_sort(es, gd);
    let f = name_sort(es, gf);
    let ord = d + f;
    assert(tree_order(es, dirs_only) == ord);
    assert forall|i: int| 0 <= i < ord.len() implies {
        let k = #[trigger] ord[i];
        &&& 0 <= k < es.len()
        &&& shown(es[k], dirs_only)
        &&& es[k].is_dir == (i < d.len())
    } by {
        if i < d.len() {
            assert(ord[i] == d[i]);
            assert(gd.contains(d[i]));
            let t = choose|t: int| 0 <= t < gd.len() && gd[t] == d[i];
            assert(gd[t] == d[i]);
        } else {
            assert(ord[i] == f[i - d.len()]);
            assert(gf.contains(f[i - d.len()]));
            let t = choose|t: int| 0 <= t < gf.len() && gf[t] == f[i - d.len()];
            assert(gf[t] == f[i - d.len()]);
        }
    }
    assert forall|i: int, j: int|
        0 <= i < j < ord.len() && es[ord[i]].is_dir == es[ord[j]].is_dir implies !str_lt(
        es[ord[j]].name@,
        es[ord[i]].name@,
    ) by {
        assert(es[ord[i]].is_dir == (i < d.len()));
        assert(es[ord[j]].is_dir == (j < d.len()));
        if j < d.len() {
            assert(ord[i] == d[i] && ord[j] == d[j]);
        } else {
            assert(ord[i] == f[i - d.len()] && ord[j] == f[j - d.len()]);
        }
    }
    assert forall|i: int, j: int| 0 <= i < j < ord.len() && es[ord[j]].is_dir implies es[ord[i]].is_dir by {
        assert(es[ord[i]].is_dir == (i < d.len()));
        assert(es[ord[j]].is_dir == (j < d.len()));
    }
}

} // verus!
