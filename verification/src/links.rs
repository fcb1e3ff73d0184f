//! Links between vault files: `[text](target)` and `[[wikilink]]`.
use vstd::prelude::*;

use crate::from_delta::char_index;
use crate::paths::{file_name_of, path_file_stem, stem_of};
use crate::text::{
    chars_of, contains_chars, contains_seq, find_chars, find_from, matches_at, occurs_at,
    slice_chars, starts_with, starts_with_chars, string_of, strings_view,
};
use crate::vault::{chars_less, str_lt};

verus! {

/// `s` up to its first `|`.
pub open spec fn before_pipe(s: Seq<char>) -> Seq<char> {
    match char_index(s, '|') {
        Some(i) => s.take(i),
        None => s,
    }
}

/// The index of the first `[` or `]` at or after `j`.
pub open spec fn bracket_from(s: Seq<char>, j: int) -> Option<int>
    decreases s.len() - j,
{
    if j < 0 || j >= s.len() {
        None
    } else if s[j] == '[' || s[j] == ']' {
        Some(j)
    } else {
        bracket_from(s, j + 1)
    }
}

proof fn lemma_bracket_from_skip(s: Seq<char>, from: int, j: int)
    requires
        0 <= from <= j <= s.len(),
        forall|k: int| from <= k < j ==> s[k] != '[' && s[k] != ']',
    ensures
        bracket_from(s, from) == bracket_from(s, j),
    decreases j - from,
{
    if from < j {
        lemma_bracket_from_skip(s, from + 1, j);
    }
}

/// The link that starts with the `[` at index `i`, if any: a wikilink
/// `[[name]]`, or `[text](url)` where the next bracket after the `[` is
/// the `]` right before `(`; so each link is found once, at its own `[`.
pub open spec fn link_at(s: Seq<char>, i: int) -> Option<Seq<char>> {
    if !(0 <= i < s.len()) || s[i] != '[' {
        None
    } else if occurs_at(s, "[["@, i) {
        match find_from(s, "]]"@, i + 2) {
            Some(e) => Some(before_pipe(s.subrange(i + 2, e))),
            None => None,
        }
    } else {
        match bracket_from(s, i + 1) {
            Some(b) => if s[b] == ']' && b + 1 < s.len() && s[b + 1] == '(' {
                match find_from(s, ")"@, b + 2) {
                    Some(e) => {
                        let url = s.subrange(b + 2, e);
                        if starts_with(url, "http"@) {
                            None
                        } else {
                            Some(url)
                        }
                    },
                    None => None,
                }
            } else {
                None
            },
            None => None,
        }
    }
}

/// The links that start in `s[..n]`, in order.
pub open spec fn links_upto(s: Seq<char>, n: int) -> Seq<Seq<char>>
    decreases n,
{
    if n <= 0 {
        Seq::empty()
    } else {
        links_upto(s, n - 1) + match link_at(s, n - 1) {
            Some(l) => seq![l],
            None => Seq::empty(),
        }
    }
}

/// The wikilinks (up to any `|`) and the non-`http`
/// Markdown link targets of `s`, in order.
pub open spec fn links_spec(s: Seq<char>) -> Seq<Seq<char>> {
    links_upto(s, s.len() as int)
}

/// `before_pipe` on characters.
pub fn before_pipe_chars(s: &[char]) -> (r: Vec<char>)
    ensures
        r@ == before_pipe(s@),
{
    let mut j: usize = 0;
    while j < s.len() && s[j] != '|'
        invariant
            j <= s@.len(),
            forall|k: int| 0 <= k < j ==> s@[k] != '|',
        decreases s.len() - j,
    {
        j = j + 1;
    }
    proof {
        crate::from_delta::lemma_char_index_at(s@, '|', j as int);
    }
    slice_chars(s, 0, j)
}

/// The link starting at `i`.
pub fn link_at_chars(s: &[char], i: usize) -> (r: Option<Vec<char>>)
    requires
        i < s@.len(),
    ensures
        r matches Some(l) ==> link_at(s@, i as int) == Some(l@),
        r is None ==> link_at(s@, i as int) is None,
{
    if s[i] != '[' {
        return None;
    }
    let dbl = chars_of("[[");
    if matches_at(s, dbl.as_slice(), i) {
        let close = chars_of("]]");
        proof {
            crate::text::lemma_find_from_props(s@, close@, i + 2);
        }
        assert(i + 2 <= s.len()) by {
            reveal_strlit("[[");
        };
        return match find_chars(s, close.as_slice(), i + 2) {
            Some(e) => {
                let inner = slice_chars(s, i + 2, e);
                Some(before_pipe_chars(inner.as_slice()))
            },
            None => None,
        };
    }
    let mut b: usize = i + 1;
    while b < s.len() && s[b] != '[' && s[b] != ']'
        invariant
            i + 1 <= b <= s@.len(),
            forall|k: int| i + 1 <= k < b ==> s@[k] != '[' && s@[k] != ']',
        decreases s.len() - b,
    {
        b = b + 1;
    }
    proof {
        lemma_bracket_from_skip(s@, i + 1, b as int);
    }
    if b == s.len() || s[b] != ']' || b + 1 >= s.len() || s[b + 1] != '(' {
        return None;
    }
    let rp = chars_of(")");
    proof {
        crate::text::lemma_find_from_props(s@, rp@, b + 2);
        reveal_strlit(")");
    }
    match find_chars(s, rp.as_slice(), b + 2) {
        Some(e) => {
            let url = slice_chars(s, b + 2, e);
            let http = chars_of("http");
            if starts_with_chars(url.as_slice(), http.as_slice()) {
                None
            } else {
                Some(url)
            }
        },
        None => None,
    }
}

/// Extracts the links of a Markdown text: `[[wikilink]]` (up to `|`) and
/// `[text](url)` with a `url` not starting with `http`.
pub fn extract_links(content: &str) -> (r: Vec<String>)
    ensures
        strings_view(r@) == links_spec(content@),
{
    let s = chars_of(content);
    let mut r: Vec<String> = Vec::new();
    let mut i: usize = 0;
    while i < s.len()
        invariant
            i <= s@.len(),
            s@ == content@,
            strings_view(r@) == links_upto(s@, i as int),
        decreases s.len() - i,
    {
        let ghost prev = r@;
        match link_at_chars(s.as_slice(), i) {
            Some(l) => {
                r.push(string_of(l.as_slice()));
                assert(strings_view(r@) =~= strings_view(prev) + seq![l@]);
            },
            None => {
                assert(strings_view(r@) =~= strings_view(prev) + Seq::<Seq<char>>::empty());
            },
        }
        i = i + 1;
    }
    r
}

// ---------------------------------------------------------------------
// Backlinks
/// A link points at the target when it contains the target's file stem
/// or the target itself.
pub open spec fn points_at(link: Seq<char>, stem: Seq<char>, target: Seq<char>) -> bool {
    contains_seq(link, stem) || contains_seq(link, target)
}

/// `path` has a link pointing at the target.
pub open spec fn links_to(content: Seq<char>, stem: Seq<char>, target: Seq<char>) -> bool {
    exists|k: int| 0 <= k < links_spec(content).len() && points_at(
        #[trigger] links_spec(content)[k],
        stem,
        target,
    )
}

/// The stem used to match a target (empty when the path has none).
pub open spec fn target_stem(target: Seq<char>) -> Seq<char> {
    match path_file_stem(target) {
        Some(s) => s,
        None => Seq::empty(),
    }
}

/// Strictly increasing (sorted, without duplicates).
pub open spec fn strictly_sorted(s: Seq<Seq<char>>) -> bool {
    forall|i: int, j: int| 0 <= i < j < s.len() ==> str_lt(s[i], s[j])
}

/// The paths of `files` whose content links to the target.
pub open spec fn linking_paths(files: Seq<(String, String)>, stem: Seq<char>, target: Seq<char>) -> Set<
    Seq<char>,
> {
    Set::new(
        |p: Seq<char>|
            exists|i: int|
                0 <= i < files.len() && #[trigger] files[i].0@ == p && links_to(
                    files[i].1@,
                    stem,
                    target,
                ),
    )
}

/// Inserts `x` into a strictly sorted list unless present.
pub fn insert_unique(v: &mut Vec<String>, x: &String)
    requires
        strictly_sorted(strings_view(old(v)@)),
    ensures
        strictly_sorted(strings_view(final(v)@)),
        strings_view(final(v)@).to_set() == strings_view(old(v)@).to_set().insert(x@),
{
    let xc = chars_of(x.as_str());
    let ghost sv = strings_view(v@);
    let mut j: usize = 0;
    let mut go = j < v.len() && chars_less(chars_of(v[0].as_str()).as_slice(), xc.as_slice());
    while go
        invariant
            j <= v@.len(),
            sv == strings_view(v@),
            xc@ == x@,
            forall|t: int| 0 <= t < j ==> str_lt(sv[t], x@),
            go ==> j < v@.len() && str_lt(sv[j as int], x@),
            !go ==> j == v@.len() || !str_lt(sv[j as int], x@),
        decreases v.len() - j,
    {
        j = j + 1;
        go = j < v.len() && chars_less(chars_of(v[j].as_str()).as_slice(), xc.as_slice());
    }
    assert(j < v@.len() ==> sv[j as int] == v@[j as int]@);
    if j < v.len() && crate::text::chars_eq(chars_of(v[j].as_str()).as_slice(), xc.as_slice()) {
        assert(sv[j as int] == x@);
        assert(sv.to_set().insert(x@) =~= sv.to_set());
        return ;
    }
    v.insert(j, x.clone());
    let ghost nv = strings_view(v@);
    assert(nv =~= sv.insert(j as int, x@));
    proof {
        if j < sv.len() {
            crate::vault::lemma_str_lt_total(sv[j as int], x@);
        }
        assert forall|a: int, b: int| 0 <= a < b < nv.len() implies str_lt(nv[a], nv[b]) by {
            if b < j {
            } else if b == j {
            } else if a > j {
            } else if a == j {
                if b - 1 > j {
                    crate::vault::lemma_str_lt_trans(x@, sv[j as int], sv[b - 1]);
                }
            } else {
                if b - 1 == j {
                    crate::vault::lemma_str_lt_trans(sv[a], x@, sv[j as int]);
                } else {
                }
            }
        }
        assert forall|p: Seq<char>| nv.to_set().contains(p) <==> sv.to_set().insert(x@).contains(p) by {
            if nv.to_set().contains(p) {
                let k = choose|k: int| 0 <= k < nv.len() && nv[k] == p;
                if k < j {
                    assert(sv[k] == p);
                } else if k > j {
                    assert(sv[k - 1] == p);
                }
            }
            if sv.to_set().contains(p) {
                let k = choose|k: int| 0 <= k < sv.len() && sv[k] == p;
                if k < j {
                    assert(nv[k] == p);
                } else {
                    assert(nv[k + 1] == p);
                }
            }
            if p == x@ {
                assert(nv[j as int] == p);
            }
        }
        assert(nv.to_set() =~= sv.to_set().insert(x@));
    }
}

/// Some link of `links` points at the target.
pub fn any_points_at(links: &Vec<String>, stem: &[char], target: &[char]) -> (b: bool)
    ensures
        b == exists|k: int| 0 <= k < links@.len() && points_at(#[trigger] links@[k]@, stem@, target@),
{
    let mut k: usize = 0;
    while k < links.len()
        invariant
            k <= links@.len(),
            forall|t: int| 0 <= t < k ==> !points_at(#[trigger] links@[t]@, stem@, target@),
        decreases links.len() - k,
    {
        let l = chars_of(links[k].as_str());
        if contains_chars(l.as_slice(), stem) || contains_chars(l.as_slice(), target) {
            return true;
        }
        k = k + 1;
    }
    false
}

/// The paths (sorted, without duplicates) of the files whose
/// links point at `target` (`files` holds each file's path and content).
pub fn backlinks_of(files: &Vec<(String, String)>, target: &str) -> (r: Vec<String>)
    ensures
        strictly_sorted(strings_view(r@)),
        strings_view(r@).to_set() == linking_paths(files@, target_stem(target@), target@),
{
    let tc = chars_of(target);
    let stem: Vec<char> = match file_name_of(tc.as_slice()) {
        Some(n) => stem_of(n.as_slice()),
        None => Vec::new(),
    };
    assert(stem@ == target_stem(target@));
    let mut r: Vec<String> = Vec::new();
    let mut i: usize = 0;
    while i < files.len()
        invariant
            i <= files@.len(),
            tc@ == target@,
            stem@ == target_stem(target@),
            strictly_sorted(strings_view(r@)),
            strings_view(r@).to_set() == linking_paths(files@.take(i as int), stem@, tc@),
        decreases files.len() - i,
    {
        let links = extract_links(files[i].1.as_str());
        let hit = any_points_at(&links, stem.as_slice(), tc.as_slice());
        proof {
            assert forall|k: int| 0 <= k < links@.len() implies #[trigger] links@[k]@ == links_spec(files@[i as int].1@)[k] by {
                assert(strings_view(links@)[k] == links@[k]@);
            }
        }
        assert(hit == links_to(files@[i as int].1@, stem@, tc@)) by {
            if hit {
                let k = choose|k: int| 0 <= k < links@.len() && points_at(#[trigger] links@[k]@, stem@, tc@);
                assert(links_spec(files@[i as int].1@)[k] == links@[k]@);
            }
            if links_to(files@[i as int].1@, stem@, tc@) {
                let k = choose|k: int| 0 <= k < links_spec(files@[i as int].1@).len() && points_at(#[trigger] links_spec(files@[i as int].1@)[k], stem@, tc@);
                assert(strings_view(links@).len() == links@.len());
                assert(links@[k]@ == links_spec(files@[i as int].1@)[k]);
            }
        };
        if hit {
            insert_unique(&mut r, &files[i].0);
        }
        proof {
            let a = files@.take(i as int);
            let b = files@.take(i + 1);
            assert forall|p: Seq<char>| linking_paths(b, stem@, tc@).contains(p) <==> (
            linking_paths(a, stem@, tc@).contains(p) || (hit && p == files@[i as int].0@)) by {
                if linking_paths(b, stem@, tc@).contains(p) {
                    let k = choose|k: int| 0 <= k < b.len() && #[trigger] b[k].0@ == p && links_to(b[k].1@, stem@, tc@);
                    if k < i {
                        assert(a[k] == b[k]);
                    }
                }
                if linking_paths(a, stem@, tc@).contains(p) {
                    let k = choose|k: int| 0 <= k < a.len() && #[trigger] a[k].0@ == p && links_to(a[k].1@, stem@, tc@);
                    assert(b[k] == a[k]);
                }
                if hit && p == files@[i as int].0@ {
                    assert(b[i as int] == files@[i as int]);
                }
            }
            if hit {
                assert(strings_view(r@).to_set() =~= linking_paths(b, stem@, tc@));
            } else {
                assert(strings_view(r@).to_set() =~= linking_paths(b, stem@, tc@));
            }
        }
        i = i + 1;
    }
    assert(files@.take(files@.len() as int) =~= files@);
    r
}

// ---------------------------------------------------------------------
// Output of `slab links` and `slab backlinks`
/// The file `slab links` reads: the one named, else the first tracked
/// file, else none (empty).
pub fn links_target(file: Option<&str>, first_tracked: Option<&str>) -> (r: String)
    ensures
        r@ == match file {
            Some(f) => f@,
            None => match first_tracked {
                Some(p) => p@,
                None => Seq::empty(),
            },
        },
{
    match file {
        Some(f) => string_of(chars_of(f).as_slice()),
        None => match first_tracked {
            Some(p) => string_of(chars_of(p).as_slice()),
            None => String::new(),
        },
    }
}

/// The file `slab backlinks` looks for: it must be named.
pub fn backlinks_target(file: Option<&str>) -> (r: Result<String, String>)
    ensures
        match file {
            Some(f) if f@.len() > 0 => r matches Ok(t) && t@ == f@,
            _ => r matches Err(e) && e@ == "file argument is required"@,
        },
{
    match file {
        Some(f) => {
            let fc = chars_of(f);
            if fc.len() > 0 {
                return Ok(string_of(fc.as_slice()));
            }
            Err(crate::to_delta::lit_string("file argument is required"))
        },
        None => Err(crate::to_delta::lit_string("file argument is required")),
    }
}

/// `<head>` then a line `<arrow> <path>` per path, or `  (none)`.
pub open spec fn listed_lines(arrow: Seq<char>, ps: Seq<Seq<char>>) -> Seq<char>
    decreases ps.len(),
{
    if ps.len() == 0 {
        Seq::empty()
    } else {
        listed_lines(arrow, ps.drop_last()) + "  "@ + arrow + " "@ + ps.last() + "\n"@
    }
}

pub open spec fn listing_spec(head: Seq<char>, arrow: Seq<char>, ps: Seq<Seq<char>>) -> Seq<char> {
    head + if ps.len() == 0 {
        "  (none)\n"@
    } else {
        listed_lines(arrow, ps)
    }
}

fn listing(head: Vec<char>, arrow: &str, ps: &Vec<String>) -> (r: String)
    ensures
        r@ == listing_spec(head@, arrow@, strings_view(ps@)),
{
    let ghost sv = strings_view(ps@);
    let mut o = head;
    let ghost base = o@;
    let mut i: usize = 0;
    assert(sv.take(0) =~= Seq::<Seq<char>>::empty());
    while i < ps.len()
        invariant
            i <= ps@.len(),
            sv == strings_view(ps@),
            o@ == base + listed_lines(arrow@, sv.take(i as int)),
        decreases ps.len() - i,
    {
        crate::from_delta::push_lit(&mut o, "  ");
        crate::from_delta::push_lit(&mut o, arrow);
        crate::from_delta::push_lit(&mut o, " ");
        crate::vault::push_str(&mut o, &ps[i]);
        crate::from_delta::push_lit(&mut o, "\n");
        assert(sv.take(i + 1).drop_last() =~= sv.take(i as int));
        i = i + 1;
    }
    assert(sv.take(ps@.len() as int) =~= sv);
    if ps.len() == 0 {
        crate::from_delta::push_lit(&mut o, "  (none)\n");
    }
    string_of(o.as_slice())
}

/// The text of `slab links`.
pub fn links_text(target: &str, outgoing: &Vec<String>) -> (r: String)
    ensures
        r@ == listing_spec("outgoing links from "@ + target@ + ":\n"@, "->"@, strings_view(outgoing@)),
{
    let mut head = chars_of("outgoing links from ");
    crate::from_delta::push_lit(&mut head, target);
    crate::from_delta::push_lit(&mut head, ":\n");
    listing(head, "->", outgoing)
}

/// `slab links` prints `outgoing links from <file>:` and a line `  -> <link>`
/// per link, in order; `slab backlinks` prints `backlinks to <file>:` and a
/// line `  <- <path>` per linking file; each prints `  (none)` when there
/// is nothing to list.
pub proof fn lemma_link_listings(t: Seq<char>, ps: Seq<Seq<char>>, p: Seq<char>)
    ensures
        listing_spec("outgoing links from "@ + t + ":\n"@, "->"@, Seq::empty())
            == "outgoing links from "@ + t + ":\n"@ + "  (none)\n"@,
        listing_spec("backlinks to "@ + t + ":\n"@, "<-"@, Seq::empty()) == "backlinks to "@ + t
            + ":\n"@ + "  (none)\n"@,
        listing_spec("outgoing links from "@ + t + ":\n"@, "->"@, seq![p]) == "outgoing links from "@
            + t + ":\n"@ + "  -> "@ + p + "\n"@,
        listing_spec("backlinks to "@ + t + ":\n"@, "<-"@, seq![p]) == "backlinks to "@ + t
            + ":\n"@ + "  <- "@ + p + "\n"@,
        ps.len() > 0 ==> listing_spec("outgoing links from "@ + t + ":\n"@, "->"@, ps.push(p))
            == listing_spec("outgoing links from "@ + t + ":\n"@, "->"@, ps) + "  -> "@ + p
            + "\n"@,
        ps.len() > 0 ==> listing_spec("backlinks to "@ + t + ":\n"@, "<-"@, ps.push(p))
            == listing_spec("backlinks to "@ + t + ":\n"@, "<-"@, ps) + "  <- "@ + p + "\n"@,
{
    reveal_strlit("  ");
    reveal_strlit("->");
    reveal_strlit("<-");
    reveal_strlit(" ");
    reveal_strlit("  -> ");
    reveal_strlit("  <- ");
    assert(seq![p].drop_last() =~= Seq::<Seq<char>>::empty());
    assert(ps.push(p).drop_last() =~= ps);
    assert(ps.push(p).last() == p);
    assert(seq![p].last() == p);
    assert("  "@ + "->"@ + " "@ =~= "  -> "@);
    assert("  "@ + "<-"@ + " "@ =~= "  <- "@);
    assert(listed_lines("->"@, Seq::<Seq<char>>::empty()) == Seq::<char>::empty());
    assert(listed_lines("<-"@, Seq::<Seq<char>>::empty()) == Seq::<char>::empty());
    assert(listed_lines("->"@, seq![p]) == listed_lines("->"@, Seq::<Seq<char>>::empty()) + "  "@
        + "->"@ + " "@ + p + "\n"@);
    assert(listed_lines("<-"@, seq![p]) == listed_lines("<-"@, Seq::<Seq<char>>::empty()) + "  "@
        + "<-"@ + " "@ + p + "\n"@);
    assert(listed_lines("->"@, seq![p]) =~= "  -> "@ + p + "\n"@);
    assert(listed_lines("<-"@, seq![p]) =~= "  <- "@ + p + "\n"@);
    assert(listed_lines("->"@, ps.push(p)) =~= listed_lines("->"@, ps) + "  -> "@ + p + "\n"@);
    assert(listed_lines("<-"@, ps.push(p)) =~= listed_lines("<-"@, ps) + "  <- "@ + p + "\n"@);
}

/// The text of `slab backlinks`.
pub fn backlinks_text(target: &str, incoming: &Vec<String>) -> (r: String)
    ensures
        r@ == listing_spec("backlinks to "@ + target@ + ":\n"@, "<-"@, strings_view(incoming@)),
{
    let mut head = chars_of("backlinks to ");
    crate::from_delta::push_lit(&mut head, target);
    crate::from_delta::push_lit(&mut head, ":\n");
    listing(head, "<-", incoming)
}

} // verus!
