//! Searching the local vault, grep-style.
use vstd::prelude::*;

use crate::from_delta::{char_index, lemma_char_index_at, push_lit};
use crate::json::{decimal, push_decimal};
use crate::output::{lowercase, to_lowercase};
use crate::text::{
    chars_of, contains_chars, contains_seq, push_all, slice_chars, string_of, strings_view,
};
use crate::vault::push_str;
use crate::output::Format;
use crate::posts::{opt_or, push_opt_or};
use crate::types::SearchResult;

verus! {

/// `str::lines`: the text split at newlines (a `\r` before a newline
/// dropped), with no empty last line after a final newline.
pub open spec fn lines_of(s: Seq<char>) -> Seq<Seq<char>>
    decreases s.len(),
{
    if s.len() == 0 {
        Seq::empty()
    } else {
        match char_index(s, '\n') {
            None => seq![s],
            Some(i) => {
                proof {
                    crate::from_delta::lemma_char_index(s, '\n');
                }
                let raw = s.take(i);
                let line = if raw.len() > 0 && raw.last() == '\r' {
                    raw.drop_last()
                } else {
                    raw
                };
                seq![line] + lines_of(s.skip(i + 1))
            },
        }
    }
}

/// `str::lines` on characters.
pub fn lines(s: &[char]) -> (r: Vec<String>)
    ensures
        strings_view(r@) == lines_of(s@),
{
    let mut r: Vec<String> = Vec::new();
    let mut pos: usize = 0;
    assert(s@.skip(0) =~= s@);
    while pos < s.len()
        invariant
            pos <= s@.len(),
            strings_view(r@) + lines_of(s@.skip(pos as int)) == lines_of(s@),
        decreases s.len() - pos,
    {
        let mut j: usize = pos;
        while j < s.len() && s[j] != '\n'
            invariant
                pos <= j <= s@.len(),
                forall|k: int| pos <= k < j ==> s@[k] != '\n',
            decreases s.len() - j,
        {
            j = j + 1;
        }
        let ghost rest = s@.skip(pos as int);
        proof {
            lemma_char_index_at(rest, '\n', j - pos);
        }
        let ghost prev = strings_view(r@);
        if j == s.len() {
            assert(rest =~= s@.subrange(pos as int, j as int));
            let line = slice_chars(s, pos, j);
            r.push(string_of(line.as_slice()));
            assert(strings_view(r@) =~= prev + seq![line@]);
            assert(strings_view(r@) =~= lines_of(s@));
            return r;
        }
        let mut e: usize = j;
        if j > pos && s[j - 1] == '\r' {
            e = j - 1;
        }
        let line = slice_chars(s, pos, e);
        assert(rest.take(j - pos) =~= s@.subrange(pos as int, j as int));
        assert(e < j ==> s@.subrange(pos as int, j as int).drop_last() =~= line@);
        assert(e == j ==> s@.subrange(pos as int, j as int) =~= line@);
        r.push(string_of(line.as_slice()));
        assert(rest.skip(j - pos + 1) =~= s@.skip(j + 1));
        assert(strings_view(r@) =~= prev + seq![line@]);
        pos = j + 1;
    }
    assert(s@.skip(pos as int).len() == 0);
    assert(strings_view(r@) + Seq::<Seq<char>>::empty() =~= strings_view(r@));
    r
}

/// The numbered lines (counting from 1) of `ls[from..]` whose lowercase
/// form contains `q`.
pub open spec fn matching_lines(ls: Seq<Seq<char>>, q: Seq<char>, n: int) -> Seq<(int, Seq<char>)>
    decreases ls.len(),
{
    if ls.len() == 0 {
        Seq::empty()
    } else {
        let rest = matching_lines(ls.drop_last(), q, n);
        if contains_seq(lowercase(ls.last()), q) {
            rest.push((n + ls.len(), ls.last()))
        } else {
            rest
        }
    }
}

pub open spec fn hits_view(v: Seq<(usize, String)>) -> Seq<(int, Seq<char>)> {
    v.map_values(|h: (usize, String)| (h.0 as int, h.1@))
}

/// The lines of `content` that contain `query_lower` once lowercased, with
/// their line numbers.
pub fn file_matches(content: &str, query_lower: &str) -> (r: Vec<(usize, String)>)
    ensures
        hits_view(r@) == matching_lines(lines_of(content@), query_lower@, 0),
{
    let ls = lines(chars_of(content).as_slice());
    let q = chars_of(query_lower);
    let mut r: Vec<(usize, String)> = Vec::new();
    let mut i: usize = 0;
    let ghost lv = strings_view(ls@);
    assert(lv.take(0) =~= Seq::<Seq<char>>::empty());
    while i < ls.len()
        invariant
            i <= ls@.len(),
            lv == strings_view(ls@),
            lv == lines_of(content@),
            q@ == query_lower@,
            hits_view(r@) == matching_lines(lv.take(i as int), q@, 0),
        decreases ls.len() - i,
    {
        let low = to_lowercase(ls[i].as_str());
        let ghost prev = hits_view(r@);
        assert(lv.take(i + 1).drop_last() =~= lv.take(i as int));
        assert(lv[i as int] == ls@[i as int]@);
        if contains_chars(chars_of(low.as_str()).as_slice(), q.as_slice()) {
            r.push((i + 1, ls[i].clone()));
            assert(hits_view(r@) =~= prev.push(((i + 1) as int, lv[i as int])));
        } else {
            assert(hits_view(r@) =~= prev);
        }
        i = i + 1;
    }
    assert(lv.take(lv.len() as int) =~= lv);
    r
}

/// State of a local search: the files with hits so far.
pub struct LocalSearch {
    pub query_lower: String,
    pub limit: usize,
    pub matches: Vec<(String, Vec<(usize, String)>)>,
}

impl LocalSearch {
    pub fn new(query: &str, limit: usize) -> (s: LocalSearch)
        ensures
            s.query_lower@ == lowercase(query@),
            s.limit == limit,
            s.matches@.len() == 0,
    {
        LocalSearch { query_lower: to_lowercase(query), limit, matches: Vec::new() }
    }

    /// Searches one more file: a file with hits is added with them.
    pub fn add_file(&mut self, path: &String, content: &str)
        ensures
            final(self).query_lower == old(self).query_lower,
            final(self).limit == old(self).limit,
            ({
                let hits = matching_lines(lines_of(content@), old(self).query_lower@, 0);
                if hits.len() > 0 {
                    &&& final(self).matches@.len() == old(self).matches@.len() + 1
                    &&& final(self).matches@.take(old(self).matches@.len() as int) == old(self).matches@
                    &&& final(self).matches@.last().0 == *path
                    &&& hits_view(final(self).matches@.last().1@) == hits
                } else {
                    final(self).matches@ == old(self).matches@
                }
            }),
    {
        let hits = file_matches(content, self.query_lower.as_str());
        if hits.len() > 0 {
            let ghost prev = self.matches@;
            self.matches.push((path.clone(), hits));
            assert(self.matches@.take(prev.len() as int) =~= prev);
        }
    }

}

pub open spec fn files_view(fs: Seq<(String, String)>) -> Seq<(Seq<char>, Seq<char>)> {
    fs.map_values(|f: (String, String)| (f.0@, f.1@))
}

pub open spec fn matches_view(ms: Seq<(String, Vec<(usize, String)>)>) -> Seq<
    (Seq<char>, Seq<(int, Seq<char>)>),
> {
    ms.map_values(|m: (String, Vec<(usize, String)>)| (m.0@, hits_view(m.1@)))
}

/// Each file (path, content) of `fs` that has lines containing `q` once
/// lowercased, with those lines, in order.
pub open spec fn files_with_hits(fs: Seq<(Seq<char>, Seq<char>)>, q: Seq<char>) -> Seq<
    (Seq<char>, Seq<(int, Seq<char>)>),
>
    decreases fs.len(),
{
    if fs.len() == 0 {
        Seq::empty()
    } else {
        let prev = files_with_hits(fs.drop_last(), q);
        let hits = matching_lines(lines_of(fs.last().1), q, 0);
        if hits.len() > 0 {
            prev.push((fs.last().0, hits))
        } else {
            prev
        }
    }
}

/// The files with hits among the first `i` files are the first ones of
/// those among all files.
proof fn lemma_files_with_hits_prefix(fs: Seq<(Seq<char>, Seq<char>)>, q: Seq<char>, i: int)
    requires
        0 <= i <= fs.len(),
    ensures
        files_with_hits(fs.take(i), q).len() <= files_with_hits(fs, q).len(),
        files_with_hits(fs, q).take(files_with_hits(fs.take(i), q).len() as int)
            == files_with_hits(fs.take(i), q),
    decreases fs.len(),
{
    if i == fs.len() {
        assert(fs.take(i) =~= fs);
        assert(files_with_hits(fs, q).take(files_with_hits(fs, q).len() as int) =~= files_with_hits(fs, q));
    } else {
        assert(fs.drop_last().take(i) =~= fs.take(i));
        lemma_files_with_hits_prefix(fs.drop_last(), q, i);
        let a = files_with_hits(fs.drop_last(), q);
        let b = files_with_hits(fs, q);
        let n = files_with_hits(fs.take(i), q).len() as int;
        assert(b.take(n) =~= a.take(n));
    }
}

/// The files with hits that a search reports, at most `limit` of them.
pub open spec fn search_result_spec(
    fs: Seq<(Seq<char>, Seq<char>)>,
    q: Seq<char>,
    limit: nat,
) -> Seq<(Seq<char>, Seq<(int, Seq<char>)>)> {
    let all = files_with_hits(fs, q);
    if all.len() <= limit {
        all
    } else {
        all.take(limit as int)
    }
}

/// Searches `files` (path and content of each) for `query`, in order,
/// and keeps the first `limit` files that have hits.
pub fn search_files(query: &str, limit: usize, files: &Vec<(String, String)>) -> (r: LocalSearch)
    ensures
        r.query_lower@ == lowercase(query@),
        r.limit == limit,
        r.matches@.len() <= limit,
        matches_view(r.matches@) == search_result_spec(
            files_view(files@),
            lowercase(query@),
            limit as nat,
        ),
{
    let mut s = LocalSearch::new(query, limit);
    let ghost fv = files_view(files@);
    let ghost q = lowercase(query@);
    let mut i: usize = 0;
    assert(fv.take(0) =~= Seq::<(Seq<char>, Seq<char>)>::empty());
    assert(matches_view(s.matches@) =~= Seq::<(Seq<char>, Seq<(int, Seq<char>)>)>::empty());
    while i < files.len() && s.matches.len() < limit
        invariant
            i <= files@.len(),
            fv == files_view(files@),
            q == lowercase(query@),
            s.query_lower@ == q,
            s.limit == limit,
            s.matches@.len() <= limit,
            matches_view(s.matches@) == files_with_hits(fv.take(i as int), q),
        decreases files.len() - i,
    {
        let ghost prev = s.matches@;
        s.add_file(&files[i].0, files[i].1.as_str());
        proof {
            assert(fv.take(i + 1).drop_last() =~= fv.take(i as int));
            assert(fv.take(i + 1).last() == fv[i as int]);
            assert(fv[i as int] == (files@[i as int].0@, files@[i as int].1@));
            let hits = matching_lines(lines_of(files@[i as int].1@), q, 0);
            if hits.len() > 0 {
                assert(s.matches@ =~= prev.push(s.matches@.last()));
                assert(matches_view(s.matches@) =~= matches_view(prev).push(
                    (files@[i as int].0@, hits),
                ));
            }
        }
        i = i + 1;
    }
    proof {
        lemma_files_with_hits_prefix(fv, q, i as int);
        if i == files.len() {
            assert(fv.take(i as int) =~= fv);
        }
    }
    s
}

/// `path:line: text` lines of one file's hits.
pub open spec fn hit_lines(path: Seq<char>, hs: Seq<(usize, String)>) -> Seq<char>
    decreases hs.len(),
{
    if hs.len() == 0 {
        Seq::empty()
    } else {
        hit_lines(path, hs.drop_last()) + path + ":"@ + decimal(hs.last().0 as nat) + ": "@
            + hs.last().1@ + "\n"@
    }
}

pub open spec fn all_hit_lines(ms: Seq<(String, Vec<(usize, String)>)>) -> Seq<char>
    decreases ms.len(),
{
    if ms.len() == 0 {
        Seq::empty()
    } else {
        all_hit_lines(ms.drop_last()) + hit_lines(ms.last().0@, ms.last().1@)
    }
}

/// The text output of a local search.
pub open spec fn search_text_spec(ms: Seq<(String, Vec<(usize, String)>)>, query: Seq<char>) -> Seq<
    char,
> {
    let s = all_hit_lines(ms);
    if s.len() == 0 {
        "no matches for \""@ + query + "\"\n"@
    } else {
        s
    }
}

pub fn push_hits(o: &mut Vec<char>, path: &String, hs: &Vec<(usize, String)>)
    ensures
        final(o)@ == old(o)@ + hit_lines(path@, hs@),
{
    let ghost base = o@;
    let mut i: usize = 0;
    assert(hs@.take(0) =~= Seq::<(usize, String)>::empty());
    while i < hs.len()
        invariant
            i <= hs@.len(),
            o@ == base + hit_lines(path@, hs@.take(i as int)),
        decreases hs.len() - i,
    {
        push_str(o, path);
        push_lit(o, ":");
        push_decimal(o, hs[i].0 as u64);
        push_lit(o, ": ");
        push_str(o, &hs[i].1);
        push_lit(o, "\n");
        assert(hs@.take(i + 1).drop_last() =~= hs@.take(i as int));
        i = i + 1;
        assert(o@ =~= base + hit_lines(path@, hs@.take(i as int)));
    }
    assert(hs@.take(hs@.len() as int) =~= hs@);
}

/// A file's hits: a one-line file (no newline in it) has the hit of its
/// line, numbered 1, when the lowercased line contains the (lowercased)
/// query, and none otherwise; the search output is a line
/// `<path>:<line number>: <line>` per hit, file by file, or, with no hit at
/// all, `no matches for "<query>"`.
pub proof fn lemma_search_hits(
    line: Seq<char>,
    q: Seq<char>,
    ms: Seq<(String, Vec<(usize, String)>)>,
    path: String,
    hs: Vec<(usize, String)>,
    query: Seq<char>,
)
    requires
        line.len() > 0,
        forall|i: int| 0 <= i < line.len() ==> line[i] != '\n',
    ensures
        contains_seq(lowercase(line), q) ==> matching_lines(lines_of(line), q, 0) == seq![(1int, line)],
        !contains_seq(lowercase(line), q) ==> matching_lines(lines_of(line), q, 0) == Seq::<
            (int, Seq<char>),
        >::empty(),
        search_text_spec(Seq::empty(), query) == "no matches for \""@ + query + "\"\n"@,
        (hs@.len() == 1 && hs@[0].0 as int == 1) ==> search_text_spec(seq![(path, hs)], query)
            == path@ + ":1: "@ + hs@[0].1@ + "\n"@,
{
    crate::from_delta::lemma_char_index_at(line, '\n', line.len() as int);
    assert(lines_of(line) == seq![line]);
    let ls = seq![line];
    assert(ls.drop_last() =~= Seq::<Seq<char>>::empty());
    assert(ls.last() == line);
    assert(Seq::<(int, Seq<char>)>::empty().push((1int, line)) =~= seq![(1int, line)]);
    assert(matching_lines(ls.drop_last(), q, 0) == Seq::<(int, Seq<char>)>::empty());
    assert(matching_lines(ls, q, 0) == if contains_seq(lowercase(line), q) {
        Seq::<(int, Seq<char>)>::empty().push((1int, line))
    } else {
        Seq::<(int, Seq<char>)>::empty()
    });
    reveal_strlit(":1: ");
    reveal_strlit(":");
    reveal_strlit(": ");
    if hs@.len() == 1 && hs@[0].0 as int == 1 {
        let m = seq![(path, hs)];
        assert(m.drop_last() =~= Seq::<(String, Vec<(usize, String)>)>::empty());
        assert(hs@.drop_last() =~= Seq::<(usize, String)>::empty());
        assert(decimal(1) == seq!['1']);
        assert(hs@.last() == hs@[0]);
        assert(decimal(hs@[0].0 as nat) == seq!['1']);
        assert(hit_lines(path@, Seq::<(usize, String)>::empty()) == Seq::<char>::empty());
        assert(hit_lines(path@, hs@) == hit_lines(path@, hs@.drop_last()) + path@ + ":"@ + decimal(
            hs@.last().0 as nat,
        ) + ": "@ + hs@.last().1@ + "\n"@);
        assert(":"@ + seq!['1'] + ": "@ =~= ":1: "@);
        assert(hit_lines(path@, hs@) =~= path@ + ":1: "@ + hs@[0].1@ + "\n"@);
        assert(all_hit_lines(Seq::<(String, Vec<(usize, String)>)>::empty()) == Seq::<char>::empty());
        assert(m.last() == (path, hs));
        assert(all_hit_lines(m) =~= path@ + ":1: "@ + hs@[0].1@ + "\n"@);
    }
}

impl LocalSearch {
    /// Text output: `path:line: text` per hit, or a no-match message.
    pub fn text_output(&self, query: &str) -> (r: String)
        ensures
            r@ == search_text_spec(self.matches@, query@),
    {
        let mut o: Vec<char> = Vec::new();
        let mut i: usize = 0;
        assert(self.matches@.take(0) =~= Seq::<(String, Vec<(usize, String)>)>::empty());
        while i < self.matches.len()
            invariant
                i <= self.matches@.len(),
                o@ == all_hit_lines(self.matches@.take(i as int)),
            decreases self.matches.len() - i,
        {
            push_hits(&mut o, &self.matches[i].0, &self.matches[i].1);
            assert(self.matches@.take(i + 1).drop_last() =~= self.matches@.take(i as int));
            i = i + 1;
        }
        assert(self.matches@.take(self.matches@.len() as int) =~= self.matches@);
        if o.len() == 0 {
            let mut e = chars_of("no matches for \"");
            push_all(&mut e, chars_of(query).as_slice());
            push_lit(&mut e, "\"\n");
            return string_of(e.as_slice());
        }
        string_of(o.as_slice())
    }
}

// ---------------------------------------------------------------------
// Remote search
/// Whether `slab search --remote` asks for another page: while it has
/// fewer results than asked for and the reply names a next page.
pub fn wants_more_results(have: usize, limit: usize, next: &Option<String>) -> (b: bool)
    ensures
        b == (have < limit && next is Some),
{
    have < limit && next.is_some()
}

/// The results kept: the first `limit`.
pub fn keep_first(results: Vec<SearchResult>, limit: usize) -> (r: Vec<SearchResult>)
    ensures
        r@ == (if results@.len() <= limit {
            results@
        } else {
            results@.take(limit as int)
        }),
{
    let mut r = results;
    r.truncate(limit);
    r
}

/// A result's row in the TSV listing.
pub open spec fn result_tsv_line(r: SearchResult) -> Seq<char> {
    r.post.id@ + "\t"@ + r.post.title@ + "\t"@ + opt_or(r.highlight, ""@) + "\n"@
}

/// A result's lines in the text listing: the post, then its highlight.
pub open spec fn result_text_lines(r: SearchResult) -> Seq<char> {
    "  "@ + r.post.id@ + " — "@ + r.post.title@ + "\n"@ + match r.highlight {
        Some(h) => "    "@ + h@ + "\n"@,
        None => Seq::empty(),
    }
}

pub open spec fn result_lines(rs: Seq<SearchResult>, tsv: bool) -> Seq<char>
    decreases rs.len(),
{
    if rs.len() == 0 {
        Seq::empty()
    } else {
        result_lines(rs.drop_last(), tsv) + if tsv {
            result_tsv_line(rs.last())
        } else {
            result_text_lines(rs.last())
        }
    }
}

/// `slab search --remote` in the text formats (`None` for JSON).
pub open spec fn remote_text_spec(rs: Seq<SearchResult>, query: Seq<char>, format: Format) -> Option<
    Seq<char>,
> {
    match format {
        Format::Json => None,
        Format::Tsv => Some("ID\tTITLE\tHIGHLIGHT\n"@ + result_lines(rs, true)),
        _ => Some(
            decimal(rs.len()) + " result(s) for \""@ + query + "\"\n\n"@ + result_lines(rs, false),
        ),
    }
}

/// `slab search --remote` as TSV is a header and a row per result of the
/// post's id, its title and the highlight (empty when none), separated by
/// tabs; as text it opens with the number of results and the query, then
/// lists each post as `  <id> — <title>` with its highlight on the next
/// line, indented, when there is one.
pub proof fn lemma_remote_result_rows(rs: Seq<SearchResult>, r: SearchResult, query: Seq<char>)
    ensures
        remote_text_spec(rs, query, Format::Tsv) matches Some(before) && remote_text_spec(
            rs.push(r),
            query,
            Format::Tsv,
        ) == Some(
            before + r.post.id@ + "\t"@ + r.post.title@ + "\t"@ + match r.highlight {
                Some(h) => h@,
                None => Seq::<char>::empty(),
            } + "\n"@,
        ),
        remote_text_spec(seq![r], query, Format::Text) == Some(
            "1 result(s) for \""@ + query + "\"\n\n"@ + "  "@ + r.post.id@ + " — "@ + r.post.title@
                + "\n"@ + match r.highlight {
                Some(h) => "    "@ + h@ + "\n"@,
                None => Seq::<char>::empty(),
            },
        ),
{
    reveal_strlit("");
    reveal_strlit(" result(s) for \"");
    reveal_strlit("1 result(s) for \"");
    assert(rs.push(r).drop_last() =~= rs);
    assert(rs.push(r).last() == r);
    let rows = result_lines(rs, true);
    assert(("ID\tTITLE\tHIGHLIGHT\n"@ + rows) + result_tsv_line(r) =~= "ID\tTITLE\tHIGHLIGHT\n"@
        + (rows + result_tsv_line(r)));
    assert(seq![r].drop_last() =~= Seq::<SearchResult>::empty());
    assert(seq![r].last() == r);
    assert(result_lines(Seq::<SearchResult>::empty(), false) == Seq::<char>::empty());
    assert(result_lines(seq![r], false) == result_lines(Seq::<SearchResult>::empty(), false)
        + result_text_lines(r));
    assert(result_lines(seq![r], false) =~= result_text_lines(r));
    assert(decimal(1) == seq!['1']);
    assert(seq!['1'] + " result(s) for \""@ =~= "1 result(s) for \""@);
}

pub fn format_remote_results(results: &Vec<SearchResult>, query: &str, format: Format) -> (r: Option<
    String,
>)
    ensures
        match r {
            Some(s) => remote_text_spec(results@, query@, format) == Some(s@),
            None => remote_text_spec(results@, query@, format) is None,
        },
{
    if format == Format::Json {
        return None;
    }
    let tsv = format == Format::Tsv;
    let mut o: Vec<char> = Vec::new();
    if tsv {
        push_lit(&mut o, "ID\tTITLE\tHIGHLIGHT\n");
    } else {
        push_decimal(&mut o, results.len() as u64);
        push_lit(&mut o, " result(s) for \"");
        push_lit(&mut o, query);
        push_lit(&mut o, "\"\n\n");
    }
    let ghost base = o@;
    let mut i: usize = 0;
    while i < results.len()
        invariant
            i <= results@.len(),
            o@ == base + result_lines(results@.take(i as int), tsv),
        decreases results.len() - i,
    {
        let r = &results[i];
        let ghost before = o@;
        if tsv {
            push_str(&mut o, &r.post.id);
            push_lit(&mut o, "\t");
            push_str(&mut o, &r.post.title);
            push_lit(&mut o, "\t");
            push_opt_or(&mut o, &r.highlight, "");
            push_lit(&mut o, "\n");
            assert(o@ =~= before + result_tsv_line(*r));
        } else {
            push_lit(&mut o, "  ");
            push_str(&mut o, &r.post.id);
            push_lit(&mut o, " — ");
            push_str(&mut o, &r.post.title);
            push_lit(&mut o, "\n");
            match &r.highlight {
                Some(h) => {
                    push_lit(&mut o, "    ");
                    push_str(&mut o, h);
                    push_lit(&mut o, "\n");
                },
                None => {},
            }
            assert(o@ =~= before + result_text_lines(*r));
        }
        assert(results@.take(i + 1).drop_last() =~= results@.take(i as int));
        i = i + 1;
    }
    assert(results@.take(results@.len() as int) =~= results@);
    Some(string_of(o.as_slice()))
}

} // verus!
