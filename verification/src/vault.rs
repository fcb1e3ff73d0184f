//! The local vault: post files with YAML frontmatter, content hashes, and
//! the sync status of tracked files.
use vstd::prelude::*;

use sha2::{Digest, Sha256};

use crate::json::{decimal, push_decimal};
use crate::store::PostState;
use crate::types::{Post, TopicRef};
use crate::from_delta::{delta_to_markdown, markdown_of};
use crate::paths::{path_join, path_join_str};
use crate::from_delta::{push_lit, char_index, lemma_char_index_at};
use crate::text::{
    chars_of, push_all, string_of, trim, trim_chars, starts_with, find_from, find_chars,
    starts_with_chars, slice_chars, is_ws, trim_start, trim_end, lemma_trim_end_take,
    lemma_trim_start_skip, trim_end_len, trim_start_len,
};

verus! {

// ---------------------------------------------------------------------
// Frontmatter
/// The frontmatter of a post file.
pub struct Frontmatter {
    pub slab_id: String,
    pub title: String,
    pub topics: Vec<String>,
    pub version: Option<i64>,
    pub updated_at: Option<String>,
}

/// Decimal text of a signed integer (`format!("{v}")`).
pub open spec fn i64_text(v: i64) -> Seq<char> {
    if v < 0 {
        seq!['-'] + decimal((-v) as nat)
    } else {
        decimal(v as nat)
    }
}

/// The `  - "topic"` lines.
pub open spec fn topics_yaml(ts: Seq<String>) -> Seq<char>
    decreases ts.len(),
{
    if ts.len() == 0 {
        Seq::empty()
    } else {
        topics_yaml(ts.drop_last()) + quoted_line("  - \""@, ts.last()@)
    }
}

/// How a character is written inside a YAML double-quoted string: `"`
/// and `\` behind a backslash, any other as it is.
pub open spec fn yaml_escape_char(c: char) -> Seq<char> {
    if c == '"' || c == '\\' {
        seq!['\\', c]
    } else {
        seq![c]
    }
}

/// `s` as written inside a YAML double-quoted string.
pub open spec fn yaml_escape(s: Seq<char>) -> Seq<char>
    decreases s.len(),
{
    if s.len() == 0 {
        Seq::empty()
    } else {
        yaml_escape_char(s[0]) + yaml_escape(s.drop_first())
    }
}

/// The text that escaped text `s` stands for: a backslash and the
/// character after it stand for that character.
pub open spec fn yaml_unescape(s: Seq<char>) -> Seq<char>
    decreases s.len(),
{
    if s.len() == 0 {
        Seq::empty()
    } else if s[0] == '\\' && s.len() >= 2 {
        seq![s[1]] + yaml_unescape(s.skip(2))
    } else {
        seq![s[0]] + yaml_unescape(s.drop_first())
    }
}

pub proof fn lemma_yaml_escape_concat(a: Seq<char>, b: Seq<char>)
    ensures
        yaml_escape(a + b) == yaml_escape(a) + yaml_escape(b),
    decreases a.len(),
{
    if a.len() > 0 {
        assert((a + b).drop_first() =~= a.drop_first() + b);
        lemma_yaml_escape_concat(a.drop_first(), b);
        assert((a + b)[0] == a[0]);
    } else {
        assert(a + b =~= b);
    }
}

/// Unescaping gives back the escaped text.
pub proof fn lemma_yaml_unescape_escape(s: Seq<char>)
    ensures
        yaml_unescape(yaml_escape(s)) == s,
    decreases s.len(),
{
    if s.len() > 0 {
        lemma_yaml_unescape_escape(s.drop_first());
        let e = yaml_escape(s);
        let r = yaml_escape(s.drop_first());
        let c = s[0];
        if c == '"' || c == '\\' {
            assert(e =~= seq!['\\', c] + r);
            assert(e.skip(2) =~= r);
            assert(yaml_unescape(e) == seq![c] + yaml_unescape(r));
        } else {
            assert(e =~= seq![c] + r);
            assert(e.drop_first() =~= r);
            assert(yaml_unescape(e) == seq![c] + yaml_unescape(r));
        }
        assert(seq![c] + s.drop_first() =~= s);
    }
}

/// Escaping adds no newline.
pub proof fn lemma_yaml_escape_no_newline(s: Seq<char>)
    requires
        forall|i: int| 0 <= i < s.len() ==> s[i] != '\n',
    ensures
        forall|i: int| 0 <= i < yaml_escape(s).len() ==> yaml_escape(s)[i] != '\n',
    decreases s.len(),
{
    if s.len() > 0 {
        assert forall|i: int| 0 <= i < s.drop_first().len() implies s.drop_first()[i] != '\n' by {
            assert(s.drop_first()[i] == s[i + 1]);
        }
        lemma_yaml_escape_no_newline(s.drop_first());
        let h = yaml_escape_char(s[0]);
        let r = yaml_escape(s.drop_first());
        assert forall|i: int| 0 <= i < (h + r).len() implies (h + r)[i] != '\n' by {
            if i < h.len() {
                assert(h[i] == s[0] || h[i] == '\\');
            } else {
                assert((h + r)[i] == r[i - h.len()]);
            }
        }
    }
}

/// A line `prefix` + `v` (escaped) + `"` ending in a newline.
pub open spec fn quoted_line(prefix: Seq<char>, v: Seq<char>) -> Seq<char> {
    prefix + yaml_escape(v) + "\"\n"@
}

/// Appends `s` escaped for a YAML double-quoted string.
pub fn push_yaml_escaped(o: &mut Vec<char>, s: &String)
    ensures
        final(o)@ == old(o)@ + yaml_escape(s@),
{
    let cs = chars_of(s.as_str());
    let ghost base = o@;
    let mut i: usize = 0;
    assert(cs@.take(0) =~= Seq::<char>::empty());
    while i < cs.len()
        invariant
            i <= cs@.len(),
            cs@ == s@,
            o@ == base + yaml_escape(cs@.take(i as int)),
        decreases cs.len() - i,
    {
        let c = cs[i];
        if c == '"' || c == '\\' {
            o.push('\\');
        }
        o.push(c);
        proof {
            lemma_yaml_escape_concat(cs@.take(i as int), seq![c]);
            assert(cs@.take(i + 1) =~= cs@.take(i as int) + seq![c]);
            assert(seq![c].drop_first() =~= Seq::<char>::empty());
            assert(yaml_escape(seq![c]) == yaml_escape_char(c) + yaml_escape(Seq::<char>::empty()));
            assert(yaml_escape(seq![c]) =~= yaml_escape_char(c));
        }
        i = i + 1;
        assert(o@ =~= base + yaml_escape(cs@.take(i as int)));
    }
    assert(cs@.take(cs@.len() as int) =~= cs@);
}

/// The text that escaped characters stand for.
pub fn yaml_unescape_chars(s: &[char]) -> (r: Vec<char>)
    ensures
        r@ == yaml_unescape(s@),
{
    let mut o: Vec<char> = Vec::new();
    let mut i: usize = 0;
    assert(s@.skip(0) =~= s@);
    while i < s.len()
        invariant
            i <= s@.len(),
            o@ + yaml_unescape(s@.skip(i as int)) == yaml_unescape(s@),
        decreases s.len() - i,
    {
        let ghost t = s@.skip(i as int);
        assert(t[0] == s@[i as int]);
        if s[i] == '\\' && i + 1 < s.len() {
            assert(t[1] == s@[i + 1]);
            assert(t.skip(2) =~= s@.skip(i + 2));
            o.push(s[i + 1]);
            i = i + 2;
        } else {
            assert(t.drop_first() =~= s@.skip(i + 1));
            o.push(s[i]);
            i = i + 1;
        }
    }
    assert(s@.skip(i as int) =~= Seq::<char>::empty());
    assert(o@ + Seq::<char>::empty() =~= o@);
    o
}

pub open spec fn topics_part(topics: Seq<String>) -> Seq<char> {
    if topics.len() > 0 {
        "topics:\n"@ + topics_yaml(topics)
    } else {
        Seq::empty()
    }
}

pub open spec fn version_part(version: Option<i64>) -> Seq<char> {
    match version {
        Some(v) => "version: "@ + i64_text(v) + "\n"@,
        None => Seq::empty(),
    }
}

pub open spec fn updated_part(updated: Option<Seq<char>>) -> Seq<char> {
    match updated {
        Some(u) => quoted_line("updated_at: \""@, u),
        None => Seq::empty(),
    }
}

/// The lines between the two `---` fences.
pub open spec fn yaml_body(
    id: Seq<char>,
    title: Seq<char>,
    topics: Seq<String>,
    version: Option<i64>,
    updated: Option<Seq<char>>,
) -> Seq<char> {
    quoted_line("slab_id: \""@, id) + quoted_line("title: \""@, title) + topics_part(topics)
        + version_part(version) + updated_part(updated)
}

pub open spec fn opt_str_view(o: Option<String>) -> Option<Seq<char>> {
    match o {
        Some(s) => Some(s@),
        None => None,
    }
}

/// The frontmatter block, fences included.
pub open spec fn yaml_of(fm: Frontmatter) -> Seq<char> {
    "---\n"@ + yaml_body(fm.slab_id@, fm.title@, fm.topics@, fm.version, opt_str_view(fm.updated_at))
        + "---\n"@
}

/// Appends the decimal text of a signed integer.
pub fn push_i64(out: &mut Vec<char>, v: i64)
    ensures
        final(out)@ == old(out)@ + i64_text(v),
{
    if v < 0 {
        out.push('-');
        let m: u64 = if v == i64::MIN {
            9223372036854775808u64
        } else {
            (-v) as u64
        };
        push_decimal(out, m);
        assert(final(out)@ =~= old(out)@ + i64_text(v));
    } else {
        push_decimal(out, v as u64);
    }
}

/// Appends the characters of a `String`.
pub fn push_str(out: &mut Vec<char>, s: &String)
    ensures
        final(out)@ == old(out)@ + s@,
{
    let cs = chars_of(s.as_str());
    push_all(out, cs.as_slice());
}

/// Appends `prefix` + `v` + `"` and a newline.
pub fn push_quoted_line(o: &mut Vec<char>, prefix: &str, v: &String)
    ensures
        final(o)@ == old(o)@ + quoted_line(prefix@, v@),
{
    push_lit(o, prefix);
    push_yaml_escaped(o, v);
    push_lit(o, "\"\n");
    assert(final(o)@ =~= old(o)@ + quoted_line(prefix@, v@));
}

pub fn push_topics(o: &mut Vec<char>, topics: &Vec<String>)
    ensures
        final(o)@ == old(o)@ + topics_part(topics@),
{
    if topics.len() == 0 {
        assert(final(o)@ =~= old(o)@ + topics_part(topics@));
        return ;
    }
    push_lit(o, "topics:\n");
    let ghost base = o@;
    let mut i: usize = 0;
    assert(topics@.take(0) =~= Seq::<String>::empty());
    assert(o@ =~= base + topics_yaml(topics@.take(0)));
    while i < topics.len()
        invariant
            i <= topics@.len(),
            o@ == base + topics_yaml(topics@.take(i as int)),
        decreases topics.len() - i,
    {
        push_quoted_line(o, "  - \"", &topics[i]);
        assert(topics@.take(i + 1).drop_last() =~= topics@.take(i as int));
        i = i + 1;
        assert(o@ =~= base + topics_yaml(topics@.take(i as int)));
    }
    assert(topics@.take(topics@.len() as int) =~= topics@);
    assert(final(o)@ =~= old(o)@ + topics_part(topics@));
}

pub fn push_version(o: &mut Vec<char>, version: Option<i64>)
    ensures
        final(o)@ == old(o)@ + version_part(version),
{
    if let Some(v) = version {
        push_lit(o, "version: ");
        push_i64(o, v);
        push_lit(o, "\n");
    }
    assert(final(o)@ =~= old(o)@ + version_part(version));
}

impl Frontmatter {
    /// The frontmatter block written at the top of a post file.
    pub fn to_yaml(&self) -> (y: String)
        ensures
            y@ == yaml_of(*self),
    {
        let mut o: Vec<char> = Vec::new();
        push_lit(&mut o, "---\n");
        let ghost p0 = o@;
        push_quoted_line(&mut o, "slab_id: \"", &self.slab_id);
        push_quoted_line(&mut o, "title: \"", &self.title);
        push_topics(&mut o, &self.topics);
        push_version(&mut o, self.version);
        let ghost p4 = o@;
        if let Some(u) = &self.updated_at {
            push_quoted_line(&mut o, "updated_at: \"", u);
        }
        let ghost p5 = o@;
        assert(p5 =~= p4 + updated_part(opt_str_view(self.updated_at)));
        let ghost b = yaml_body(
            self.slab_id@,
            self.title@,
            self.topics@,
            self.version,
            opt_str_view(self.updated_at),
        );
        assert(p5 =~= p0 + b);
        push_lit(&mut o, "---\n");
        assert(o@ =~= yaml_of(*self));
        string_of(o.as_slice())
    }
}

// ---------------------------------------------------------------------
// Reading post files
/// The text after the closing `---` line of a leading
/// frontmatter block; the whole text when there is none.
pub open spec fn strip_spec(c: Seq<char>) -> Seq<char> {
    let fence = "---\n"@;
    if starts_with(c, fence) {
        match find_from(c, fence, fence.len() as int) {
            Some(j) => c.skip(j + fence.len()),
            None => c,
        }
    } else {
        c
    }
}

/// Strips a leading frontmatter block, returning the body.
pub fn strip_frontmatter(content: &str) -> (r: String)
    ensures
        r@ == strip_spec(content@),
{
    let c = chars_of(content);
    let fence = chars_of("---\n");
    if starts_with_chars(c.as_slice(), fence.as_slice()) {
        match find_chars(c.as_slice(), fence.as_slice(), fence.len()) {
            Some(j) => {
                proof {
                    crate::text::lemma_find_from_props(c@, fence@, fence@.len() as int);
                }
                assert(j + fence.len() <= c.len());
                let body = slice_chars(c.as_slice(), j + fence.len(), c.len());
                assert(body@ =~= c@.skip(j + fence@.len()));
                return string_of(body.as_slice());
            },
            None => {},
        }
    }
    string_of(c.as_slice())
}

/// `s` with leading `"` characters removed.
pub open spec fn trim_quotes_start(s: Seq<char>) -> Seq<char>
    decreases s.len(),
{
    if s.len() > 0 && s[0] == '"' {
        trim_quotes_start(s.drop_first())
    } else {
        s
    }
}

/// `s` with trailing `"` characters removed.
pub open spec fn trim_quotes_end(s: Seq<char>) -> Seq<char>
    decreases s.len(),
{
    if s.len() > 0 && s.last() == '"' {
        trim_quotes_end(s.drop_last())
    } else {
        s
    }
}

/// `trim_matches('"')`.
pub open spec fn trim_quotes(s: Seq<char>) -> Seq<char> {
    trim_quotes_end(trim_quotes_start(s))
}

/// The value of a frontmatter field: a double-quoted string is unquoted
/// and unescaped; other text has any `"` at either end removed.
pub open spec fn field_value(t: Seq<char>) -> Seq<char> {
    if t.len() >= 2 && t[0] == '"' && t.last() == '"' {
        yaml_unescape(t.subrange(1, t.len() - 1))
    } else {
        trim_quotes(t)
    }
}

/// The id named by a frontmatter line `slab_id: ...`, if non-empty.
pub open spec fn id_of_line(line: Seq<char>) -> Option<Seq<char>> {
    let key = "slab_id:"@;
    if starts_with(line, key) {
        let id = field_value(trim(line.skip(key.len() as int)));
        if id.len() > 0 {
            Some(id)
        } else {
            None
        }
    } else {
        None
    }
}

/// The first line of `s` (as `str::lines` yields them) that names an id.
pub open spec fn scan_lines(s: Seq<char>) -> Option<Seq<char>>
    decreases s.len(),
{
    if s.len() == 0 {
        None
    } else {
        match char_index(s, '\n') {
            None => id_of_line(s),
            Some(i) => {
                proof {
                    crate::from_delta::lemma_char_index(s, '\n');
                }
                let raw = s.take(i);
                let line = if raw.len() > 0 && raw.last() == '\r' {
                    raw.drop_last()
                } else {
                    raw
                };
                match id_of_line(line) {
                    Some(id) => Some(id),
                    None => scan_lines(s.skip(i + 1)),
                }
            },
        }
    }
}

/// The `slab_id` named in a leading frontmatter block.
pub open spec fn slab_id_spec(c: Seq<char>) -> Option<Seq<char>> {
    let fence = "---\n"@;
    if starts_with(c, fence) {
        match find_from(c, fence, fence.len() as int) {
            Some(j) => scan_lines(c.subrange(fence.len() as int, j)),
            None => None,
        }
    } else {
        None
    }
}

/// `trim_matches('"')` on characters.
pub fn trim_quotes_chars(s: &[char]) -> (r: Vec<char>)
    ensures
        r@ == trim_quotes(s@),
{
    let mut lo: usize = 0;
    assert(s@.skip(0) =~= s@);
    while lo < s.len() && s[lo] == '"'
        invariant
            lo <= s@.len(),
            trim_quotes_start(s@) == trim_quotes_start(s@.skip(lo as int)),
        decreases s.len() - lo,
    {
        assert(s@.skip(lo as int).drop_first() =~= s@.skip(lo + 1));
        lo = lo + 1;
    }
    let ghost t = s@.skip(lo as int);
    let mut hi: usize = s.len();
    assert(s@.subrange(lo as int, hi as int) =~= t);
    while hi > lo && s[hi - 1] == '"'
        invariant
            lo <= hi <= s@.len(),
            trim_quotes_end(t) == trim_quotes_end(s@.subrange(lo as int, hi as int)),
        decreases hi,
    {
        assert(s@.subrange(lo as int, hi as int).drop_last() =~= s@.subrange(lo as int, hi - 1));
        hi = hi - 1;
    }
    slice_chars(s, lo, hi)
}

/// The id that a frontmatter line `slab_id: ...` names, if non-empty.
pub fn line_slab_id(line: &[char]) -> (r: Option<Vec<char>>)
    ensures
        r matches Some(v) ==> id_of_line(line@) == Some(v@),
        r is None ==> id_of_line(line@) is None,
{
    let key = chars_of("slab_id:");
    if !starts_with_chars(line, key.as_slice()) {
        return None;
    }
    let rest = slice_chars(line, key.len(), line.len());
    assert(rest@ =~= line@.skip(key@.len() as int));
    let t = trim_chars(rest.as_slice());
    let id = if t.len() >= 2 && t[0] == '"' && t[t.len() - 1] == '"' {
        let inner = slice_chars(t.as_slice(), 1, t.len() - 1);
        yaml_unescape_chars(inner.as_slice())
    } else {
        trim_quotes_chars(t.as_slice())
    };
    if id.len() > 0 {
        Some(id)
    } else {
        None
    }
}

/// Reads the `slab_id` out of a file's frontmatter.
pub fn parse_frontmatter_slab_id(content: &str) -> (r: Option<String>)
    ensures
        r matches Some(v) ==> slab_id_spec(content@) == Some(v@),
        r is None ==> slab_id_spec(content@) is None,
{
    let c = chars_of(content);
    let fence = chars_of("---\n");
    if !starts_with_chars(c.as_slice(), fence.as_slice()) {
        return None;
    }
    let end = match find_chars(c.as_slice(), fence.as_slice(), fence.len()) {
        Some(j) => j,
        None => {
            return None;
        },
    };
    proof {
        crate::text::lemma_find_from_props(c@, fence@, fence@.len() as int);
    }
    let fm = slice_chars(c.as_slice(), fence.len(), end);
    assert(slab_id_spec(content@) == scan_lines(fm@));
    let mut pos: usize = 0;
    assert(fm@.skip(0) =~= fm@);
    while pos < fm.len()
        invariant
            pos <= fm@.len(),
            slab_id_spec(content@) == scan_lines(fm@),
            scan_lines(fm@) == scan_lines(fm@.skip(pos as int)),
        decreases fm.len() - pos,
    {
        let mut j: usize = pos;
        while j < fm.len() && fm[j] != '\n'
            invariant
                pos <= j <= fm@.len(),
                forall|k: int| pos <= k < j ==> fm@[k] != '\n',
            decreases fm.len() - j,
        {
            j = j + 1;
        }
        let ghost rest = fm@.skip(pos as int);
        proof {
            lemma_char_index_at(rest, '\n', j - pos);
        }
        if j == fm.len() {
            assert(rest =~= fm@.subrange(pos as int, j as int));
            let line = slice_chars(fm.as_slice(), pos, j);
            return match line_slab_id(line.as_slice()) {
                Some(v) => Some(string_of(v.as_slice())),
                None => None,
            };
        }
        let mut e: usize = j;
        if j > pos && fm[j - 1] == '\r' {
            e = j - 1;
        }
        let line = slice_chars(fm.as_slice(), pos, e);
        assert(rest.take(j - pos) =~= fm@.subrange(pos as int, j as int));
        assert(e < j ==> fm@.subrange(pos as int, j as int).drop_last() =~= line@);
        assert(e == j ==> fm@.subrange(pos as int, j as int) =~= line@);
        match line_slab_id(line.as_slice()) {
            Some(v) => {
                return Some(string_of(v.as_slice()));
            },
            None => {},
        }
        assert(rest.skip(j - pos + 1) =~= fm@.skip(j + 1));
        pos = j + 1;
    }
    None
}

// ---------------------------------------------------------------------
// File names
/// Characters not allowed in file names become `-`.
pub open spec fn sanitize_char(c: char) -> char {
    if c == '/' || c == '\\' || c == ':' || c == '*' || c == '?' || c == '"' || c == '<' || c
        == '>' || c == '|' {
        '-'
    } else {
        c
    }
}

/// A name made safe as a file name: forbidden characters replaced,
/// whitespace trimmed.
pub open spec fn sanitize_spec(name: Seq<char>) -> Seq<char> {
    trim(name.map_values(|c: char| sanitize_char(c)))
}

proof fn lemma_trim_start_first(s: Seq<char>)
    ensures
        trim_start(s).len() > 0 ==> !is_ws(trim_start(s)[0]),
        trim_start(s).len() <= s.len(),
    decreases s.len(),
{
    if s.len() > 0 && is_ws(s[0]) {
        lemma_trim_start_first(s.drop_first());
    }
}

proof fn lemma_trim_end_last(s: Seq<char>)
    ensures
        trim_end(s).len() > 0 ==> !is_ws(trim_end(s).last()),
    decreases s.len(),
{
    if s.len() > 0 && is_ws(s.last()) {
        lemma_trim_end_last(s.drop_last());
    }
}

/// Trimming twice is trimming once, and never lengthens the text.
proof fn lemma_trim_idem(s: Seq<char>)
    ensures
        trim(trim(s)) == trim(s),
        trim(s).len() <= s.len(),
{
    let a = trim_start(s);
    lemma_trim_start_first(s);
    lemma_trim_end_last(a);
    lemma_trim_end_take(a);
    let t = trim(s);
    assert(t == a.take(trim_end_len(a)));
    if t.len() > 0 {
        assert(t[0] == a[0]);
        assert(trim_start(t) == t);
        assert(trim_end(t) == t);
    } else {
        assert(trim_start(t) == t);
        assert(trim_end(t) == t);
    }
}

/// A sanitized name holds none of `/ \ : * ? " < > |`, has no
/// whitespace at either end, is no longer than the name, and sanitizing
/// it again leaves it unchanged.
pub proof fn lemma_sanitize_laws(name: Seq<char>)
    ensures
        ({
            let r = sanitize_spec(name);
            &&& forall|i: int|
                0 <= i < r.len() ==> r[i] != '/' && r[i] != '\\' && r[i] != ':' && r[i] != '*'
                    && r[i] != '?' && r[i] != '"' && r[i] != '<' && r[i] != '>' && r[i] != '|'
            &&& trim(r) == r
            &&& r.len() <= name.len()
            &&& sanitize_spec(r) == r
        }),
{
    let m = name.map_values(|c: char| sanitize_char(c));
    let r = sanitize_spec(name);
    lemma_trim_idem(m);
    lemma_trim_start_skip(m);
    lemma_trim_end_take(trim_start(m));
    let k = trim_start_len(m);
    assert forall|i: int| 0 <= i < r.len() implies r[i] == m[k + i] by {
        assert(r[i] == trim_start(m)[i]);
    }
    assert forall|i: int| 0 <= i < r.len() implies sanitize_char(r[i]) == r[i] by {
        assert(r[i] == m[k + i]);
        assert(m[k + i] == sanitize_char(name[k + i]));
    }
    assert(r.map_values(|c: char| sanitize_char(c)) =~= r);
}

/// Makes a post or topic name usable as a file name.
pub fn sanitize_filename(name: &str) -> (r: String)
    ensures
        r@ == sanitize_spec(name@),
        forall|i: int| 0 <= i < r@.len() ==> r@[i] != '/' && r@[i] != '\\' && r@[i] != ':'
            && r@[i] != '*' && r@[i] != '?' && r@[i] != '"' && r@[i] != '<' && r@[i] != '>'
            && r@[i] != '|',
{
    let cs = chars_of(name);
    let mut m: Vec<char> = Vec::new();
    let mut i: usize = 0;
    while i < cs.len()
        invariant
            i <= cs@.len(),
            m@ == cs@.take(i as int).map_values(|c: char| sanitize_char(c)),
        decreases cs.len() - i,
    {
        let c = cs[i];
        let d = if c == '/' || c == '\\' || c == ':' || c == '*' || c == '?' || c == '"' || c
            == '<' || c == '>' || c == '|' {
            '-'
        } else {
            c
        };
        m.push(d);
        i = i + 1;
        assert(m@ =~= cs@.take(i as int).map_values(|c: char| sanitize_char(c)));
    }
    assert(cs@.take(cs@.len() as int) =~= cs@);
    let t = trim_chars(m.as_slice());
    proof {
        crate::text::lemma_trim_start_skip(m@);
        crate::text::lemma_trim_end_take(crate::text::trim_start(m@));
        let ts = crate::text::trim_start(m@);
        assert forall|k: int| 0 <= k < t@.len() implies t@[k] == m@[k + crate::text::trim_start_len(m@)] by {
            assert(t@[k] == ts[k]);
        }
    }
    string_of(t.as_slice())
}

// ---------------------------------------------------------------------
// Content hashes
/// SHA-256 digest of the UTF-8 encoding of `s`.
pub uninterp spec fn sha256_utf8(s: Seq<char>) -> Seq<u8>;

/// `Sha256::digest` (sha2) of the string's UTF-8 bytes: the named digest,
/// which is 32 bytes long.
#[verifier::external_body]
fn sha256_digest(content: &str) -> (d: Vec<u8>)
    ensures
        d@ == sha256_utf8(content@),
        d@.len() == 32,
{
    Sha256::digest(content.as_bytes()).to_vec()
}

/// Lowercase hexadecimal text of bytes, two digits each.
pub open spec fn hex_text(bs: Seq<u8>) -> Seq<char>
    decreases bs.len(),
{
    if bs.len() == 0 {
        Seq::empty()
    } else {
        hex_text(bs.drop_last()) + seq![
            crate::json::hex_digit((bs.last() / 16) as int),
            crate::json::hex_digit((bs.last() % 16) as int),
        ]
    }
}

pub proof fn lemma_hex_text_len(bs: Seq<u8>)
    ensures
        hex_text(bs).len() == 2 * bs.len(),
    decreases bs.len(),
{
    if bs.len() > 0 {
        lemma_hex_text_len(bs.drop_last());
    }
}

/// The content hash recorded for a file: hex of its SHA-256 digest.
pub open spec fn content_hash(s: Seq<char>) -> Seq<char> {
    hex_text(sha256_utf8(s))
}

/// The lowercase hex SHA-256 of the text's UTF-8 bytes.
pub fn hash_content(content: &str) -> (h: String)
    ensures
        h@ == content_hash(content@),
        h@.len() == 64,
{
    let d = sha256_digest(content);
    let mut o: Vec<char> = Vec::new();
    let mut i: usize = 0;
    while i < d.len()
        invariant
            i <= d@.len(),
            o@ == hex_text(d@.take(i as int)),
        decreases d.len() - i,
    {
        let b = d[i];
        o.push(crate::json::hex_char((b / 16) as u32));
        o.push(crate::json::hex_char((b % 16) as u32));
        assert(d@.take(i + 1).drop_last() =~= d@.take(i as int));
        i = i + 1;
        assert(o@ =~= hex_text(d@.take(i as int)));
    }
    assert(d@.take(d@.len() as int) =~= d@);
    proof {
        lemma_hex_text_len(d@);
    }
    string_of(o.as_slice())
}

// ---------------------------------------------------------------------
// Sync status
/// Sync status of a file.
#[derive(Debug, Clone, Copy, PartialEq, Eq, Structural)]
pub enum FileStatus {
    /// Local matches remote (clean).
    Clean,
    /// Local file modified vs what was pulled.
    Modified,
    /// New local file not yet pushed.
    Added,
    /// Remote post has no local file (deleted locally).
    Deleted,
    /// Both local and remote changed since last sync.
    Conflict,
}

pub open spec fn status_marker(s: FileStatus) -> Seq<char> {
    match s {
        FileStatus::Clean => " "@,
        FileStatus::Modified => "M"@,
        FileStatus::Added => "A"@,
        FileStatus::Deleted => "D"@,
        FileStatus::Conflict => "C"@,
    }
}

impl FileStatus {
    /// The one-letter marker of the status (its text form).
    pub fn marker(&self) -> (m: &'static str)
        ensures
            m@ == status_marker(*self),
    {
        match self {
            FileStatus::Clean => " ",
            FileStatus::Modified => "M",
            FileStatus::Added => "A",
            FileStatus::Deleted => "D",
            FileStatus::Conflict => "C",
        }
    }
}

/// Status of a tracked file: deleted when it is gone, clean when its
/// content hashes to the recorded local hash, modified otherwise.
pub open spec fn tracked_status_spec(local_hash: Seq<char>, current: Option<Seq<char>>) -> FileStatus {
    match current {
        None => FileStatus::Deleted,
        Some(c) => if content_hash(c) == local_hash {
            FileStatus::Clean
        } else {
            FileStatus::Modified
        },
    }
}

/// Status of a tracked file, given its current content (`None` when the
/// file does not exist).
pub fn tracked_status(state: &PostState, current: Option<&str>) -> (st: FileStatus)
    ensures
        st == tracked_status_spec(state.local_content_hash@, match current {
            Some(c) => Some(c@),
            None => None,
        }),
{
    match current {
        None => FileStatus::Deleted,
        Some(c) => {
            let h = hash_content(c);
            if h == state.local_content_hash {
                FileStatus::Clean
            } else {
                FileStatus::Modified
            }
        },
    }
}

/// Path (relative to the vault) of an Inbox entry named `name` that is a
/// Markdown file.
pub open spec fn inbox_path_spec(name: Seq<char>) -> Option<Seq<char>> {
    if crate::paths::extension_of_name(name) == Some("md"@) {
        Some(crate::paths::path_join("Inbox"@, name))
    } else {
        None
    }
}

/// The vault-relative path of an Inbox directory entry, if it is a Markdown
/// file.
pub fn inbox_entry_path(name: &str) -> (r: Option<String>)
    ensures
        r matches Some(p) ==> inbox_path_spec(name@) == Some(p@),
        r is None ==> inbox_path_spec(name@) is None,
{
    let nc = chars_of(name);
    if crate::paths::has_md_extension(nc.as_slice()) {
        Some(crate::paths::path_join_str("Inbox", name))
    } else {
        None
    }
}

/// `a < b` for strings (`String`'s order: by code point, then length).
pub open spec fn str_lt(a: Seq<char>, b: Seq<char>) -> bool
    decreases a.len(),
{
    if a.len() == 0 {
        b.len() > 0
    } else if b.len() == 0 {
        false
    } else if a[0] != b[0] {
        (a[0] as int) < (b[0] as int)
    } else {
        str_lt(a.drop_first(), b.drop_first())
    }
}

pub proof fn lemma_str_lt_irrefl(a: Seq<char>)
    ensures
        !str_lt(a, a),
    decreases a.len(),
{
    if a.len() > 0 {
        lemma_str_lt_irrefl(a.drop_first());
    }
}

pub proof fn lemma_str_lt_trans(a: Seq<char>, b: Seq<char>, c: Seq<char>)
    requires
        str_lt(a, b),
        str_lt(b, c),
    ensures
        str_lt(a, c),
    decreases a.len(),
{
    if a.len() > 0 && b.len() > 0 && c.len() > 0 && a[0] == b[0] && b[0] == c[0] {
        lemma_str_lt_trans(a.drop_first(), b.drop_first(), c.drop_first());
    }
}

pub proof fn lemma_str_lt_total(a: Seq<char>, b: Seq<char>)
    ensures
        str_lt(a, b) || str_lt(b, a) || a == b,
    decreases a.len(),
{
    if a.len() > 0 && b.len() > 0 {
        if a[0] == b[0] {
            lemma_str_lt_total(a.drop_first(), b.drop_first());
            if a.drop_first() == b.drop_first() {
                assert(a =~= seq![a[0]] + a.drop_first());
                assert(b =~= seq![b[0]] + b.drop_first());
            }
        } else {
            assert((a[0] as int) != (b[0] as int));
        }
    } else if a.len() == 0 && b.len() == 0 {
        assert(a =~= b);
    }
}

/// `a < b`.
pub fn chars_less(a: &[char], b: &[char]) -> (r: bool)
    ensures
        r == str_lt(a@, b@),
{
    let mut i: usize = 0;
    assert(a@.skip(0) =~= a@);
    assert(b@.skip(0) =~= b@);
    while i < a.len() && i < b.len() && a[i] == b[i]
        invariant
            i <= a@.len(),
            i <= b@.len(),
            str_lt(a@, b@) == str_lt(a@.skip(i as int), b@.skip(i as int)),
        decreases a.len() - i,
    {
        assert(a@.skip(i as int).drop_first() =~= a@.skip(i + 1));
        assert(b@.skip(i as int).drop_first() =~= b@.skip(i + 1));
        i = i + 1;
    }
    if i == a.len() {
        i < b.len()
    } else if i == b.len() {
        false
    } else {
        assert(a@.skip(i as int)[0] == a@[i as int]);
        assert(b@.skip(i as int)[0] == b@[i as int]);
        a[i] < b[i]
    }
}

pub open spec fn entry_key(e: (String, FileStatus)) -> Seq<char> {
    e.0@
}

/// Where an entry with key `k` goes in `s`: after every entry whose key is
/// not greater than `k`.
pub open spec fn insert_pos(s: Seq<(String, FileStatus)>, k: Seq<char>) -> int
    decreases s.len(),
{
    if s.len() == 0 {
        0
    } else if str_lt(k, entry_key(s[0])) {
        0
    } else {
        1 + insert_pos(s.drop_first(), k)
    }
}

/// Stable sort by path (insertion sort).
pub open spec fn sort_spec(s: Seq<(String, FileStatus)>) -> Seq<(String, FileStatus)>
    decreases s.len(),
{
    if s.len() == 0 {
        s
    } else {
        let r = sort_spec(s.drop_last());
        r.insert(insert_pos(r, entry_key(s.last())), s.last())
    }
}

/// Keys in non-decreasing order.
pub open spec fn sorted_by_key(s: Seq<(String, FileStatus)>) -> bool {
    forall|i: int, j: int| 0 <= i < j < s.len() ==> !str_lt(entry_key(s[j]), entry_key(s[i]))
}

pub proof fn lemma_insert_pos(s: Seq<(String, FileStatus)>, k: Seq<char>)
    ensures
        0 <= insert_pos(s, k) <= s.len(),
        forall|i: int| 0 <= i < insert_pos(s, k) ==> !str_lt(k, entry_key(s[i])),
        insert_pos(s, k) < s.len() ==> str_lt(k, entry_key(s[insert_pos(s, k)])),
    decreases s.len(),
{
    if s.len() > 0 && !str_lt(k, entry_key(s[0])) {
        lemma_insert_pos(s.drop_first(), k);
        assert forall|i: int| 0 <= i < insert_pos(s, k) implies !str_lt(k, entry_key(s[i])) by {
            if i > 0 {
                assert(s[i] == s.drop_first()[i - 1]);
            }
        }
    }
}

/// Inserting at `insert_pos` keeps a sorted sequence sorted.
pub proof fn lemma_insert_sorted(s: Seq<(String, FileStatus)>, e: (String, FileStatus))
    requires
        sorted_by_key(s),
    ensures
        sorted_by_key(s.insert(insert_pos(s, entry_key(e)), e)),
{
    let k = entry_key(e);
    let p = insert_pos(s, k);
    lemma_insert_pos(s, k);
    let r = s.insert(p, e);
    assert forall|i: int, j: int| 0 <= i < j < r.len() implies !str_lt(
        entry_key(r[j]),
        entry_key(r[i]),
    ) by {
        if j < p {
            assert(r[i] == s[i] && r[j] == s[j]);
        } else if j == p {
            assert(r[j] == e && r[i] == s[i]);
        } else if i > p {
            assert(r[i] == s[i - 1] && r[j] == s[j - 1]);
        } else if i == p {
            assert(r[i] == e && r[j] == s[j - 1]);
            if str_lt(entry_key(s[j - 1]), k) {
                if j - 1 == p {
                    lemma_str_lt_trans(entry_key(s[p]), k, entry_key(s[p]));
                    lemma_str_lt_irrefl(entry_key(s[p]));
                } else {
                    assert(!str_lt(entry_key(s[j - 1]), entry_key(s[p])));
                    lemma_str_lt_trans(entry_key(s[j - 1]), k, entry_key(s[p]));
                    assert(sorted_by_key(s));
                    assert(p < j - 1);
                }
            }
        } else {
            assert(r[i] == s[i] && r[j] == s[j - 1]);
        }
    }
}

/// The result of the status sort is ordered by path.
pub proof fn lemma_sort_sorted(s: Seq<(String, FileStatus)>)
    ensures
        sorted_by_key(sort_spec(s)),
    decreases s.len(),
{
    if s.len() > 0 {
        lemma_sort_sorted(s.drop_last());
        lemma_insert_sorted(sort_spec(s.drop_last()), s.last());
    }
}

/// The status sort neither loses nor adds entries.
pub proof fn lemma_sort_permutes(s: Seq<(String, FileStatus)>)
    ensures
        sort_spec(s).to_multiset() == s.to_multiset(),
    decreases s.len(),
{
    broadcast use vstd::seq_lib::group_to_multiset_ensures;
    if s.len() > 0 {
        lemma_sort_permutes(s.drop_last());
        let r = sort_spec(s.drop_last());
        let p = insert_pos(r, entry_key(s.last()));
        lemma_insert_pos(r, entry_key(s.last()));
        vstd::seq_lib::lemma_seq_union_to_multiset_commutative(r.take(p), r.skip(p));
        assert(r =~= r.take(p) + r.skip(p));
        assert(r.insert(p, s.last()) =~= r.take(p) + seq![s.last()] + r.skip(p));
        vstd::seq_lib::lemma_multiset_commutative(r.take(p), seq![s.last()] + r.skip(p));
        vstd::seq_lib::lemma_multiset_commutative(seq![s.last()], r.skip(p));
        vstd::seq_lib::lemma_multiset_commutative(r.take(p) + seq![s.last()], r.skip(p));
        vstd::seq_lib::lemma_multiset_commutative(r.take(p), seq![s.last()]);
        vstd::seq_lib::lemma_multiset_commutative(r.take(p), r.skip(p));
        assert(s =~= s.drop_last().push(s.last()));
    }
}

pub proof fn lemma_insert_pos_at(s: Seq<(String, FileStatus)>, k: Seq<char>, j: int)
    requires
        0 <= j <= s.len(),
        forall|i: int| 0 <= i < j ==> !str_lt(k, entry_key(s[i])),
        j < s.len() ==> str_lt(k, entry_key(s[j])),
    ensures
        insert_pos(s, k) == j,
    decreases j,
{
    if j > 0 {
        assert forall|i: int| 0 <= i < j - 1 implies !str_lt(k, entry_key(s.drop_first()[i])) by {
            assert(s.drop_first()[i] == s[i + 1]);
        }
        lemma_insert_pos_at(s.drop_first(), k, j - 1);
    }
}

/// Orders status entries by path, keeping the order of entries with equal
/// paths.
pub fn sort_by_path(entries: &Vec<(String, FileStatus)>) -> (r: Vec<(String, FileStatus)>)
    ensures
        r@ == sort_spec(entries@),
        sorted_by_key(r@),
{
    let mut out: Vec<(String, FileStatus)> = Vec::new();
    let mut i: usize = 0;
    assert(entries@.take(0) =~= Seq::<(String, FileStatus)>::empty());
    while i < entries.len()
        invariant
            i <= entries@.len(),
            out@ == sort_spec(entries@.take(i as int)),
        decreases entries.len() - i,
    {
        let e = (entries[i].0.clone(), entries[i].1);
        assert(e == entries@[i as int]);
        let key = chars_of(e.0.as_str());
        let mut j: usize = 0;
        while j < out.len() && !chars_less(key.as_slice(), chars_of(out[j].0.as_str()).as_slice())
            invariant
                j <= out@.len(),
                forall|t: int| 0 <= t < j ==> !str_lt(key@, entry_key(out@[t])),
            decreases out.len() - j,
        {
            j = j + 1;
        }
        proof {
            lemma_insert_pos_at(out@, key@, j as int);
            assert(entries@.take(i + 1).drop_last() =~= entries@.take(i as int));
        }
        out.insert(j, e);
        i = i + 1;
    }
    assert(entries@.take(entries@.len() as int) =~= entries@);
    proof {
        lemma_sort_sorted(entries@);
    }
    out
}

// ---------------------------------------------------------------------
// Writing posts
/// What writing a post into the vault stores: the file (its directory and
/// path relative to the vault, and its text) and the state recorded for it.
pub struct PostFile {
    pub rel_dir: String,
    pub rel_path: String,
    pub content: String,
    pub state: PostState,
}

/// Directory name of a post's first topic, or `Uncategorized`.
pub open spec fn topic_dir_spec(topics: Option<Vec<TopicRef>>) -> Seq<char> {
    match topics {
        Some(ts) => if ts@.len() > 0 {
            sanitize_spec(ts@[0].name@)
        } else {
            "Uncategorized"@
        },
        None => "Uncategorized"@,
    }
}

pub open spec fn topic_names(topics: Option<Vec<TopicRef>>) -> Seq<String> {
    match topics {
        Some(ts) => ts@.map_values(|t: TopicRef| t.name),
        None => Seq::empty(),
    }
}

pub open spec fn post_rel_dir(post: Post) -> Seq<char> {
    path_join("Topics"@, topic_dir_spec(post.topics))
}

pub open spec fn post_rel_path(post: Post) -> Seq<char> {
    path_join(post_rel_dir(post), sanitize_spec(post.title@) + ".md"@)
}

/// The Markdown body of a post.
pub open spec fn post_markdown(post: Post) -> Seq<char> {
    match post.content {
        Some(c) => markdown_of(c@),
        None => Seq::empty(),
    }
}

/// The frontmatter written for a post.
pub open spec fn post_yaml(post: Post) -> Seq<char> {
    "---\n"@ + yaml_body(post.id@, post.title@, topic_names(post.topics), post.version, opt_str_view(
        post.updated_at,
    )) + "---\n"@
}

/// The text of a post's file.
pub open spec fn post_file_text(post: Post) -> Seq<char> {
    post_yaml(post) + post_markdown(post)
}

/// Where a post is written and what its file holds: `Topics/<first topic>/<title>.md`
/// (the names made safe as file names; `Uncategorized` without topics),
/// and a file that opens with the `---` fence, the `slab_id` and `title`
/// lines (escaped), then the topics, version and update time, closes the
/// frontmatter with `---` and ends with the Markdown of the post's content.
pub proof fn lemma_post_file_layout(p: Post)
    ensures
        (p.topics matches Some(ts) && ts@.len() > 0) ==> post_rel_path(p) == path_join(
            path_join("Topics"@, sanitize_spec(p.topics->0@[0].name@)),
            sanitize_spec(p.title@) + ".md"@,
        ),
        (p.topics is None || (p.topics matches Some(ts) && ts@.len() == 0)) ==> post_rel_path(p)
            == path_join(path_join("Topics"@, "Uncategorized"@), sanitize_spec(p.title@) + ".md"@),
        post_file_text(p) == "---\n"@ + "slab_id: \""@ + yaml_escape(p.id@) + "\"\n"@ + "title: \""@
            + yaml_escape(p.title@) + "\"\n"@ + topics_part(topic_names(p.topics)) + version_part(
            p.version,
        ) + updated_part(opt_str_view(p.updated_at)) + "---\n"@ + match p.content {
            Some(c) => markdown_of(c@),
            None => Seq::<char>::empty(),
        },
{
    assert(post_file_text(p) =~= "---\n"@ + "slab_id: \""@ + yaml_escape(p.id@) + "\"\n"@
        + "title: \""@ + yaml_escape(p.title@) + "\"\n"@ + topics_part(topic_names(p.topics))
        + version_part(p.version) + updated_part(opt_str_view(p.updated_at)) + "---\n"@
        + post_markdown(p));
}

pub fn clone_opt_string(o: &Option<String>) -> (r: Option<String>)
    ensures
        r == *o,
{
    match o {
        Some(s) => Some(s.clone()),
        None => None,
    }
}

/// The names of a post's topics.
pub fn post_topic_names(topics: &Option<Vec<TopicRef>>) -> (r: Vec<String>)
    ensures
        r@ == topic_names(*topics),
{
    let mut r: Vec<String> = Vec::new();
    if let Some(ts) = topics {
        let mut i: usize = 0;
        while i < ts.len()
            invariant
                i <= ts@.len(),
                r@ == ts@.take(i as int).map_values(|t: TopicRef| t.name),
            decreases ts.len() - i,
        {
            r.push(ts[i].name.clone());
            i = i + 1;
            assert(r@ =~= ts@.take(i as int).map_values(|t: TopicRef| t.name));
        }
        assert(ts@.take(ts@.len() as int) =~= ts@);
    }
    assert(r@ =~= topic_names(*topics));
    r
}

/// The vault file and state record for a post: what writing the post into
/// the vault stores.
pub fn post_file(post: &Post) -> (f: PostFile)
    ensures
        f.rel_dir@ == post_rel_dir(*post),
        f.rel_path@ == post_rel_path(*post),
        f.content@ == post_file_text(*post),
        f.state.slab_id == post.id,
        f.state.path@ == post_rel_path(*post),
        f.state.title == post.title,
        f.state.remote_updated_at == post.updated_at,
        f.state.remote_content_hash@ == content_hash(post_file_text(*post)),
        f.state.local_content_hash@ == content_hash(post_file_text(*post)),
        f.state.version == post.version,
{
    let md: String = match &post.content {
        Some(c) => delta_to_markdown(c),
        None => String::new(),
    };
    let topic_name: String = match &post.topics {
        Some(ts) => if ts.len() > 0 {
            sanitize_filename(ts[0].name.as_str())
        } else {
            crate::to_delta::lit_string("Uncategorized")
        },
        None => crate::to_delta::lit_string("Uncategorized"),
    };
    let filename = sanitize_filename(post.title.as_str());
    let mut fname = chars_of(filename.as_str());
    push_lit(&mut fname, ".md");
    let fname_s = string_of(fname.as_slice());
    let rel_dir = path_join_str("Topics", topic_name.as_str());
    let rel_path = path_join_str(rel_dir.as_str(), fname_s.as_str());
    let fm = Frontmatter {
        slab_id: post.id.clone(),
        title: post.title.clone(),
        topics: post_topic_names(&post.topics),
        version: post.version,
        updated_at: clone_opt_string(&post.updated_at),
    };
    let y = fm.to_yaml();
    let mut full = chars_of(y.as_str());
    push_str(&mut full, &md);
    let content = string_of(full.as_slice());
    let h = hash_content(content.as_str());
    let state = PostState {
        slab_id: post.id.clone(),
        path: rel_path.clone(),
        title: post.title.clone(),
        remote_updated_at: clone_opt_string(&post.updated_at),
        remote_content_hash: h.clone(),
        local_content_hash: h,
        version: post.version,
    };
    PostFile { rel_dir, rel_path, content, state }
}

/// Where, relative to the vault, the text of a post's file as last pulled
/// is kept: `.slab/pulled/<id>.md`, the id made safe as a file name.
pub open spec fn pulled_copy_rel(slab_id: Seq<char>) -> Seq<char> {
    crate::paths::path_join(
        crate::paths::path_join(".slab"@, "pulled"@),
        sanitize_spec(slab_id) + ".md"@,
    )
}

/// The vault-relative path of the copy of a post's file as last pulled.
pub fn pulled_copy_path(slab_id: &str) -> (r: String)
    ensures
        r@ == pulled_copy_rel(slab_id@),
{
    let dir = path_join_str(".slab", "pulled");
    let name = sanitize_filename(slab_id);
    let mut n = chars_of(name.as_str());
    push_lit(&mut n, ".md");
    let ns = string_of(n.as_slice());
    path_join_str(dir.as_str(), ns.as_str())
}

/// A file just written for a post reads as clean.
pub proof fn lemma_written_post_is_clean(post: Post)
    ensures
        tracked_status_spec(content_hash(post_file_text(post)), Some(post_file_text(post)))
            == FileStatus::Clean,
{
}

// ---------------------------------------------------------------------
// Laws of the frontmatter
/// No newline in `s`.
pub open spec fn no_newline(s: Seq<char>) -> bool {
    forall|i: int| 0 <= i < s.len() ==> s[i] != '\n'
}

/// No newline right after a `-`, and no newline first: text in which a
/// `---` line cannot start.
pub open spec fn no_fence_break(s: Seq<char>) -> bool {
    &&& forall|i: int| 1 <= i < s.len() && #[trigger] s[i] == '\n' ==> s[i - 1] != '-'
    &&& s.len() > 0 ==> s[0] != '\n'
}

/// No text field of a frontmatter holds a newline.
pub open spec fn fields_single_line(
    id: Seq<char>,
    title: Seq<char>,
    topics: Seq<String>,
    updated: Option<Seq<char>>,
) -> bool {
    &&& no_newline(id)
    &&& no_newline(title)
    &&& forall|i: int| 0 <= i < topics.len() ==> no_newline(#[trigger] topics[i]@)
    &&& match updated {
        Some(u) => no_newline(u),
        None => true,
    }
}

/// No text field of `fm` holds a newline.
pub open spec fn single_line_fields(fm: Frontmatter) -> bool {
    fields_single_line(fm.slab_id@, fm.title@, fm.topics@, opt_str_view(fm.updated_at))
}

proof fn lemma_nfb_concat(a: Seq<char>, b: Seq<char>)
    requires
        no_fence_break(a),
        no_fence_break(b),
    ensures
        no_fence_break(a + b),
{
    let c = a + b;
    assert forall|i: int| 1 <= i < c.len() && #[trigger] c[i] == '\n' implies c[i - 1] != '-' by {
        if i < a.len() {
            assert(c[i] == a[i] && c[i - 1] == a[i - 1]);
        } else if i == a.len() {
            assert(c[i] == b[0]);
        } else {
            assert(c[i] == b[i - a.len()] && c[i - 1] == b[i - 1 - a.len()]);
        }
    }
    if c.len() > 0 {
        if a.len() > 0 {
            assert(c[0] == a[0]);
        } else {
            assert(c[0] == b[0]);
        }
    }
}

proof fn lemma_line_nfb(s: Seq<char>)
    requires
        s.len() >= 2,
        forall|i: int| 0 <= i < s.len() - 1 ==> s[i] != '\n',
        s[s.len() - 2] != '-',
    ensures
        no_fence_break(s),
{
}

proof fn lemma_no_newline_concat(a: Seq<char>, b: Seq<char>)
    requires
        no_newline(a),
        no_newline(b),
    ensures
        no_newline(a + b),
{
    assert forall|i: int| 0 <= i < (a + b).len() implies (a + b)[i] != '\n' by {
        if i < a.len() {
            assert((a + b)[i] == a[i]);
        } else {
            assert((a + b)[i] == b[i - a.len()]);
        }
    }
}

proof fn lemma_quoted_line_nfb(prefix: Seq<char>, v: Seq<char>)
    requires
        no_newline(prefix),
        no_newline(v),
    ensures
        no_fence_break(quoted_line(prefix, v)),
{
    reveal_strlit("\"\n");
    let s = quoted_line(prefix, v);
    lemma_yaml_escape_no_newline(v);
    lemma_no_newline_concat(prefix, yaml_escape(v));
    let pv = prefix + yaml_escape(v);
    assert(s =~= pv + seq!['"', '\n']);
    assert forall|i: int| 0 <= i < s.len() - 1 implies s[i] != '\n' by {
        if i < pv.len() {
            assert(s[i] == pv[i]);
        }
    }
    lemma_line_nfb(s);
}

proof fn lemma_decimal_shape(n: nat)
    ensures
        decimal(n).len() > 0,
        no_newline(decimal(n)),
        decimal(n).last() != '-',
    decreases n,
{
    if n >= 10 {
        lemma_decimal_shape(n / 10);
        let d = decimal(n / 10);
        assert forall|i: int| 0 <= i < decimal(n).len() implies decimal(n)[i] != '\n' by {
            if i < d.len() {
                assert(decimal(n)[i] == d[i]);
            }
        }
    }
}

proof fn lemma_i64_text_shape(v: i64)
    ensures
        i64_text(v).len() > 0,
        no_newline(i64_text(v)),
        i64_text(v).last() != '-',
{
    if v < 0 {
        lemma_decimal_shape((-v) as nat);
        lemma_no_newline_concat(seq!['-'], decimal((-v) as nat));
    } else {
        lemma_decimal_shape(v as nat);
    }
}

proof fn lemma_topics_yaml_nfb(ts: Seq<String>)
    requires
        forall|i: int| 0 <= i < ts.len() ==> no_newline(#[trigger] ts[i]@),
    ensures
        no_fence_break(topics_yaml(ts)),
    decreases ts.len(),
{
    reveal_strlit("  - \"");
    if ts.len() > 0 {
        assert forall|i: int| 0 <= i < ts.drop_last().len() implies no_newline(
            #[trigger] ts.drop_last()[i]@,
        ) by {
            assert(ts.drop_last()[i] == ts[i]);
        }
        lemma_topics_yaml_nfb(ts.drop_last());
        assert(ts.last() == ts[ts.len() - 1]);
        lemma_quoted_line_nfb("  - \""@, ts.last()@);
        assert(topics_yaml(ts) =~= topics_yaml(ts.drop_last()) + quoted_line(
            "  - \""@,
            ts.last()@,
        ));
        lemma_nfb_concat(topics_yaml(ts.drop_last()), quoted_line("  - \""@, ts.last()@));
    }
}

proof fn lemma_yaml_body_nfb(
    id: Seq<char>,
    title: Seq<char>,
    topics: Seq<String>,
    version: Option<i64>,
    updated: Option<Seq<char>>,
)
    requires
        fields_single_line(id, title, topics, updated),
    ensures
        no_fence_break(yaml_body(id, title, topics, version, updated)),
{
    reveal_strlit("slab_id: \"");
    reveal_strlit("title: \"");
    reveal_strlit("topics:\n");
    reveal_strlit("version: ");
    reveal_strlit("\n");
    reveal_strlit("updated_at: \"");
    lemma_quoted_line_nfb("slab_id: \""@, id);
    lemma_quoted_line_nfb("title: \""@, title);
    let tp = topics_part(topics);
    if topics.len() > 0 {
        lemma_topics_yaml_nfb(topics);
        lemma_line_nfb("topics:\n"@);
        lemma_nfb_concat("topics:\n"@, topics_yaml(topics));
    }
    let vp = version_part(version);
    if let Some(v) = version {
        lemma_i64_text_shape(v);
        let t = i64_text(v);
        lemma_no_newline_concat("version: "@, t);
        let s = "version: "@ + t + "\n"@;
        assert(s =~= ("version: "@ + t) + seq!['\n']);
        assert(s[s.len() - 2] == t.last());
        assert forall|i: int| 0 <= i < s.len() - 1 implies s[i] != '\n' by {
            assert(s[i] == ("version: "@ + t)[i]);
        }
        lemma_line_nfb(s);
    }
    let up = updated_part(updated);
    if let Some(u) = updated {
        lemma_quoted_line_nfb("updated_at: \""@, u);
    }
    let a = quoted_line("slab_id: \""@, id);
    let b = quoted_line("title: \""@, title);
    lemma_nfb_concat(a, b);
    lemma_nfb_concat(a + b, tp);
    lemma_nfb_concat(a + b + tp, vp);
    lemma_nfb_concat(a + b + tp + vp, up);
}

/// In `---\n` + `b` + `---\n` + `body`, the closing fence is the first
/// `---\n` after the opening one when `b` cannot start a fence line.
proof fn lemma_fenced(b: Seq<char>, body: Seq<char>)
    requires
        no_fence_break(b),
    ensures
        ({
            let c = "---\n"@ + b + "---\n"@ + body;
            &&& starts_with(c, "---\n"@)
            &&& find_from(c, "---\n"@, 4) == Some(4 + b.len() as int)
            &&& c.subrange(4, 4 + b.len() as int) == b
            &&& c.skip(8 + b.len() as int) == body
        }),
{
    reveal_strlit("---\n");
    let f = "---\n"@;
    let c = f + b + f + body;
    assert(c.take(4) =~= f);
    assert(c.subrange(4 + b.len() as int, 8 + b.len() as int) =~= f);
    assert forall|k: int| 4 <= k < 4 + b.len() as int implies !crate::text::occurs_at(c, f, k) by {
        if crate::text::occurs_at(c, f, k) {
            assert(c.subrange(k, k + 4)[3] == '\n');
            assert(c.subrange(k, k + 4)[2] == '-');
            assert(c[k + 3] == '\n' && c[k + 2] == '-');
            if k + 3 < 4 + b.len() as int {
                assert(c[k + 3] == b[k - 1]);
                assert(c[k + 2] == b[k - 2]);
            } else {
                assert(c[k + 3] == f[k + 3 - 4 - b.len() as int]);
            }
        }
    }
    crate::text::lemma_find_from_at(c, f, 4, 4 + b.len() as int);
    assert(c.subrange(4, 4 + b.len() as int) =~= b);
    assert(c.skip(8 + b.len() as int) =~= body);
}

/// The closing fence of `yaml_of(fm)` is the first `---\n` after the
/// opening one.
proof fn lemma_yaml_fence(fm: Frontmatter, body: Seq<char>)
    requires
        single_line_fields(fm),
    ensures
        ({
            let c = yaml_of(fm) + body;
            let b = yaml_body(fm.slab_id@, fm.title@, fm.topics@, fm.version, opt_str_view(fm.updated_at));
            &&& starts_with(c, "---\n"@)
            &&& find_from(c, "---\n"@, 4) == Some(4 + b.len() as int)
            &&& c.subrange(4, 4 + b.len() as int) == b
            &&& c.skip(8 + b.len() as int) == body
        }),
{
    let b = yaml_body(fm.slab_id@, fm.title@, fm.topics@, fm.version, opt_str_view(fm.updated_at));
    lemma_yaml_body_nfb(fm.slab_id@, fm.title@, fm.topics@, fm.version, opt_str_view(fm.updated_at));
    lemma_fenced(b, body);
}

/// Stripping the frontmatter of a written file gives back its body
/// (when no frontmatter field holds a newline).
pub proof fn lemma_strip_written(fm: Frontmatter, body: Seq<char>)
    requires
        single_line_fields(fm),
    ensures
        strip_spec(yaml_of(fm) + body) == body,
{
    reveal_strlit("---\n");
    lemma_yaml_fence(fm, body);
}

/// In `---\n` + `slab_id: "id"\n` + `rest` + `---\n` + `body`, no `---\n`
/// starts before the end of the `slab_id` line, and the block that the
/// closing fence ends starts with that line.
#[verifier::spinoff_prover]
proof fn lemma_id_line_before_fence(id: Seq<char>, rest: Seq<char>, body: Seq<char>)
    requires
        no_newline(id),
    ensures
        ({
            let line1 = quoted_line("slab_id: \""@, id);
            let c = "---\n"@ + line1 + rest + "---\n"@ + body;
            find_from(c, "---\n"@, 4) matches Some(j) && j >= 4 + line1.len() && j + 4 <= c.len()
                && c.subrange(
                4,
                j,
            ).take(line1.len() as int) == line1
        }),
{
    reveal_strlit("---\n");
    reveal_strlit("slab_id: \"");
    reveal_strlit("\"\n");
    let f = "---\n"@;
    let line1 = quoted_line("slab_id: \""@, id);
    let c = f + line1 + rest + f + body;
    let l = line1.len() as int;
    let at = 4 + l + rest.len();
    assert(c.subrange(at, at + 4) =~= f);
    assert(crate::text::occurs_at(c, f, at));
    crate::text::lemma_find_from_props(c, f, 4);
    let e = yaml_escape(id);
    lemma_yaml_escape_no_newline(id);
    assert(l == 10 + e.len() + 2);
    assert forall|k: int| 0 <= k < l implies #[trigger] c[4 + k] == line1[k] by {}
    assert(line1[l - 1] == '\n');
    assert(line1[l - 2] == '"');
    assert forall|k: int| 0 <= k < l - 1 implies line1[k] != '\n' by {
        if 10 <= k < 10 + e.len() {
            assert(line1[k] == e[k - 10]);
        }
    }
    assert forall|k: int| 4 <= k < 4 + l implies !crate::text::occurs_at(c, f, k) by {
        if crate::text::occurs_at(c, f, k) {
            let w = c.subrange(k, k + 4);
            assert(w[0] == c[k] && w[1] == c[k + 1] && w[2] == c[k + 2] && w[3] == c[k + 3]);
            assert(w[0] == '-' && w[1] == '-' && w[2] == '-' && w[3] == '\n');
            if k + 3 < 4 + l - 1 {
                assert(c[k + 3] == line1[k + 3 - 4]);
            } else if k + 3 == 4 + l - 1 {
                assert(c[k + 2] == line1[l - 2]);
            } else if k == 4 + l - 1 {
                assert(c[k] == line1[l - 1]);
            } else if k + 1 == 4 + l - 1 {
                assert(c[k + 1] == line1[l - 1]);
            } else {
                assert(c[k + 2] == line1[l - 1]);
            }
        }
    }
    let j = find_from(c, f, 4)->0;
    assert(j >= 4 + l);
    assert(c.subrange(4, j).take(l) =~= line1);
}

/// The `slab_id` read back from text that starts with the frontmatter
/// written for these fields is the id written, whatever the other fields
/// hold, when the id is non-empty and holds no newline.
#[verifier::spinoff_prover]
pub proof fn lemma_slab_id_in(
    id: Seq<char>,
    title: Seq<char>,
    topics: Seq<String>,
    version: Option<i64>,
    updated: Option<Seq<char>>,
    body: Seq<char>,
)
    requires
        no_newline(id),
        id.len() > 0,
    ensures
        slab_id_spec("---\n"@ + yaml_body(id, title, topics, version, updated) + "---\n"@ + body)
            == Some(id),
{
    reveal_strlit("---\n");
    reveal_strlit("slab_id: \"");
    reveal_strlit("slab_id:");
    reveal_strlit("\"\n");
    let p = "slab_id: \""@;
    let line1 = quoted_line(p, id);
    let rest = quoted_line("title: \""@, title) + topics_part(topics) + version_part(version)
        + updated_part(updated);
    let b = yaml_body(id, title, topics, version, updated);
    assert(b =~= line1 + rest);
    let c = "---\n"@ + b + "---\n"@ + body;
    assert(c =~= "---\n"@ + line1 + rest + "---\n"@ + body);
    lemma_id_line_before_fence(id, rest, body);
    assert(find_from(c, "---\n"@, 4) is Some);
    let j = find_from(c, "---\n"@, 4)->0;
    assert(j >= 4 + line1.len() && j + 4 <= c.len());
    assert(c.subrange(4, j).take(line1.len() as int) == line1);
    assert(c.take(4) =~= "---\n"@);
    assert(starts_with(c, "---\n"@));
    let s = c.subrange(4, j);
    assert(s.take(line1.len() as int) == line1);
    let e = yaml_escape(id);
    lemma_yaml_escape_no_newline(id);
    let n: int = (p.len() + e.len() + 1) as int;
    let lt = s.take(line1.len() as int);
    assert(line1.len() == n + 1);
    assert(lt[n] == s[n]);
    assert(s[n] == line1[n]);
    assert(s[n] == '\n');
    assert forall|k: int| 0 <= k < n implies s[k] != '\n' by {
        assert(lt[k] == s[k]);
        assert(s[k] == line1[k]);
        if k >= p.len() && k < p.len() + e.len() {
            assert(line1[k] == e[k - p.len()]);
        }
    }
    lemma_char_index_at(s, '\n', n);
    let raw = s.take(n);
    assert(raw =~= p + e + seq!['"']);
    lemma_id_line_reads(id);
    assert(scan_lines(s) == Some(id));
}

/// The line `slab_id: "id"`, the id escaped, names `id` when it is
/// non-empty.
proof fn lemma_id_line_reads(id: Seq<char>)
    requires
        id.len() > 0,
    ensures
        id_of_line("slab_id: \""@ + yaml_escape(id) + seq!['"']) == Some(id),
{
    reveal_strlit("slab_id: \"");
    reveal_strlit("slab_id:");
    let e = yaml_escape(id);
    let raw = "slab_id: \""@ + e + seq!['"'];
    assert(raw.take(8) =~= "slab_id:"@);
    assert(starts_with(raw, "slab_id:"@));
    let r8 = raw.skip(8);
    assert(r8 =~= seq![' ', '"'] + e + seq!['"']);
    let q = seq!['"'] + e + seq!['"'];
    assert(r8.drop_first() =~= q);
    assert(trim_start(q) == q);
    assert(trim_start(r8) == q);
    assert(trim_end(q) == q);
    assert(q.subrange(1, q.len() - 1) =~= e);
    lemma_yaml_unescape_escape(id);
    assert(field_value(q) == id);
}

/// The `slab_id` read back from a written file is the one written,
/// whatever the title, topics and other fields hold, when the id is
/// non-empty and holds no newline.
pub proof fn lemma_slab_id_written(fm: Frontmatter, body: Seq<char>)
    requires
        no_newline(fm.slab_id@),
        fm.slab_id@.len() > 0,
    ensures
        slab_id_spec(yaml_of(fm) + body) == Some(fm.slab_id@),
{
    lemma_slab_id_in(fm.slab_id@, fm.title@, fm.topics@, fm.version, opt_str_view(fm.updated_at), body);
}

/// The file written for a post names the post: its `slab_id` reads
/// back as the post's id, whatever the title and topics hold, when the id
/// is non-empty and holds no newline.
pub proof fn lemma_post_file_slab_id(post: Post)
    requires
        no_newline(post.id@),
        post.id@.len() > 0,
    ensures
        slab_id_spec(post_file_text(post)) == Some(post.id@),
{
    lemma_slab_id_in(post.id@, post.title@, topic_names(post.topics), post.version, opt_str_view(
        post.updated_at,
    ), post_markdown(post));
}

/// The body of a post file read back without its frontmatter is the
/// post's Markdown (when no frontmatter field holds a newline).
pub proof fn lemma_post_file_body(post: Post)
    requires
        fields_single_line(post.id@, post.title@, topic_names(post.topics), opt_str_view(
            post.updated_at,
        )),
    ensures
        strip_spec(post_file_text(post)) == post_markdown(post),
{
    reveal_strlit("---\n");
    let b = yaml_body(post.id@, post.title@, topic_names(post.topics), post.version, opt_str_view(
        post.updated_at,
    ));
    lemma_yaml_body_nfb(post.id@, post.title@, topic_names(post.topics), post.version, opt_str_view(
        post.updated_at,
    ));
    lemma_fenced(b, post_markdown(post));
}

} // verus!

