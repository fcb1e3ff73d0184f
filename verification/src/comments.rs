//! Comments: the Delta text of a new comment, thread ids, and how comments
//! are shown.
use vstd::prelude::*;

use crate::from_delta::{delta_to_markdown, markdown_of, push_lit};
use crate::api::{int_json, int_value};
use crate::json::{
    entries_view, hex_char, hex_digit, json_decoded, read_json, Json, JsonNumber, JsonValue, Num,
};
use crate::output::Format;
use crate::posts::{opt_or, push_opt_or};
use crate::text::{chars_of, push_all, string_of, trim, trim_chars};
use crate::to_delta::{lit_string, mk_obj1, obj1, push_entry};
use crate::types::{post_checksum, Comment, CommentThread, Post};
use crate::vault::push_str;

verus! {

/// How a character of a comment is written inside the JSON string of its
/// Delta (JSON string escaping): backslash and quote behind a backslash;
/// newline, carriage return, tab, backspace and form feed as `\n`, `\r`,
/// `\t`, `\b`, `\f`; any other control character below U+0020 as
/// `\u00XX` in lowercase hex; every other character as it is.
pub open spec fn comment_escape(c: char) -> Seq<char> {
    if c == '\\' {
        seq!['\\', '\\']
    } else if c == '"' {
        seq!['\\', '"']
    } else if c == '\n' {
        seq!['\\', 'n']
    } else if c == '\r' {
        seq!['\\', 'r']
    } else if c == '\t' {
        seq!['\\', 't']
    } else if (c as u32) == 8 {
        seq!['\\', 'b']
    } else if (c as u32) == 12 {
        seq!['\\', 'f']
    } else if (c as u32) < 32 {
        seq!['\\', 'u', '0', '0', hex_digit((c as u32 / 16) as int), hex_digit((c as u32 % 16) as int)]
    } else {
        seq![c]
    }
}

pub open spec fn comment_escape_all(s: Seq<char>) -> Seq<char>
    decreases s.len(),
{
    if s.len() == 0 {
        Seq::empty()
    } else {
        comment_escape_all(s.drop_last()) + comment_escape(s.last())
    }
}

/// The Delta text of a comment: one insert of the body and a newline.
pub open spec fn comment_delta_spec(body: Seq<char>) -> Seq<char> {
    "[{\"insert\":\""@ + comment_escape_all(body) + "\\n\"}]"@
}

/// The Delta of a comment as JSON text, `[{"insert":"<body>\n"}]`: one
/// insert of the body and a newline, the body written as a JSON string.
pub fn comment_delta(body: &str) -> (r: String)
    ensures
        r@ == comment_delta_spec(body@),
{
    let b = chars_of(body);
    let mut o: Vec<char> = Vec::new();
    push_lit(&mut o, "[{\"insert\":\"");
    let ghost base = o@;
    let mut i: usize = 0;
    while i < b.len()
        invariant
            i <= b@.len(),
            o@ == base + comment_escape_all(b@.take(i as int)),
        decreases b.len() - i,
    {
        let c = b[i];
        let ghost before = o@;
        let u = c as u32;
        if c == '\\' {
            o.push('\\');
            o.push('\\');
        } else if c == '"' {
            o.push('\\');
            o.push('"');
        } else if c == '\n' {
            o.push('\\');
            o.push('n');
        } else if c == '\r' {
            o.push('\\');
            o.push('r');
        } else if c == '\t' {
            o.push('\\');
            o.push('t');
        } else if u == 8 {
            o.push('\\');
            o.push('b');
        } else if u == 12 {
            o.push('\\');
            o.push('f');
        } else if u < 32 {
            o.push('\\');
            o.push('u');
            o.push('0');
            o.push('0');
            o.push(hex_char(u / 16));
            o.push(hex_char(u % 16));
        } else {
            o.push(c);
        }
        assert(o@ =~= before + comment_escape(c));
        assert(b@.take(i + 1).drop_last() =~= b@.take(i as int));
        i = i + 1;
        assert(o@ =~= base + comment_escape_all(b@.take(i as int)));
    }
    assert(b@.take(b@.len() as int) =~= b@);
    push_lit(&mut o, "\\n\"}]");
    string_of(o.as_slice())
}

/// Digits of thread ids.
pub open spec fn id_alphabet() -> Seq<char> {
    "0123456789abcdefghijklmnopqrstuvwxyz"@
}

/// The `k` base-36 digits of `n`, least significant first.
pub open spec fn base36_digits(n: nat, k: nat) -> Seq<char>
    decreases k,
{
    if k == 0 {
        Seq::empty()
    } else {
        seq![id_alphabet()[(n % 36) as int]] + base36_digits(n / 36, (k - 1) as nat)
    }
}

/// An 8-character base-36 thread id made from a clock reading
/// (nanoseconds since the Unix epoch).
pub fn short_id_from(nanos: u128) -> (r: String)
    ensures
        r@ == base36_digits(nanos as nat, 8),
        r@.len() == 8,
{
    proof {
        reveal_strlit("0123456789abcdefghijklmnopqrstuvwxyz");
    }
    let alphabet = chars_of("0123456789abcdefghijklmnopqrstuvwxyz");
    assert(alphabet@.len() == 36);
    let mut n: u128 = nanos;
    let mut o: Vec<char> = Vec::new();
    let mut k: usize = 0;
    while k < 8
        invariant
            k <= 8,
            alphabet@ == id_alphabet(),
            alphabet@.len() == 36,
            o@ + base36_digits(n as nat, (8 - k) as nat) == base36_digits(nanos as nat, 8),
            o@.len() == k,
        decreases 8 - k,
    {
        let d = (n % 36) as usize;
        let ghost prev_n = n;
        let ghost prev_o = o@;
        o.push(alphabet[d]);
        n = n / 36;
        k = k + 1;
        assert(base36_digits(prev_n as nat, (8 - (k - 1)) as nat) == seq![id_alphabet()[(prev_n % 36) as int]] + base36_digits(n as nat, (8 - k) as nat));
        assert(o@ + base36_digits(n as nat, (8 - k) as nat) =~= prev_o + base36_digits(prev_n as nat, (8 - (k - 1)) as nat));
    }
    assert(base36_digits(n as nat, 0) =~= Seq::<char>::empty());
    assert(o@ + Seq::<char>::empty() =~= o@);
    string_of(o.as_slice())
}

/// A comment's content shown as text. The
/// content is Delta ops in JSON; `decoded` is that JSON decoded (`None`
/// when it is not JSON), and the ops are shown as trimmed Markdown.
pub open spec fn comment_text_spec(raw: Option<Seq<char>>, decoded: Option<Json>) -> Seq<char> {
    match raw {
        None => Seq::empty(),
        Some(r) => match decoded {
            Some(d) => trim(markdown_of(obj1("ops"@, d))),
            None => r,
        },
    }
}

/// The text shown for a comment's content, given what serde_json reads from
/// it (`decoded`).
pub fn comment_text_from(content: Option<&str>, decoded: Option<&JsonValue>) -> (r: String)
    ensures
        r@ == comment_text_spec(
            match content {
                Some(c) => Some(c@),
                None => None,
            },
            crate::json::opt_view(decoded),
        ),
{
    match content {
        None => String::new(),
        Some(raw) => match decoded {
            Some(d) => {
                let wrapped = mk_obj1("ops", d.deep_clone());
                let md = delta_to_markdown(&wrapped);
                let t = trim_chars(chars_of(md.as_str()).as_slice());
                string_of(t.as_slice())
            },
            None => string_of(chars_of(raw).as_slice()),
        },
    }
}

/// The text shown for a comment's content.
pub fn format_comment_content(content: Option<&str>) -> (r: String)
    ensures
        r@ == comment_text_spec(
            match content {
                Some(c) => Some(c@),
                None => None,
            },
            match content {
                Some(c) => json_decoded(c@),
                None => None,
            },
        ),
{
    match content {
        None => String::new(),
        Some(raw) => {
            let decoded = read_json(raw);
            match &decoded {
                Some(d) => comment_text_from(content, Some(d)),
                None => comment_text_from(content, None),
            }
        },
    }
}

/// A thread is listed when it has comments.
pub fn is_listed(thread: &CommentThread) -> (b: bool)
    ensures
        b == thread.comments is Some,
{
    thread.comments.is_some()
}

/// Name of a comment's author, or `unknown`.
pub open spec fn author_name(c: Comment) -> Seq<char> {
    match c.author {
        Some(a) => opt_or(a.name, "unknown"@),
        None => "unknown"@,
    }
}

pub fn push_author(o: &mut Vec<char>, c: &Comment)
    ensures
        final(o)@ == old(o)@ + author_name(*c),
{
    match &c.author {
        Some(a) => push_opt_or(o, &a.name, "unknown"),
        None => push_lit(o, "unknown"),
    }
}

/// `thread <id>[ [resolved]]` line of the text listing.
pub open spec fn thread_header_spec(t: CommentThread) -> Seq<char> {
    "thread "@ + t.id@ + (if t.resolved_at is Some {
        " [resolved]"@
    } else {
        Seq::empty()
    }) + "\n"@
}

pub fn thread_header(t: &CommentThread) -> (r: String)
    ensures
        r@ == thread_header_spec(*t),
{
    let mut o: Vec<char> = Vec::new();
    push_lit(&mut o, "thread ");
    push_str(&mut o, &t.id);
    if t.resolved_at.is_some() {
        push_lit(&mut o, " [resolved]");
    }
    push_lit(&mut o, "\n");
    assert(o@ =~= thread_header_spec(*t));
    string_of(o.as_slice())
}

/// `  <content> (<author>, <date>)` line of the text listing.
pub open spec fn comment_line_spec(c: Comment, text: Seq<char>) -> Seq<char> {
    "  "@ + text + " ("@ + author_name(c) + ", "@ + opt_or(c.inserted_at, ""@) + ")\n"@
}

pub fn comment_line(c: &Comment, text: &str) -> (r: String)
    ensures
        r@ == comment_line_spec(*c, text@),
{
    let mut o: Vec<char> = Vec::new();
    push_lit(&mut o, "  ");
    push_all(&mut o, chars_of(text).as_slice());
    push_lit(&mut o, " (");
    push_author(&mut o, c);
    push_lit(&mut o, ", ");
    push_opt_or(&mut o, &c.inserted_at, "");
    push_lit(&mut o, ")\n");
    assert(o@ =~= comment_line_spec(*c, text@));
    string_of(o.as_slice())
}

/// A row of the TSV listing: thread, comment, author, date, content.
pub open spec fn comment_row_spec(thread_id: Seq<char>, c: Comment, text: Seq<char>) -> Seq<char> {
    thread_id + "\t"@ + c.id@ + "\t"@ + author_name(c) + "\t"@ + opt_or(c.inserted_at, "-"@) + "\t"@
        + text + "\n"@
}

pub fn comment_row(thread_id: &str, c: &Comment, text: &str) -> (r: String)
    ensures
        r@ == comment_row_spec(thread_id@, *c, text@),
{
    let mut o: Vec<char> = chars_of(thread_id);
    push_lit(&mut o, "\t");
    push_str(&mut o, &c.id);
    push_lit(&mut o, "\t");
    push_author(&mut o, c);
    push_lit(&mut o, "\t");
    push_opt_or(&mut o, &c.inserted_at, "-");
    push_lit(&mut o, "\t");
    push_all(&mut o, chars_of(text).as_slice());
    push_lit(&mut o, "\n");
    assert(o@ =~= comment_row_spec(thread_id@, *c, text@));
    string_of(o.as_slice())
}

/// The text shown for a comment: its content as `format_comment_content`
/// shows it.
pub open spec fn comment_shown(c: Comment) -> Seq<char> {
    comment_text_spec(
        match c.content {
            Some(x) => Some(x@),
            None => None,
        },
        match c.content {
            Some(x) => json_decoded(x@),
            None => None,
        },
    )
}

pub open spec fn thread_comments(t: CommentThread) -> Seq<Comment> {
    match t.comments {
        Some(cs) => cs@,
        None => Seq::empty(),
    }
}

/// The TSV rows of some comments of a thread.
pub open spec fn comment_rows(tid: Seq<char>, cs: Seq<Comment>) -> Seq<char>
    decreases cs.len(),
{
    if cs.len() == 0 {
        Seq::empty()
    } else {
        comment_rows(tid, cs.drop_last()) + comment_row_spec(tid, cs.last(), comment_shown(cs.last()))
    }
}

/// The text lines of some comments of a thread.
pub open spec fn comment_lines(cs: Seq<Comment>) -> Seq<char>
    decreases cs.len(),
{
    if cs.len() == 0 {
        Seq::empty()
    } else {
        comment_lines(cs.drop_last()) + comment_line_spec(cs.last(), comment_shown(cs.last()))
    }
}

/// A thread in the text listing: its header, its comments, a blank line.
pub open spec fn thread_block(t: CommentThread) -> Seq<char> {
    thread_header_spec(t) + comment_lines(thread_comments(t)) + "\n"@
}

/// The listed threads (those with comments) in the chosen text format.
pub open spec fn thread_listing(ts: Seq<CommentThread>, tsv: bool) -> Seq<char>
    decreases ts.len(),
{
    if ts.len() == 0 {
        Seq::empty()
    } else if ts.last().comments is None {
        thread_listing(ts.drop_last(), tsv)
    } else {
        thread_listing(ts.drop_last(), tsv) + if tsv {
            comment_rows(ts.last().id@, thread_comments(ts.last()))
        } else {
            thread_block(ts.last())
        }
    }
}

/// Some thread has comments.
pub open spec fn any_listed(ts: Seq<CommentThread>) -> bool {
    exists|i: int| 0 <= i < ts.len() && (#[trigger] ts[i]).comments is Some
}

/// `slab comment:list` in the text formats (`None` for JSON).
pub open spec fn comment_list_spec(ts: Seq<CommentThread>, format: Format) -> Option<Seq<char>> {
    match format {
        Format::Json => None,
        Format::Tsv => Some("THREAD\tCOMMENT\tAUTHOR\tDATE\tCONTENT\n"@ + thread_listing(ts, true)),
        _ => Some(
            if !any_listed(ts) {
                "no comments on this post\n"@
            } else {
                thread_listing(ts, false)
            },
        ),
    }
}

/// `slab comment:list` of a thread with one comment: as TSV a header and
/// the row of the thread's id, the comment's id, its author's name
/// (`unknown` when unnamed), its creation time (`-` when unknown) and its
/// text; as text the line `thread <id>` (marked ` [resolved]` when
/// resolved), the line `  <text> (<author>, <creation time>)` and a blank
/// line. A thread without comments is not listed.
pub proof fn lemma_comment_list_one(t: CommentThread, c: Comment)
    requires
        t.comments matches Some(cs) && cs@ == seq![c],
    ensures
        comment_list_spec(seq![t], Format::Tsv) == Some(
            "THREAD\tCOMMENT\tAUTHOR\tDATE\tCONTENT\n"@ + t.id@ + "\t"@ + c.id@ + "\t"@
                + match c.author {
                Some(a) => match a.name {
                    Some(n) => n@,
                    None => "unknown"@,
                },
                None => "unknown"@,
            } + "\t"@ + match c.inserted_at {
                Some(d) => d@,
                None => "-"@,
            } + "\t"@ + comment_shown(c) + "\n"@,
        ),
        comment_list_spec(seq![t], Format::Text) == Some(
            "thread "@ + t.id@ + (if t.resolved_at is Some {
                " [resolved]"@
            } else {
                Seq::empty()
            }) + "\n"@ + "  "@ + comment_shown(c) + " ("@ + match c.author {
                Some(a) => match a.name {
                    Some(n) => n@,
                    None => "unknown"@,
                },
                None => "unknown"@,
            } + ", "@ + match c.inserted_at {
                Some(d) => d@,
                None => Seq::empty(),
            } + ")\n"@ + "\n"@,
        ),
        comment_list_spec(seq![CommentThread { comments: None, ..t }], Format::Text) == Some(
            "no comments on this post\n"@,
        ),
{
    let ts = seq![t];
    assert(ts.drop_last() =~= Seq::<CommentThread>::empty());
    assert(ts.last() == t);
    let cs = seq![c];
    assert(thread_comments(t) == cs);
    assert(cs.drop_last() =~= Seq::<Comment>::empty());
    assert(cs.last() == c);
    assert(any_listed(ts)) by {
        assert(ts[0].comments is Some);
    }
    reveal_strlit("");
    let r = comment_row_spec(t.id@, c, comment_shown(c));
    assert(comment_rows(t.id@, Seq::<Comment>::empty()) =~= Seq::<char>::empty());
    assert(comment_rows(t.id@, cs) == comment_rows(t.id@, Seq::<Comment>::empty()) + r);
    assert(comment_rows(t.id@, cs) =~= r);
    assert(thread_listing(Seq::<CommentThread>::empty(), true) =~= Seq::<char>::empty());
    assert(thread_listing(ts, true) == thread_listing(Seq::<CommentThread>::empty(), true)
        + comment_rows(t.id@, thread_comments(t)));
    assert(thread_listing(ts, true) =~= r);
    let l = comment_line_spec(c, comment_shown(c));
    assert(comment_lines(Seq::<Comment>::empty()) =~= Seq::<char>::empty());
    assert(comment_lines(cs) == comment_lines(Seq::<Comment>::empty()) + l);
    assert(comment_lines(cs) =~= l);
    assert(thread_listing(ts, false) == thread_listing(Seq::<CommentThread>::empty(), false)
        + thread_block(t));
    assert(thread_listing(ts, false) =~= thread_header_spec(t) + l + "\n"@);
    let u = CommentThread { comments: None, ..t };
    let us = seq![u];
    assert(us.drop_last() =~= Seq::<CommentThread>::empty());
    assert(!any_listed(us)) by {
        if any_listed(us) {
            let i = choose|i: int| 0 <= i < us.len() && (#[trigger] us[i]).comments is Some;
            assert(us[i] == u);
        }
    }
}

/// Appends the rows or lines of a thread's comments.
fn push_thread(o: &mut Vec<char>, t: &CommentThread, tsv: bool)
    requires
        t.comments is Some,
    ensures
        final(o)@ == old(o)@ + if tsv {
            comment_rows(t.id@, thread_comments(*t))
        } else {
            thread_block(*t)
        },
{
    if !tsv {
        let h = thread_header(t);
        push_str(o, &h);
    }
    let ghost mid = o@;
    match &t.comments {
        Some(cs) => {
            let mut i: usize = 0;
            while i < cs.len()
                invariant
                    i <= cs@.len(),
                    o@ == mid + if tsv {
                        comment_rows(t.id@, cs@.take(i as int))
                    } else {
                        comment_lines(cs@.take(i as int))
                    },
                decreases cs.len() - i,
            {
                let c = &cs[i];
                let content: Option<&str> = match &c.content {
                    Some(x) => Some(x.as_str()),
                    None => None,
                };
                let text = format_comment_content(content);
                assert(text@ == comment_shown(*c));
                if tsv {
                    let row = comment_row(t.id.as_str(), c, text.as_str());
                    push_str(o, &row);
                } else {
                    let line = comment_line(c, text.as_str());
                    push_str(o, &line);
                }
                assert(cs@.take(i + 1).drop_last() =~= cs@.take(i as int));
                i = i + 1;
            }
            assert(cs@.take(cs@.len() as int) =~= cs@);
        },
        None => {},
    }
    if !tsv {
        push_lit(o, "\n");
    }
}

/// `slab comment:list` for the threads of a post, in the text formats
/// (`None` for JSON, which the caller serializes).
pub fn format_comment_list(threads: &Vec<CommentThread>, format: Format) -> (r: Option<String>)
    ensures
        match r {
            Some(s) => comment_list_spec(threads@, format) == Some(s@),
            None => comment_list_spec(threads@, format) is None,
        },
{
    if format == Format::Json {
        return None;
    }
    let tsv = format == Format::Tsv;
    let mut o: Vec<char> = Vec::new();
    if tsv {
        push_lit(&mut o, "THREAD\tCOMMENT\tAUTHOR\tDATE\tCONTENT\n");
    }
    let ghost base = o@;
    let mut any = false;
    let mut i: usize = 0;
    while i < threads.len()
        invariant
            i <= threads@.len(),
            o@ == base + thread_listing(threads@.take(i as int), tsv),
            any == any_listed(threads@.take(i as int)),
        decreases threads.len() - i,
    {
        let t = &threads[i];
        assert(threads@.take(i + 1).drop_last() =~= threads@.take(i as int));
        assert(threads@.take(i + 1)[i as int] == threads@[i as int]);
        if is_listed(t) {
            push_thread(&mut o, t, tsv);
            any = true;
        }
        proof {
            let a = threads@.take(i as int);
            let b = threads@.take(i + 1);
            if any_listed(a) {
                let k = choose|k: int| 0 <= k < a.len() && (#[trigger] a[k]).comments is Some;
                assert(b[k] == a[k]);
            }
            if any_listed(b) && !any_listed(a) {
                let k = choose|k: int| 0 <= k < b.len() && (#[trigger] b[k]).comments is Some;
                if k < i {
                    assert(a[k] == b[k]);
                }
            }
        }
        i = i + 1;
    }
    assert(threads@.take(threads@.len() as int) =~= threads@);
    if !tsv && !any {
        return Some(lit_string("no comments on this post\n"));
    }
    Some(string_of(o.as_slice()))
}

// ---------------------------------------------------------------------
// Starting a thread
/// Where a new thread is anchored: the start of the document.
pub open spec fn default_mark_spec() -> Json {
    Json::Obj(
        seq![
            ("type"@, Json::Str("plain"@)),
            ("index"@, Json::Num(Num::PosInt(0))),
            ("length"@, Json::Num(Num::PosInt(1))),
        ],
    )
}

pub fn default_mark() -> (r: JsonValue)
    ensures
        r@ == default_mark_spec(),
{
    let mut es: Vec<(String, JsonValue)> = Vec::new();
    push_entry(&mut es, lit_string("type"), JsonValue::string("plain"));
    push_entry(&mut es, lit_string("index"), JsonValue::Number(JsonNumber::PosInt(0)));
    push_entry(&mut es, lit_string("length"), JsonValue::Number(JsonNumber::PosInt(1)));
    assert(entries_view(es@) =~= seq![
        ("type"@, Json::Str("plain"@)),
        ("index"@, Json::Num(Num::PosInt(0))),
        ("length"@, Json::Num(Num::PosInt(1))),
    ]);
    JsonValue::Object(es)
}

/// The content version and checksum a new thread on `post` is created
/// against: the post's version (1 when it has none) and its checksum.
pub fn thread_anchor(post: &Post) -> (r: (i64, i64))
    ensures
        r.0 == match post.version {
            Some(v) => v,
            None => 1,
        },
        r.1 == post_checksum(post.text),
{
    let version = match post.version {
        Some(v) => v,
        None => 1,
    };
    (version, post.checksum())
}

/// The variables of `createComment`.
pub open spec fn create_comment_vars_spec(
    post_id: Seq<char>,
    thread_id: Seq<char>,
    content: Seq<char>,
    version: i64,
    checksum: i64,
    mark: Json,
) -> Json {
    Json::Obj(
        seq![
            ("threadId"@, Json::Str(thread_id)),
            ("id"@, Json::Str(post_id)),
            ("version"@, int_json(version)),
            ("checksum"@, int_json(checksum)),
            ("mark"@, mark),
            ("content"@, Json::Str(content)),
            ("notifyGroups"@, Json::Bool(true)),
        ],
    )
}

/// The variables of a new comment name the thread as `threadId` and the
/// post as `id`, carry the post's content version and checksum as
/// `version` and `checksum`, the anchor as `mark`, the comment's Delta text
/// as `content`, and ask for groups to be notified.
pub proof fn lemma_comment_vars_fields(
    post_id: Seq<char>,
    thread_id: Seq<char>,
    content: Seq<char>,
    version: i64,
    checksum: i64,
    mark: Json,
)
    ensures
        ({
            let v = create_comment_vars_spec(post_id, thread_id, content, version, checksum, mark);
            &&& crate::json::get(v, "threadId"@) == Some(Json::Str(thread_id))
            &&& crate::json::get(v, "id"@) == Some(Json::Str(post_id))
            &&& crate::json::get(v, "version"@) == Some(int_json(version))
            &&& crate::json::get(v, "checksum"@) == Some(int_json(checksum))
            &&& crate::json::get(v, "mark"@) == Some(mark)
            &&& crate::json::get(v, "content"@) == Some(Json::Str(content))
            &&& crate::json::get(v, "notifyGroups"@) == Some(Json::Bool(true))
        }),
{
    reveal_strlit("threadId");
    reveal_strlit("id");
    reveal_strlit("version");
    reveal_strlit("checksum");
    reveal_strlit("mark");
    reveal_strlit("content");
    reveal_strlit("notifyGroups");
    let es = seq![
        ("threadId"@, Json::Str(thread_id)),
        ("id"@, Json::Str(post_id)),
        ("version"@, int_json(version)),
        ("checksum"@, int_json(checksum)),
        ("mark"@, mark),
        ("content"@, Json::Str(content)),
        ("notifyGroups"@, Json::Bool(true)),
    ];
    let ks = seq!["threadId"@, "id"@, "version"@, "checksum"@, "mark"@, "content"@, "notifyGroups"@];
    assert forall|j: int| 0 <= j < 7 implies #[trigger] es[j].0 == ks[j] by {}
    assert(ks[3][1] != ks[5][1]);
    assert forall|i: int, j: int| 0 <= i < 7 && 0 <= j < 7 && i != j implies #[trigger] ks[i]
        != #[trigger] ks[j] by {
        if !((i == 3 && j == 5) || (i == 5 && j == 3)) {
            assert(ks[i][0] != ks[j][0]);
        } else {
            assert(ks[i][1] != ks[j][1]);
        }
    }
    crate::json::lemma_entries_get_index(es, ks[0], 0);
    crate::json::lemma_entries_get_index(es, ks[1], 1);
    crate::json::lemma_entries_get_index(es, ks[2], 2);
    crate::json::lemma_entries_get_index(es, ks[3], 3);
    crate::json::lemma_entries_get_index(es, ks[4], 4);
    crate::json::lemma_entries_get_index(es, ks[5], 5);
    crate::json::lemma_entries_get_index(es, ks[6], 6);
}

pub fn create_comment_vars(
    post_id: &str,
    thread_id: &str,
    content: &str,
    version: i64,
    checksum: i64,
    mark: &JsonValue,
) -> (r: JsonValue)
    ensures
        r@ == create_comment_vars_spec(post_id@, thread_id@, content@, version, checksum, mark@),
{
    let mut es: Vec<(String, JsonValue)> = Vec::new();
    push_entry(&mut es, lit_string("threadId"), JsonValue::string(thread_id));
    push_entry(&mut es, lit_string("id"), JsonValue::string(post_id));
    push_entry(&mut es, lit_string("version"), int_value(version));
    push_entry(&mut es, lit_string("checksum"), int_value(checksum));
    push_entry(&mut es, lit_string("mark"), mark.deep_clone());
    push_entry(&mut es, lit_string("content"), JsonValue::string(content));
    push_entry(&mut es, lit_string("notifyGroups"), JsonValue::Bool(true));
    assert(entries_view(es@) =~= seq![
        ("threadId"@, Json::Str(thread_id@)),
        ("id"@, Json::Str(post_id@)),
        ("version"@, int_json(version)),
        ("checksum"@, int_json(checksum)),
        ("mark"@, mark@),
        ("content"@, Json::Str(content@)),
        ("notifyGroups"@, Json::Bool(true)),
    ]);
    JsonValue::Object(es)
}

} // verus!
