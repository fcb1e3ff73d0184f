//! Posts on the command line: ids out of URLs, listings, and post text.
use vstd::prelude::*;

use crate::from_delta::{delta_to_markdown, markdown_of, push_lit};
use crate::output::Format;
use crate::paths::{find_last, last_index, last_segment};
use crate::text::{chars_of, contains_chars, contains_seq, push_all, slice_chars, string_of};
use crate::types::{Post, TopicRef};
use crate::vault::{parse_frontmatter_slab_id, post_markdown, push_str, slab_id_spec};

verus! {

/// `s` after the last `c` (all of `s` when there is none).
pub open spec fn after_last(s: Seq<char>, c: char) -> Seq<char> {
    match last_index(s, c) {
        Some(i) => s.skip(i + 1),
        None => s,
    }
}

/// The post id named by the input: for a post URL (`.../slab.com/posts/slug-ID`) the
/// last `-`-separated part of the last path segment (the whole segment when
/// that part is empty); anything else unchanged.
pub open spec fn post_id_spec(input: Seq<char>) -> Seq<char> {
    if contains_seq(input, "slab.com/posts/"@) {
        let slug = after_last(input, '/');
        let id = after_last(slug, '-');
        if id.len() > 0 {
            id
        } else {
            slug
        }
    } else {
        input
    }
}

pub fn after_last_chars(s: &[char], c: char) -> (r: Vec<char>)
    ensures
        r@ == after_last(s@, c),
{
    proof {
        crate::paths::lemma_last_index(s@, c);
    }
    match find_last(s, c) {
        Some(i) => {
            assert(i < s.len());
            slice_chars(s, i + 1, s.len())
        },
        None => {
            let r = slice_chars(s, 0, s.len());
            assert(r@ =~= s@);
            r
        },
    }
}

proof fn lemma_after_last_at(s: Seq<char>, c: char, i: int)
    requires
        0 <= i < s.len(),
        s[i] == c,
        forall|k: int| i < k < s.len() ==> s[k] != c,
    ensures
        after_last(s, c) == s.skip(i + 1),
{
    crate::paths::lemma_last_index(s, c);
    match last_index(s, c) {
        Some(j) => {
            if j < i {
                assert(s[i] == c);
            }
        },
        None => {
            assert(s[i] != c);
        },
    }
}

proof fn lemma_after_last_slash(head: Seq<char>, tail: Seq<char>)
    requires
        head.len() > 0,
        head.last() == '/',
        forall|k: int| 0 <= k < tail.len() ==> tail[k] != '/',
    ensures
        after_last(head + tail, '/') == tail,
{
    let u = head + tail;
    let p = head.len() - 1;
    assert(u[p] == '/');
    assert forall|k: int| p < k < u.len() implies u[k] != '/' by {
        assert(u[k] == tail[k - p - 1]);
    }
    lemma_after_last_at(u, '/', p);
    assert(u.skip(p + 1) =~= tail);
}

proof fn lemma_after_last_dash(slug: Seq<char>, id: Seq<char>)
    requires
        forall|k: int| 0 <= k < id.len() ==> id[k] != '-',
    ensures
        after_last(slug + seq!['-'] + id, '-') == id,
{
    let t = slug + seq!['-'] + id;
    let q = slug.len() as int;
    assert(t[q] == '-');
    assert forall|k: int| q < k < t.len() implies t[k] != '-' by {
        assert(t[k] == id[k - q - 1]);
    }
    lemma_after_last_at(t, '-', q);
    assert(t.skip(q + 1) =~= id);
}

/// The post id of a post URL `…slab.com/posts/<slug>-<id>` is `<id>`, the
/// part after the last `-` (when the slug and id hold no `/` and the id no
/// `-`); text that is no post URL is taken as the id itself.
#[verifier::spinoff_prover]
pub proof fn lemma_post_id_of_url(pre: Seq<char>, slug: Seq<char>, id: Seq<char>, input: Seq<char>)
    requires
        id.len() > 0,
        forall|k: int| 0 <= k < slug.len() ==> slug[k] != '/',
        forall|k: int| 0 <= k < id.len() ==> id[k] != '/' && id[k] != '-',
    ensures
        post_id_spec(pre + "slab.com/posts/"@ + slug + "-"@ + id) == id,
        !contains_seq(input, "slab.com/posts/"@) ==> post_id_spec(input) == input,
{
    reveal_strlit("slab.com/posts/");
    reveal_strlit("-");
    let m = "slab.com/posts/"@;
    let head = pre + m;
    let tail = slug + seq!['-'] + id;
    assert("-"@ =~= seq!['-']);
    let u = pre + m + slug + "-"@ + id;
    assert(u =~= head + tail);
    assert(u.subrange(pre.len() as int, (pre.len() + m.len()) as int) =~= m);
    assert(crate::text::occurs_at(u, m, pre.len() as int));
    assert(head.last() == '/');
    assert forall|k: int| 0 <= k < tail.len() implies tail[k] != '/' by {
        if k < slug.len() {
            assert(tail[k] == slug[k]);
        } else if k > slug.len() {
            assert(tail[k] == id[k - slug.len() - 1]);
        }
    }
    lemma_after_last_slash(head, tail);
    lemma_after_last_dash(slug, id);
}

/// The post id named by a post id or a post URL.
pub fn extract_post_id(input: &str) -> (r: String)
    ensures
        r@ == post_id_spec(input@),
{
    let s = chars_of(input);
    let marker = chars_of("slab.com/posts/");
    if contains_chars(s.as_slice(), marker.as_slice()) {
        let slug = after_last_chars(s.as_slice(), '/');
        let id = after_last_chars(slug.as_slice(), '-');
        if id.len() > 0 {
            return string_of(id.as_slice());
        }
        return string_of(slug.as_slice());
    }
    string_of(s.as_slice())
}

/// `a, b, c`: topic names joined by `, `.
pub open spec fn join_topic_names(ts: Seq<TopicRef>) -> Seq<char>
    decreases ts.len(),
{
    if ts.len() == 0 {
        Seq::empty()
    } else if ts.len() == 1 {
        ts[0].name@
    } else {
        join_topic_names(ts.drop_last()) + ", "@ + ts.last().name@
    }
}

pub open spec fn opt_or(o: Option<String>, d: Seq<char>) -> Seq<char> {
    match o {
        Some(s) => s@,
        None => d,
    }
}

/// One line of the text listing.
pub open spec fn post_text_line(p: Post) -> Seq<char> {
    "  "@ + p.id@ + " — "@ + p.title@ + " ["@ + match p.topics {
        Some(ts) => join_topic_names(ts@),
        None => Seq::empty(),
    } + "]\n"@
}

/// One line of the TSV listing.
pub open spec fn post_tsv_line(p: Post) -> Seq<char> {
    p.id@ + "\t"@ + p.title@ + "\t"@ + opt_or(p.updated_at, "-"@) + "\n"@
}

pub open spec fn post_lines(ps: Seq<Post>, tsv: bool) -> Seq<char>
    decreases ps.len(),
{
    if ps.len() == 0 {
        Seq::empty()
    } else {
        post_lines(ps.drop_last(), tsv) + if tsv {
            post_tsv_line(ps.last())
        } else {
            post_text_line(ps.last())
        }
    }
}

/// A post list in the text formats (`None` for JSON, which is
/// serialized by the caller).
pub open spec fn post_list_spec(ps: Seq<Post>, format: Format) -> Option<Seq<char>> {
    match format {
        Format::Json => None,
        Format::Tsv => Some("ID\tTITLE\tUPDATED\n"@ + post_lines(ps, true)),
        _ => Some(
            if ps.len() == 0 {
                "(no posts)\n"@
            } else {
                post_lines(ps, false)
            },
        ),
    }
}

/// A post list as TSV is a header and then, for each post in order, a row
/// of its id, its title and its update time (`-` when it has none),
/// separated by tabs. In the text format each post is a line
/// `  <id> — <title> [<topics>]` (the topic names joined by `, `), and an
/// empty list says so.
pub proof fn lemma_post_list_rows(ps: Seq<Post>, p: Post, topic: TopicRef)
    ensures
        post_list_spec(Seq::empty(), Format::Tsv) == Some("ID\tTITLE\tUPDATED\n"@),
        post_list_spec(ps, Format::Tsv) matches Some(before) && post_list_spec(
            ps.push(p),
            Format::Tsv,
        ) == Some(
            before + p.id@ + "\t"@ + p.title@ + "\t"@ + match p.updated_at {
                Some(u) => u@,
                None => "-"@,
            } + "\n"@,
        ),
        post_list_spec(Seq::empty(), Format::Text) == Some("(no posts)\n"@),
        p.topics is None ==> post_list_spec(seq![p], Format::Text) == Some(
            "  "@ + p.id@ + " — "@ + p.title@ + " []\n"@,
        ),
        (p.topics matches Some(v) && v@ == seq![topic]) ==> post_list_spec(seq![p], Format::Text) == Some(
            "  "@ + p.id@ + " — "@ + p.title@ + " ["@ + topic.name@ + "]\n"@,
        ),
        ps.len() > 0 ==> (post_list_spec(ps, Format::Text) matches Some(before)
            && post_list_spec(ps.push(p), Format::Text) == Some(before + post_text_line(p))),
{
    assert(ps.push(p).drop_last() =~= ps);
    assert(ps.push(p).last() == p);
    assert(seq![p].drop_last() =~= Seq::<Post>::empty());
    assert(seq![p].last() == p);
    assert(post_lines(Seq::<Post>::empty(), false) =~= Seq::<char>::empty());
    assert(post_lines(seq![p], false) == post_lines(Seq::<Post>::empty(), false) + post_text_line(p));
    assert(post_lines(seq![p], false) =~= post_text_line(p));
    assert("ID\tTITLE\tUPDATED\n"@ + Seq::<char>::empty() =~= "ID\tTITLE\tUPDATED\n"@);
    let rows = post_lines(ps, true);
    assert(("ID\tTITLE\tUPDATED\n"@ + rows) + post_tsv_line(p) =~= "ID\tTITLE\tUPDATED\n"@ + (rows
        + post_tsv_line(p)));
    if p.topics matches Some(v) && v@ == seq![topic] {
        let ts = p.topics->0@;
        assert(ts.len() == 1 && ts[0] == topic);
        assert(join_topic_names(ts) == topic.name@);
    }
    assert(Seq::<char>::empty() + "]\n"@ =~= "]\n"@);
    assert(" ["@ + Seq::<char>::empty() + "]\n"@ =~= " []\n"@) by {
        reveal_strlit(" [");
        reveal_strlit("]\n");
        reveal_strlit(" []\n");
    }
}

pub fn push_topic_names(o: &mut Vec<char>, ts: &Vec<TopicRef>)
    ensures
        final(o)@ == old(o)@ + join_topic_names(ts@),
{
    let mut i: usize = 0;
    let ghost base = o@;
    assert(ts@.take(0) =~= Seq::<TopicRef>::empty());
    while i < ts.len()
        invariant
            i <= ts@.len(),
            o@ == base + join_topic_names(ts@.take(i as int)),
        decreases ts.len() - i,
    {
        if i > 0 {
            push_lit(o, ", ");
        }
        push_str(o, &ts[i].name);
        assert(ts@.take(i + 1).drop_last() =~= ts@.take(i as int));
        i = i + 1;
        assert(o@ =~= base + join_topic_names(ts@.take(i as int)));
    }
    assert(ts@.take(ts@.len() as int) =~= ts@);
}

pub fn push_opt_or(o: &mut Vec<char>, v: &Option<String>, d: &str)
    ensures
        final(o)@ == old(o)@ + opt_or(*v, d@),
{
    match v {
        Some(s) => push_str(o, s),
        None => push_lit(o, d),
    }
}

/// The listing of posts in a text format (`None` for JSON).
pub fn format_post_list(posts: &Vec<Post>, format: Format) -> (r: Option<String>)
    ensures
        match r {
            Some(s) => post_list_spec(posts@, format) == Some(s@),
            None => post_list_spec(posts@, format) is None,
        },
{
    if format == Format::Json {
        return None;
    }
    let tsv = format == Format::Tsv;
    let mut o: Vec<char> = Vec::new();
    if tsv {
        push_lit(&mut o, "ID\tTITLE\tUPDATED\n");
    }
    let ghost base = o@;
    let mut i: usize = 0;
    assert(posts@.take(0) =~= Seq::<Post>::empty());
    while i < posts.len()
        invariant
            i <= posts@.len(),
            o@ == base + post_lines(posts@.take(i as int), tsv),
        decreases posts.len() - i,
    {
        let p = &posts[i];
        let ghost before = o@;
        if tsv {
            push_str(&mut o, &p.id);
            push_lit(&mut o, "\t");
            push_str(&mut o, &p.title);
            push_lit(&mut o, "\t");
            push_opt_or(&mut o, &p.updated_at, "-");
            push_lit(&mut o, "\n");
            assert(o@ =~= before + post_tsv_line(*p));
        } else {
            push_lit(&mut o, "  ");
            push_str(&mut o, &p.id);
            push_lit(&mut o, " — ");
            push_str(&mut o, &p.title);
            push_lit(&mut o, " [");
            match &p.topics {
                Some(ts) => push_topic_names(&mut o, ts),
                None => {},
            }
            push_lit(&mut o, "]\n");
            assert(o@ =~= before + post_text_line(*p));
        }
        assert(posts@.take(i + 1).drop_last() =~= posts@.take(i as int));
        i = i + 1;
        assert(o@ =~= base + post_lines(posts@.take(i as int), tsv));
    }
    assert(posts@.take(posts@.len() as int) =~= posts@);
    if !tsv && posts.len() == 0 {
        return Some(crate::to_delta::lit_string("(no posts)\n"));
    }
    Some(string_of(o.as_slice()))
}

/// `post:get` in the text formats.
pub open spec fn post_text_spec(p: Post) -> Seq<char> {
    "# "@ + p.title@ + "\n\nID: "@ + p.id@ + " | Updated: "@ + opt_or(p.updated_at, "unknown"@)
        + "\n\n"@ + post_markdown(p)
}

/// `post:get` shows a header of the title, the id and the update time
/// (`unknown` when there is none), and then the Markdown of the post's
/// content (nothing when it has none): the text after the header is the
/// content's Markdown.
pub proof fn lemma_post_text_shows_content(p: Post)
    ensures
        post_text_spec(p) == "# "@ + p.title@ + "\n\nID: "@ + p.id@ + " | Updated: "@ + match p.updated_at {
            Some(u) => u@,
            None => "unknown"@,
        } + "\n\n"@ + match p.content {
            Some(c) => crate::from_delta::markdown_of(c@),
            None => Seq::<char>::empty(),
        },
{
}

/// A post shown as Markdown with a header.
pub fn post_text(post: &Post) -> (r: String)
    ensures
        r@ == post_text_spec(*post),
{
    let mut o: Vec<char> = Vec::new();
    push_lit(&mut o, "# ");
    push_str(&mut o, &post.title);
    push_lit(&mut o, "\n\nID: ");
    push_str(&mut o, &post.id);
    push_lit(&mut o, " | Updated: ");
    push_opt_or(&mut o, &post.updated_at, "unknown");
    push_lit(&mut o, "\n\n");
    match &post.content {
        Some(c) => {
            let md = delta_to_markdown(c);
            push_str(&mut o, &md);
        },
        None => {},
    }
    assert(o@ =~= post_text_spec(*post));
    string_of(o.as_slice())
}

// ---------------------------------------------------------------------
// `slab open`
/// A post's page on the team's site.
pub open spec fn post_url(team: Seq<char>, id: Seq<char>) -> Seq<char> {
    "https://"@ + team + ".slab.com/posts/"@ + id
}

/// `slab open` looks at a file of the vault unless it is given a URL.
pub fn needs_local_lookup(id: &str) -> (b: bool)
    ensures
        b == !crate::text::starts_with(id@, "http"@),
{
    !crate::text::starts_with_chars(chars_of(id).as_slice(), chars_of("http").as_slice())
}

/// What `slab open` opens: a URL as given; the page of the post a vault
/// file names in its frontmatter (`local` is that file's content, `None`
/// when no such file exists); else the page of the post `id`.
pub fn open_url(id: &str, team: &str, local: Option<&str>) -> (r: Result<String, String>)
    ensures
        crate::text::starts_with(id@, "http"@) ==> (r matches Ok(u) && u@ == id@),
        !crate::text::starts_with(id@, "http"@) ==> match local {
            Some(c) => match slab_id_spec(c@) {
                Some(sid) => r matches Ok(u) && u@ == post_url(team@, sid),
                None => r matches Err(e) && e@ == "no slab_id in frontmatter for "@ + id@,
            },
            None => r matches Ok(u) && u@ == post_url(team@, id@),
        },
{
    if !needs_local_lookup(id) {
        return Ok(string_of(chars_of(id).as_slice()));
    }
    let mut o: Vec<char> = Vec::new();
    match local {
        Some(content) => match parse_frontmatter_slab_id(content) {
            Some(sid) => {
                push_lit(&mut o, "https://");
                push_lit(&mut o, team);
                push_lit(&mut o, ".slab.com/posts/");
                push_str(&mut o, &sid);
                Ok(string_of(o.as_slice()))
            },
            None => {
                push_lit(&mut o, "no slab_id in frontmatter for ");
                push_lit(&mut o, id);
                Err(string_of(o.as_slice()))
            },
        },
        None => {
            push_lit(&mut o, "https://");
            push_lit(&mut o, team);
            push_lit(&mut o, ".slab.com/posts/");
            push_lit(&mut o, id);
            Ok(string_of(o.as_slice()))
        },
    }
}

} // verus!
