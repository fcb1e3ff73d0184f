//! `slab topic:*`: listing topics, showing one, and listing its posts.
use vstd::prelude::*;

use crate::from_delta::push_lit;
use crate::output::Format;
use crate::posts::{opt_or, push_opt_or};
use crate::text::{str_is, string_of};
use crate::to_delta::lit_string;
use crate::types::{Post, Topic};
use crate::vault::push_str;

verus! {

/// A topic's line in the text listing, with its description when it has a
/// non-empty one.
pub open spec fn topic_text_line(t: Topic) -> Seq<char> {
    let desc = opt_or(t.description, Seq::empty());
    if desc.len() == 0 {
        "  "@ + t.id@ + " — "@ + t.name@ + "\n"@
    } else {
        "  "@ + t.id@ + " — "@ + t.name@ + " ("@ + desc + ")\n"@
    }
}

/// A topic's row in the TSV listing.
pub open spec fn topic_tsv_line(t: Topic) -> Seq<char> {
    t.id@ + "\t"@ + t.name@ + "\t"@ + opt_or(t.parent_topic_id, "-"@) + "\n"@
}

pub open spec fn topic_lines(ts: Seq<Topic>, tsv: bool) -> Seq<char>
    decreases ts.len(),
{
    if ts.len() == 0 {
        Seq::empty()
    } else {
        topic_lines(ts.drop_last(), tsv) + if tsv {
            topic_tsv_line(ts.last())
        } else {
            topic_text_line(ts.last())
        }
    }
}

/// `slab topic:list` in the text formats (`None` for JSON, which the
/// caller serializes).
pub open spec fn topic_list_spec(ts: Seq<Topic>, format: Format) -> Option<Seq<char>> {
    match format {
        Format::Json => None,
        Format::Tsv => Some("ID\tNAME\tPARENT\n"@ + topic_lines(ts, true)),
        _ => Some(
            if ts.len() == 0 {
                "(no topics)\n"@
            } else {
                topic_lines(ts, false)
            },
        ),
    }
}

/// `slab topic:list` as TSV is a header and then, for each topic in order,
/// a row of its id, its name and its parent's id (`-` for a root),
/// separated by tabs. In the text format a topic without a description is
/// the line `  <id> — <name>`, one with a description adds ` (<description>)`;
/// an empty list says so.
pub proof fn lemma_topic_list_rows(ts: Seq<Topic>, t: Topic)
    ensures
        topic_list_spec(Seq::empty(), Format::Tsv) == Some("ID\tNAME\tPARENT\n"@),
        topic_list_spec(ts, Format::Tsv) matches Some(before) && topic_list_spec(
            ts.push(t),
            Format::Tsv,
        ) == Some(
            before + t.id@ + "\t"@ + t.name@ + "\t"@ + match t.parent_topic_id {
                Some(u) => u@,
                None => "-"@,
            } + "\n"@,
        ),
        topic_list_spec(Seq::empty(), Format::Text) == Some("(no topics)\n"@),
        t.description is None ==> topic_list_spec(seq![t], Format::Text) == Some(
            "  "@ + t.id@ + " — "@ + t.name@ + "\n"@,
        ),
        (t.description matches Some(d) && d@.len() > 0) ==> topic_list_spec(seq![t], Format::Text)
            == Some("  "@ + t.id@ + " — "@ + t.name@ + " ("@ + t.description->0@ + ")\n"@),
        ts.len() > 0 ==> (topic_list_spec(ts, Format::Text) matches Some(before)
            && topic_list_spec(ts.push(t), Format::Text) == Some(before + topic_text_line(t))),
{
    assert(ts.push(t).drop_last() =~= ts);
    assert(ts.push(t).last() == t);
    assert(seq![t].drop_last() =~= Seq::<Topic>::empty());
    assert(seq![t].last() == t);
    assert(topic_lines(Seq::<Topic>::empty(), false) =~= Seq::<char>::empty());
    assert(topic_lines(seq![t], false) == topic_lines(Seq::<Topic>::empty(), false) + topic_text_line(t));
    assert(topic_lines(seq![t], false) =~= topic_text_line(t));
    assert("ID\tNAME\tPARENT\n"@ + Seq::<char>::empty() =~= "ID\tNAME\tPARENT\n"@);
    let rows = topic_lines(ts, true);
    assert(("ID\tNAME\tPARENT\n"@ + rows) + topic_tsv_line(t) =~= "ID\tNAME\tPARENT\n"@ + (rows
        + topic_tsv_line(t)));
}

pub fn format_topic_list(topics: &Vec<Topic>, format: Format) -> (r: Option<String>)
    ensures
        match r {
            Some(s) => topic_list_spec(topics@, format) == Some(s@),
            None => topic_list_spec(topics@, format) is None,
        },
{
    if format == Format::Json {
        return None;
    }
    let tsv = format == Format::Tsv;
    let mut o: Vec<char> = Vec::new();
    if tsv {
        push_lit(&mut o, "ID\tNAME\tPARENT\n");
    }
    let ghost base = o@;
    let mut i: usize = 0;
    while i < topics.len()
        invariant
            i <= topics@.len(),
            o@ == base + topic_lines(topics@.take(i as int), tsv),
        decreases topics.len() - i,
    {
        let t = &topics[i];
        let ghost before = o@;
        if tsv {
            push_str(&mut o, &t.id);
            push_lit(&mut o, "\t");
            push_str(&mut o, &t.name);
            push_lit(&mut o, "\t");
            push_opt_or(&mut o, &t.parent_topic_id, "-");
            push_lit(&mut o, "\n");
            assert(o@ =~= before + topic_tsv_line(*t));
        } else {
            let has_desc = match &t.description {
                Some(d) => crate::text::chars_of(d.as_str()).len() > 0,
                None => false,
            };
            push_lit(&mut o, "  ");
            push_str(&mut o, &t.id);
            push_lit(&mut o, " — ");
            push_str(&mut o, &t.name);
            if has_desc {
                push_lit(&mut o, " (");
                push_opt_or(&mut o, &t.description, "");
                push_lit(&mut o, ")\n");
            } else {
                push_lit(&mut o, "\n");
            }
            assert(o@ =~= before + topic_text_line(*t));
        }
        assert(topics@.take(i + 1).drop_last() =~= topics@.take(i as int));
        i = i + 1;
    }
    assert(topics@.take(topics@.len() as int) =~= topics@);
    if !tsv && topics.len() == 0 {
        return Some(lit_string("(no topics)\n"));
    }
    Some(string_of(o.as_slice()))
}

/// The first topic with id `id`: its index, or the error of `slab
/// topic:get`.
pub fn find_topic(topics: &Vec<Topic>, id: &str) -> (r: Result<usize, String>)
    ensures
        match r {
            Ok(k) => k < topics@.len() && topics@[k as int].id@ == id@ && forall|j: int|
                0 <= j < k ==> (#[trigger] topics@[j]).id@ != id@,
            Err(e) => e@ == "topic not found: "@ + id@ && forall|j: int|
                0 <= j < topics@.len() ==> (#[trigger] topics@[j]).id@ != id@,
        },
{
    let mut i: usize = 0;
    while i < topics.len()
        invariant
            i <= topics@.len(),
            forall|j: int| 0 <= j < i ==> (#[trigger] topics@[j]).id@ != id@,
        decreases topics.len() - i,
    {
        if str_is(topics[i].id.as_str(), id) {
            return Ok(i);
        }
        i = i + 1;
    }
    let mut o: Vec<char> = Vec::new();
    push_lit(&mut o, "topic not found: ");
    push_lit(&mut o, id);
    Err(string_of(o.as_slice()))
}

/// `slab topic:get` in the text formats.
pub open spec fn topic_detail_spec(t: Topic) -> Seq<char> {
    "ID:          "@ + t.id@ + "\nName:        "@ + t.name@ + "\nDescription: "@ + opt_or(
        t.description,
        "-"@,
    ) + "\nParent:      "@ + opt_or(t.parent_topic_id, "-"@) + "\n"@
}

pub fn topic_detail(t: &Topic) -> (r: String)
    ensures
        r@ == topic_detail_spec(*t),
{
    let mut o: Vec<char> = Vec::new();
    push_lit(&mut o, "ID:          ");
    push_str(&mut o, &t.id);
    push_lit(&mut o, "\nName:        ");
    push_str(&mut o, &t.name);
    push_lit(&mut o, "\nDescription: ");
    push_opt_or(&mut o, &t.description, "-");
    push_lit(&mut o, "\nParent:      ");
    push_opt_or(&mut o, &t.parent_topic_id, "-");
    push_lit(&mut o, "\n");
    assert(o@ =~= topic_detail_spec(*t));
    string_of(o.as_slice())
}

/// A post's line in `slab topic:posts`.
pub open spec fn topic_post_line(p: Post, tsv: bool) -> Seq<char> {
    if tsv {
        p.id@ + "\t"@ + p.title@ + "\t"@ + opt_or(p.updated_at, "-"@) + "\n"@
    } else {
        "  "@ + p.id@ + " — "@ + p.title@ + "\n"@
    }
}

pub open spec fn topic_post_lines(ps: Seq<Post>, tsv: bool) -> Seq<char>
    decreases ps.len(),
{
    if ps.len() == 0 {
        Seq::empty()
    } else {
        topic_post_lines(ps.drop_last(), tsv) + topic_post_line(ps.last(), tsv)
    }
}

/// `slab topic:posts` in the text formats (`None` for JSON).
pub open spec fn topic_posts_spec(ps: Seq<Post>, format: Format) -> Option<Seq<char>> {
    match format {
        Format::Json => None,
        Format::Tsv => Some("ID\tTITLE\tUPDATED\n"@ + topic_post_lines(ps, true)),
        _ => Some(
            if ps.len() == 0 {
                "(no posts in topic)\n"@
            } else {
                topic_post_lines(ps, false)
            },
        ),
    }
}

pub fn format_topic_posts(posts: &Vec<Post>, format: Format) -> (r: Option<String>)
    ensures
        match r {
            Some(s) => topic_posts_spec(posts@, format) == Some(s@),
            None => topic_posts_spec(posts@, format) is None,
        },
{
    if format == Format::Json {
        return None;
    }
    let tsv = format == Format::Tsv;
    let mut o: Vec<char> = Vec::new();
    if tsv {
        push_lit(&mut o, "ID\tTITLE\tUPDATED\n");
    }
    let ghost base = o@;
    let mut i: usize = 0;
    while i < posts.len()
        invariant
            i <= posts@.len(),
            o@ == base + topic_post_lines(posts@.take(i as int), tsv),
        decreases posts.len() - i,
    {
        let p = &posts[i];
        let ghost before = o@;
        if tsv {
            push_str(&mut o, &p.id);
            push_lit(&mut o, "\t");
            push_str(&mut o, &p.title);
            push_lit(&mut o, "\t");
            push_opt_or(&mut o, &p.updated_at, "-");
            push_lit(&mut o, "\n");
        } else {
            push_lit(&mut o, "  ");
            push_str(&mut o, &p.id);
            push_lit(&mut o, " — ");
            push_str(&mut o, &p.title);
            push_lit(&mut o, "\n");
        }
        assert(o@ =~= before + topic_post_line(*p, tsv));
        assert(posts@.take(i + 1).drop_last() =~= posts@.take(i as int));
        i = i + 1;
    }
    assert(posts@.take(posts@.len() as int) =~= posts@);
    if !tsv && posts.len() == 0 {
        return Some(lit_string("(no posts in topic)\n"));
    }
    Some(string_of(o.as_slice()))
}

/// `slab topic:posts` as TSV is a header and then, for each post in
/// order, a row of its id, its title and its update time (`-` when it has
/// none), separated by tabs: the third column comes from the update time
/// alone. The text format lists `  <id> — <title>` for each post, or says
/// that there are none.
pub proof fn lemma_topic_posts_rows(ps: Seq<Post>, p: Post)
    ensures
        topic_posts_spec(Seq::empty(), Format::Tsv) == Some("ID\tTITLE\tUPDATED\n"@),
        topic_posts_spec(ps, Format::Tsv) matches Some(before) && topic_posts_spec(
            ps.push(p),
            Format::Tsv,
        ) == Some(
            before + p.id@ + "\t"@ + p.title@ + "\t"@ + match p.updated_at {
                Some(u) => u@,
                None => "-"@,
            } + "\n"@,
        ),
        topic_posts_spec(Seq::empty(), Format::Text) == Some("(no posts in topic)\n"@),
        topic_posts_spec(seq![p], Format::Text) == Some("  "@ + p.id@ + " — "@ + p.title@ + "\n"@),
        ps.len() > 0 ==> (topic_posts_spec(ps, Format::Text) matches Some(before)
            && topic_posts_spec(ps.push(p), Format::Text) == Some(
            before + "  "@ + p.id@ + " — "@ + p.title@ + "\n"@,
        )),
{
    assert(ps.push(p).drop_last() =~= ps);
    assert(ps.push(p).last() == p);
    assert(seq![p].drop_last() =~= Seq::<Post>::empty());
    assert(seq![p].last() == p);
    assert(topic_post_lines(Seq::<Post>::empty(), false) =~= Seq::<char>::empty());
    assert(topic_post_lines(seq![p], false) == topic_post_lines(Seq::<Post>::empty(), false)
        + topic_post_line(p, false));
    assert(topic_post_lines(seq![p], false) =~= topic_post_line(p, false));
    assert(topic_post_lines(ps.push(p), false) == topic_post_lines(ps, false) + topic_post_line(
        p,
        false,
    ));
    assert(Seq::<char>::empty() + "  "@ + p.id@ + " — "@ + p.title@ + "\n"@ =~= "  "@ + p.id@
        + " — "@ + p.title@ + "\n"@);
    assert("ID\tTITLE\tUPDATED\n"@ + Seq::<char>::empty() =~= "ID\tTITLE\tUPDATED\n"@);
    let rows = topic_post_lines(ps, true);
    assert(("ID\tTITLE\tUPDATED\n"@ + rows) + topic_post_line(p, true) =~= "ID\tTITLE\tUPDATED\n"@
        + (rows + topic_post_line(p, true)));
}

} // verus!
