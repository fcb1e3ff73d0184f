//! What the Slab client decides: records as the web endpoint sends them and
//! the library records made of them, the text of JSON fields, and the
//! requests built for GraphQL.
use vstd::prelude::*;

use crate::from_delta::{delta_to_markdown, markdown_of, push_lit};
use crate::json::{
    decimal, entries_view, json_decoded, push_decimal, read_json, Json, JsonNumber, JsonValue, Num,
};
use crate::text::{
    chars_of, contains_chars, contains_seq, slice_chars, str_is, string_of, strings_view, trim,
    trim_chars,
};
use crate::to_delta::{mk_obj1, obj1, push_entry};
use crate::vault::push_str;
use crate::types::{post_checksum, Post, SearchResult, Topic, TopicRef};

verus! {

// ---------------------------------------------------------------------
// Records of the web endpoint
/// The content of a post as the web endpoint sends it.
pub struct WebContent {
    pub delta: Option<JsonValue>,
    pub markdown: Option<String>,
    pub text: Option<String>,
    pub version: Option<i64>,
}

/// A post as the web endpoint sends it.
pub struct WebPost {
    pub id: String,
    pub title: String,
    pub content: Option<WebContent>,
    pub inserted_at: Option<String>,
    pub edited_at: Option<String>,
    pub topics: Option<Vec<TopicRef>>,
}

/// A topic as the web endpoint sends it (`parent` is the parent's id).
pub struct WebTopic {
    pub id: String,
    pub name: String,
    pub description: Option<JsonValue>,
    pub parent: Option<String>,
}

/// The post a web record describes: the content's fields lifted into the
/// post, the edit time as its update time.
pub open spec fn post_of_web(p: WebPost) -> Post {
    Post {
        id: p.id,
        title: p.title,
        content: match p.content {
            Some(c) => c.delta,
            None => None,
        },
        markdown: match p.content {
            Some(c) => c.markdown,
            None => None,
        },
        text: match p.content {
            Some(c) => c.text,
            None => None,
        },
        inserted_at: p.inserted_at,
        updated_at: p.edited_at,
        version: match p.content {
            Some(c) => c.version,
            None => None,
        },
        topics: p.topics,
    }
}

/// `Post::from(WebPost)`.
pub fn post_from_web(p: WebPost) -> (r: Post)
    ensures
        r == post_of_web(p),
        r.id == p.id,
        r.title == p.title,
        r.topics == p.topics,
        r.inserted_at == p.inserted_at,
        r.updated_at == p.edited_at,
        p.content matches Some(c) ==> r.content == c.delta && r.markdown == c.markdown && r.text
            == c.text && r.version == c.version,
        p.content is None ==> r.content is None && r.markdown is None && r.text is None
            && r.version is None,
{
    let (delta, markdown, text, version) = match p.content {
        Some(c) => (c.delta, c.markdown, c.text, c.version),
        None => (None, None, None, None),
    };
    Post {
        id: p.id,
        title: p.title,
        content: delta,
        markdown,
        text,
        inserted_at: p.inserted_at,
        updated_at: p.edited_at,
        version,
        topics: p.topics,
    }
}

/// A post made from a web record keeps what the record says of it: its
/// id, title, topics and creation time; its edit time as the update time;
/// and, when it has content, that content's Delta, Markdown, text and
/// version (none of them when it has no content).
pub proof fn lemma_post_of_web_keeps_record(p: WebPost)
    ensures
        post_of_web(p).id == p.id,
        post_of_web(p).title == p.title,
        post_of_web(p).topics == p.topics,
        post_of_web(p).inserted_at == p.inserted_at,
        post_of_web(p).updated_at == p.edited_at,
        p.content matches Some(c) ==> post_of_web(p).content == c.delta && post_of_web(p).markdown
            == c.markdown && post_of_web(p).text == c.text && post_of_web(p).version == c.version,
        p.content is None ==> post_of_web(p).content is None && post_of_web(p).markdown is None
            && post_of_web(p).text is None && post_of_web(p).version is None,
{
}

// ---------------------------------------------------------------------
// Text of a JSON field
/// The readable text of a Delta held as JSON: an array of ops is wrapped
/// as `{"ops": ..}`, an object is taken as the document; the Markdown is
/// trimmed. Other values have no text.
pub open spec fn structured_text(j: Json) -> Seq<char> {
    match j {
        Json::Arr(_) => trim(markdown_of(obj1("ops"@, j))),
        Json::Obj(_) => trim(markdown_of(j)),
        _ => Seq::empty(),
    }
}

/// The text of a JSON string whose content serde_json reads as `decoded`:
/// the text of the Delta it holds, when it holds an array or an object;
/// the string itself otherwise.
pub open spec fn string_text(s: Seq<char>, decoded: Option<Json>) -> Seq<char> {
    match decoded {
        Some(inner) => if (inner is Arr || inner is Obj) {
            structured_text(inner)
        } else {
            s
        },
        None => s,
    }
}

/// A JSON field (a Delta, or a string holding one) as text.
pub open spec fn json_text_of(j: Json) -> Seq<char> {
    match j {
        Json::Str(s) => string_text(s, json_decoded(s)),
        _ => structured_text(j),
    }
}

/// The text of an array or object value.
pub fn structured_to_text(v: &JsonValue) -> (r: String)
    ensures
        r@ == structured_text(v@),
{
    match v {
        JsonValue::Array(_) => {
            let wrapped = mk_obj1("ops", v.deep_clone());
            let md = delta_to_markdown(&wrapped);
            string_of(trim_chars(chars_of(md.as_str()).as_slice()).as_slice())
        },
        JsonValue::Object(_) => {
            let md = delta_to_markdown(v);
            string_of(trim_chars(chars_of(md.as_str()).as_slice()).as_slice())
        },
        _ => String::new(),
    }
}

/// The text of a JSON string `s`, given what serde_json reads from it.
pub fn string_to_text(s: &str, decoded: Option<&JsonValue>) -> (r: String)
    ensures
        r@ == string_text(s@, crate::json::opt_view(decoded)),
{
    match decoded {
        Some(inner) => match inner {
            JsonValue::Array(_) => structured_to_text(inner),
            JsonValue::Object(_) => structured_to_text(inner),
            _ => string_of(chars_of(s).as_slice()),
        },
        None => string_of(chars_of(s).as_slice()),
    }
}

/// Flattens a JSON field (a Delta, or a string holding the
/// JSON text of one) into readable text.
pub fn json_to_text(v: &JsonValue) -> (r: String)
    ensures
        r@ == json_text_of(v@),
{
    match v {
        JsonValue::Str(s) => {
            let decoded = read_json(s.as_str());
            match &decoded {
                Some(d) => string_to_text(s.as_str(), Some(d)),
                None => string_to_text(s.as_str(), None),
            }
        },
        _ => structured_to_text(v),
    }
}

/// `Topic::from(WebTopic)`: the description as text, the parent by id, no
/// posts.
pub fn topic_from_web(t: WebTopic) -> (r: Topic)
    ensures
        r.id == t.id,
        r.name == t.name,
        r.description matches Some(d) ==> t.description matches Some(j) && d@ == json_text_of(j@),
        r.description is None ==> t.description is None,
        r.parent_topic_id == t.parent,
        r.posts is None,
{
    let description = match &t.description {
        Some(j) => Some(json_to_text(j)),
        None => None,
    };
    Topic { id: t.id, name: t.name, description, parent_topic_id: t.parent, posts: None }
}

// ---------------------------------------------------------------------
// GraphQL replies
/// `parts` joined with `sep` between them.
pub open spec fn join(parts: Seq<Seq<char>>, sep: Seq<char>) -> Seq<char>
    decreases parts.len(),
{
    if parts.len() == 0 {
        Seq::empty()
    } else if parts.len() == 1 {
        parts[0]
    } else {
        join(parts.drop_last(), sep) + sep + parts.last()
    }
}

/// The error of a reply that lists GraphQL errors.
pub open spec fn graphql_error_spec(msgs: Seq<Seq<char>>) -> Seq<char> {
    "GraphQL errors: "@ + join(msgs, "; "@)
}

/// `GraphQL errors: ` and the messages, separated by `; `.
pub fn graphql_error_message(msgs: &Vec<String>) -> (r: String)
    ensures
        r@ == graphql_error_spec(strings_view(msgs@)),
{
    let mut o = chars_of("GraphQL errors: ");
    let ghost base = o@;
    let ghost sv = strings_view(msgs@);
    let mut i: usize = 0;
    assert(sv.take(0) =~= Seq::<Seq<char>>::empty());
    while i < msgs.len()
        invariant
            i <= msgs@.len(),
            sv == strings_view(msgs@),
            o@ == base + join(sv.take(i as int), "; "@),
        decreases msgs.len() - i,
    {
        if i > 0 {
            push_lit(&mut o, "; ");
        }
        push_str(&mut o, &msgs[i]);
        proof {
            assert(sv.take(i + 1).drop_last() =~= sv.take(i as int));
            assert(sv.take(i + 1).last() == msgs@[i as int]@);
            if i == 0 {
                assert(sv.take(1) =~= seq![msgs@[0]@]);
            }
        }
        i = i + 1;
        assert(o@ =~= base + join(sv.take(i as int), "; "@));
    }
    assert(sv.take(msgs@.len() as int) =~= sv);
    string_of(o.as_slice())
}

/// What a GraphQL reply yields: its errors, when it lists any; else its
/// data, which must be there.
pub fn graphql_outcome<T>(data: Option<T>, errors: Option<Vec<String>>) -> (r: Result<T, String>)
    ensures
        match errors {
            Some(m) => r matches Err(e) && e@ == graphql_error_spec(strings_view(m@)),
            None => match data {
                Some(d) => r == Ok::<T, String>(d),
                None => r matches Err(e) && e@ == "no data in GraphQL response"@,
            },
        },
{
    match errors {
        Some(m) => Err(graphql_error_message(&m)),
        None => match data {
            Some(d) => Ok(d),
            None => Err(crate::to_delta::lit_string("no data in GraphQL response")),
        },
    }
}

// ---------------------------------------------------------------------
// Requests
/// The public API (`api.slab.com`) has a slightly different schema than a
/// team's web endpoint.
pub fn is_public_api(endpoint: &str) -> (b: bool)
    ensures
        b == contains_seq(endpoint@, "api.slab.com"@),
{
    contains_chars(chars_of(endpoint).as_slice(), chars_of("api.slab.com").as_slice())
}

/// The host of a team's organization.
pub fn organization_host(team: &str) -> (r: String)
    ensures
        r@ == team@ + ".slab.com"@,
{
    let mut o = chars_of(team);
    push_lit(&mut o, ".slab.com");
    string_of(o.as_slice())
}

/// The `Authorization` header value that every request carries.
pub fn bearer_value(token: &str) -> (r: String)
    ensures
        r@ == "Bearer "@ + token@,
{
    let mut o = chars_of("Bearer ");
    push_lit(&mut o, token);
    string_of(o.as_slice())
}

/// Variables of the organization query: none on the public API, the team's
/// host on a web endpoint.
pub fn organization_vars(endpoint: &str, team: &str) -> (r: Option<JsonValue>)
    ensures
        contains_seq(endpoint@, "api.slab.com"@) ==> r is None,
        !contains_seq(endpoint@, "api.slab.com"@) ==> (r matches Some(v) && v@ == obj1(
            "host"@,
            Json::Str(team@ + ".slab.com"@),
        )),
{
    if is_public_api(endpoint) {
        None
    } else {
        let host = organization_host(team);
        Some(mk_obj1("host", JsonValue::Str(host)))
    }
}

/// `$pI: ID`.
pub open spec fn batch_var_decl(i: nat) -> Seq<char> {
    "$p"@ + decimal(i) + ": ID"@
}

/// The variable declarations of a batch of `n` lookups.
pub open spec fn batch_var_decls(n: nat) -> Seq<char>
    decreases n,
{
    if n == 0 {
        Seq::empty()
    } else if n == 1 {
        batch_var_decl(0)
    } else {
        batch_var_decls((n - 1) as nat) + ", "@ + batch_var_decl((n - 1) as nat)
    }
}

/// The aliased lookup `tI` of the children of `$pI`.
pub open spec fn batch_lookup(i: nat) -> Seq<char> {
    " t"@ + decimal(i) + ": listTopics(first: 100, parentId: $p"@ + decimal(i)
        + ") { edges { node { id name description parent { id } } } pageInfo { endCursor hasNextPage } }"@
}

pub open spec fn batch_lookups(n: nat) -> Seq<char>
    decreases n,
{
    if n == 0 {
        Seq::empty()
    } else {
        batch_lookups((n - 1) as nat) + batch_lookup((n - 1) as nat)
    }
}

/// The query listing the children of `n` parent topics at once.
pub open spec fn children_batch_query_spec(n: nat) -> Seq<char> {
    "query("@ + batch_var_decls(n) + ") {"@ + batch_lookups(n) + "}"@
}

/// The query of `topics_children_batch` for `n` parents.
pub fn children_batch_query(n: usize) -> (q: String)
    ensures
        q@ == children_batch_query_spec(n as nat),
{
    let mut o = chars_of("query(");
    let ghost b0 = o@;
    let mut i: usize = 0;
    while i < n
        invariant
            i <= n,
            o@ == b0 + batch_var_decls(i as nat),
        decreases n - i,
    {
        if i > 0 {
            push_lit(&mut o, ", ");
        }
        push_lit(&mut o, "$p");
        push_decimal(&mut o, i as u64);
        push_lit(&mut o, ": ID");
        i = i + 1;
        assert(o@ =~= b0 + batch_var_decls(i as nat));
    }
    push_lit(&mut o, ") {");
    let ghost b1 = o@;
    i = 0;
    while i < n
        invariant
            i <= n,
            o@ == b1 + batch_lookups(i as nat),
        decreases n - i,
    {
        push_lit(&mut o, " t");
        push_decimal(&mut o, i as u64);
        push_lit(&mut o, ": listTopics(first: 100, parentId: $p");
        push_decimal(&mut o, i as u64);
        push_lit(
            &mut o,
            ") { edges { node { id name description parent { id } } } pageInfo { endCursor hasNextPage } }",
        );
        i = i + 1;
        assert(o@ =~= b1 + batch_lookups(i as nat));
    }
    push_lit(&mut o, "}");
    string_of(o.as_slice())
}

/// The variables `pI` of a batch: the parents' ids.
pub open spec fn batch_vars_spec(parents: Seq<Seq<char>>) -> Seq<(Seq<char>, Json)>
    decreases parents.len(),
{
    if parents.len() == 0 {
        Seq::empty()
    } else {
        batch_vars_spec(parents.drop_last()).push(
            ("p"@ + decimal((parents.len() - 1) as nat), Json::Str(parents.last())),
        )
    }
}

/// The variables of `topics_children_batch`.
pub fn children_batch_vars(parents: &Vec<String>) -> (r: JsonValue)
    ensures
        r@ == Json::Obj(batch_vars_spec(strings_view(parents@))),
{
    let ghost sv = strings_view(parents@);
    let mut es: Vec<(String, JsonValue)> = Vec::new();
    let mut i: usize = 0;
    assert(sv.take(0) =~= Seq::<Seq<char>>::empty());
    while i < parents.len()
        invariant
            i <= parents@.len(),
            sv == strings_view(parents@),
            entries_view(es@) == batch_vars_spec(sv.take(i as int)),
        decreases parents.len() - i,
    {
        let mut k = chars_of("p");
        push_decimal(&mut k, i as u64);
        push_entry(&mut es, string_of(k.as_slice()), JsonValue::Str(parents[i].clone()));
        assert(sv.take(i + 1).drop_last() =~= sv.take(i as int));
        i = i + 1;
    }
    assert(sv.take(parents@.len() as int) =~= sv);
    JsonValue::Object(es)
}

/// `s` without the leading characters `c`.
pub open spec fn trim_leading(s: Seq<char>, c: char) -> Seq<char>
    decreases s.len(),
{
    if s.len() > 0 && s[0] == c {
        trim_leading(s.drop_first(), c)
    } else {
        s
    }
}

pub open spec fn is_digit(c: char) -> bool {
    '0' <= c && c <= '9'
}

/// The number that decimal digits `s` write.
pub open spec fn digits_value(s: Seq<char>) -> nat
    decreases s.len(),
{
    if s.len() == 0 {
        0
    } else {
        digits_value(s.drop_last()) * 10 + ((s.last() as u32) - ('0' as u32)) as nat
    }
}

/// Every character of `s` is a decimal digit.
pub open spec fn all_digits(s: Seq<char>) -> bool {
    forall|i: int| 0 <= i < s.len() ==> is_digit(#[trigger] s[i])
}

/// `s` without one leading `+`.
pub open spec fn unsigned_digits(s: Seq<char>) -> Seq<char> {
    if s.len() > 0 && s[0] == '+' {
        s.drop_first()
    } else {
        s
    }
}

/// `s.parse::<usize>()`: decimal digits after an optional `+`, for a value
/// that fits.
pub open spec fn parse_usize(s: Seq<char>) -> Option<nat> {
    let d = unsigned_digits(s);
    if d.len() > 0 && all_digits(d) && digits_value(d) <= usize::MAX {
        Some(digits_value(d))
    } else {
        None
    }
}

/// The index that an alias `tI` of a batch names (0 when it names none).
pub open spec fn alias_index_spec(alias: Seq<char>) -> nat {
    match parse_usize(trim_leading(alias, 't')) {
        Some(v) => v,
        None => 0,
    }
}

proof fn lemma_digits_value_mono(s: Seq<char>, j: int)
    requires
        0 <= j <= s.len(),
        forall|i: int| 0 <= i < s.len() ==> is_digit(#[trigger] s[i]),
    ensures
        digits_value(s.take(j)) <= digits_value(s),
    decreases s.len() - j,
{
    if j < s.len() {
        lemma_digits_value_mono(s, j + 1);
        assert(s.take(j + 1).drop_last() =~= s.take(j));
        assert(is_digit(s[j]));
    } else {
        assert(s.take(j) =~= s);
    }
}

/// `str::parse::<usize>` on characters.
pub fn parse_usize_chars(s: &[char]) -> (r: Option<usize>)
    ensures
        match parse_usize(s@) {
            Some(v) => r == Some(v as usize),
            None => r is None,
        },
{
    let mut start: usize = 0;
    if s.len() > 0 && s[0] == '+' {
        start = 1;
    }
    let ghost d = s@.skip(start as int);
    assert(d =~= unsigned_digits(s@));
    if start >= s.len() {
        return None;
    }
    let mut v: u128 = 0;
    let mut i: usize = start;
    while i < s.len()
        invariant
            start <= i <= s@.len(),
            start < s@.len(),
            d == s@.skip(start as int),
            d == unsigned_digits(s@),
            v == digits_value(d.take(i - start)),
            v <= usize::MAX,
            forall|k: int| 0 <= k < i - start ==> is_digit(#[trigger] d[k]),
        decreases s.len() - i,
    {
        let c = s[i];
        assert(d[i - start] == c);
        if !('0' <= c && c <= '9') {
            assert(!is_digit(d[i - start]));
            assert(!all_digits(d));
            return None;
        }
        assert(d.take(i - start + 1).drop_last() =~= d.take(i - start));
        let nv: u128 = v * 10 + ((c as u32) - ('0' as u32)) as u128;
        if nv > usize::MAX as u128 {
            proof {
                assert forall|k: int| 0 <= k < i - start + 1 implies is_digit(
                    #[trigger] d.take(i - start + 1)[k],
                ) by {
                    assert(d.take(i - start + 1)[k] == d[k]);
                }
                assert(nv == digits_value(d.take(i - start + 1)));
                if all_digits(d) {
                    lemma_digits_value_mono(d, i - start + 1);
                }
            }
            return None;
        }
        v = nv;
        i = i + 1;
    }
    assert(d.take(d.len() as int) =~= d);
    Some(v as usize)
}

/// The index of the parent that an alias of a children batch names.
pub fn alias_index(alias: &str) -> (r: usize)
    ensures
        r == alias_index_spec(alias@),
{
    let cs = chars_of(alias);
    let mut i: usize = 0;
    assert(cs@.skip(0) =~= cs@);
    while i < cs.len() && cs[i] == 't'
        invariant
            i <= cs@.len(),
            trim_leading(cs@, 't') == trim_leading(cs@.skip(i as int), 't'),
        decreases cs.len() - i,
    {
        assert(cs@.skip(i as int).drop_first() =~= cs@.skip(i + 1));
        i = i + 1;
    }
    let rest = slice_chars(cs.as_slice(), i, cs.len());
    assert(rest@ =~= cs@.skip(i as int));
    match parse_usize_chars(rest.as_slice()) {
        Some(v) => v,
        None => 0,
    }
}

// ---------------------------------------------------------------------
// Topic tree
/// `t` is a child of the topic `parent`.
pub open spec fn child_of(t: Topic, parent: Seq<char>) -> bool {
    t.parent_topic_id matches Some(p) && p@ == parent
}

/// The topics of `ts` that are not children of `parent`, in order.
pub open spec fn without_children(ts: Seq<Topic>, parent: Seq<char>) -> Seq<Topic>
    decreases ts.len(),
{
    if ts.len() == 0 {
        Seq::empty()
    } else if child_of(ts.last(), parent) {
        without_children(ts.drop_last(), parent)
    } else {
        without_children(ts.drop_last(), parent).push(ts.last())
    }
}

/// `ts.retain(|t| t.parent_topic_id != Some(parent))`.
pub fn drop_children(ts: Vec<Topic>, parent: &str) -> (r: Vec<Topic>)
    ensures
        r@ == without_children(ts@, parent@),
{
    let ghost all = ts@;
    let mut rev = reversed(ts);
    assert(rev@ =~= all.skip(0).reverse());
    let mut out: Vec<Topic> = Vec::new();
    let ghost n = rev@.len();
    while rev.len() > 0
        invariant
            rev@.len() <= n,
            n == all.len(),
            rev@ == all.skip(n - rev@.len()).reverse(),
            out@ == without_children(all.take(n - rev@.len()), parent@),
        decreases rev.len(),
    {
        let ghost k = n - rev@.len();
        let t = rev.pop().unwrap();
        assert(all.skip(k).reverse().last() == all[k]);
        assert(all.skip(k).reverse().drop_last() =~= all.skip(k + 1).reverse());
        assert(all.take(k + 1).drop_last() =~= all.take(k));
        let keep = match &t.parent_topic_id {
            Some(p) => !str_is(p.as_str(), parent),
            None => true,
        };
        if keep {
            out.push(t);
        }
    }
    assert(all.take(n as int) =~= all);
    out
}

/// What one aliased lookup of a children batch leaves: its topics added;
/// when the lookup was cut short (a parent with more than a page of
/// children) and its alias names a parent, that parent's children are
/// dropped again and the parent is returned, to be listed page by page.
pub open spec fn batch_entry_spec(
    topics: Seq<Topic>,
    parents: Seq<Seq<char>>,
    alias: Seq<char>,
    found: Seq<Topic>,
    truncated: bool,
) -> (Seq<Topic>, Option<Seq<char>>) {
    let all = topics + found;
    let idx = alias_index_spec(alias);
    if truncated && idx < parents.len() {
        (without_children(all, parents[idx as int]), Some(parents[idx as int]))
    } else {
        (all, None)
    }
}

/// One aliased lookup of `topics_children_batch`.
pub fn absorb_batch_entry(
    topics: Vec<Topic>,
    parents: &Vec<String>,
    alias: &str,
    found: Vec<Topic>,
    truncated: bool,
) -> (r: (Vec<Topic>, Option<String>))
    ensures
        ({
            let (ts, p) = batch_entry_spec(topics@, strings_view(parents@), alias@, found@, truncated);
            &&& r.0@ == ts
            &&& match p {
                Some(x) => r.1 matches Some(y) && y@ == x,
                None => r.1 is None,
            }
        }),
{
    let mut all = topics;
    let mut more = found;
    all.append(&mut more);
    if truncated {
        let idx = alias_index(alias);
        if idx < parents.len() {
            let parent = parents[idx].clone();
            let kept = drop_children(all, parent.as_str());
            return (kept, Some(parent));
        }
    }
    (all, None)
}

/// The ids of topics, in order.
pub fn topic_ids(ts: &Vec<Topic>) -> (r: Vec<String>)
    ensures
        strings_view(r@) == ts@.map_values(|t: Topic| t.id@),
{
    let mut r: Vec<String> = Vec::new();
    let mut i: usize = 0;
    while i < ts.len()
        invariant
            i <= ts@.len(),
            strings_view(r@) == ts@.take(i as int).map_values(|t: Topic| t.id@),
        decreases ts.len() - i,
    {
        let ghost prev = r@;
        r.push(ts[i].id.clone());
        assert(strings_view(r@) =~= strings_view(prev).push(ts@[i as int].id@));
        assert(ts@.take(i + 1).map_values(|t: Topic| t.id@) =~= ts@.take(i as int).map_values(
            |t: Topic| t.id@,
        ).push(ts@[i as int].id@));
        i = i + 1;
    }
    assert(ts@.take(ts@.len() as int) =~= ts@);
    r
}

/// `frontier.chunks(size)`: consecutive groups of `size` ids, the last one
/// shorter when the ids run out.
pub open spec fn chunks_spec(s: Seq<Seq<char>>, size: nat) -> Seq<Seq<Seq<char>>>
    decreases s.len(),
{
    if s.len() == 0 || size == 0 {
        Seq::empty()
    } else if s.len() <= size {
        seq![s]
    } else {
        seq![s.take(size as int)] + chunks_spec(s.skip(size as int), size)
    }
}

pub open spec fn groups_view(v: Seq<Vec<String>>) -> Seq<Seq<Seq<char>>> {
    v.map_values(|g: Vec<String>| strings_view(g@))
}

/// The groups of at most `size` parents asked for at once.
pub fn chunks(ids: &Vec<String>, size: usize) -> (r: Vec<Vec<String>>)
    requires
        size > 0,
    ensures
        groups_view(r@) == chunks_spec(strings_view(ids@), size as nat),
{
    let ghost sv = strings_view(ids@);
    let mut r: Vec<Vec<String>> = Vec::new();
    let mut i: usize = 0;
    assert(sv.skip(0) =~= sv);
    assert(groups_view(r@) + chunks_spec(sv, size as nat) =~= chunks_spec(sv, size as nat));
    while i < ids.len()
        invariant
            i <= ids@.len(),
            sv == strings_view(ids@),
            size > 0,
            groups_view(r@) + chunks_spec(sv.skip(i as int), size as nat) == chunks_spec(sv, size as nat),
        decreases ids.len() - i,
    {
        let end: usize = if ids.len() - i <= size {
            ids.len()
        } else {
            i + size
        };
        let mut g: Vec<String> = Vec::new();
        let mut j: usize = i;
        while j < end
            invariant
                i <= j <= end <= ids@.len(),
                strings_view(g@) == sv.subrange(i as int, j as int),
                sv == strings_view(ids@),
            decreases end - j,
        {
            let ghost prev_g = g@;
            g.push(ids[j].clone());
            assert(strings_view(g@) =~= strings_view(prev_g).push(ids@[j as int]@));
            j = j + 1;
            assert(strings_view(g@) =~= sv.subrange(i as int, j as int));
        }
        let ghost rest = sv.skip(i as int);
        let ghost prev = r@;
        r.push(g);
        assert(groups_view(r@) =~= groups_view(prev).push(strings_view(g@)));
        if end == ids.len() {
            assert(rest =~= sv.subrange(i as int, end as int));
            assert(chunks_spec(rest, size as nat) == seq![rest]);
            assert(sv.skip(end as int).len() == 0);
            assert(groups_view(r@) + chunks_spec(sv.skip(end as int), size as nat) =~= groups_view(prev) + chunks_spec(rest, size as nat));
        } else {
            assert(rest.take(size as int) =~= sv.subrange(i as int, end as int));
            assert(rest.skip(size as int) =~= sv.skip(end as int));
            assert(groups_view(r@) + chunks_spec(sv.skip(end as int), size as nat) =~= groups_view(prev) + chunks_spec(rest, size as nat));
        }
        i = end;
    }
    assert(chunks_spec(sv.skip(ids@.len() as int), size as nat) =~= Seq::<Seq<Seq<char>>>::empty());
    assert(groups_view(r@) + Seq::<Seq<Seq<char>>>::empty() =~= groups_view(r@));
    r
}

/// The ids of the children of the topic `id`, in list order.
pub open spec fn children_ids(ts: Seq<Topic>, id: Seq<char>) -> Seq<Seq<char>>
    decreases ts.len(),
{
    if ts.len() == 0 {
        Seq::empty()
    } else if child_of(ts.last(), id) {
        children_ids(ts.drop_last(), id).push(ts.last().id@)
    } else {
        children_ids(ts.drop_last(), id)
    }
}

/// The order in which a topic's posts are gathered: a walk of the subtree of `id` with a
/// stack: the topic, then the subtree of each child, the last child first.
/// `depth` bounds how deep the walk goes.
pub open spec fn subtree_walk(ts: Seq<Topic>, id: Seq<char>, depth: nat) -> Seq<Seq<char>>
    decreases depth, 0nat,
{
    seq![id] + if depth == 0 {
        Seq::empty()
    } else {
        walk_list(ts, children_ids(ts, id).reverse(), (depth - 1) as nat)
    }
}

/// The walks of `ids`, one after another.
pub open spec fn walk_list(ts: Seq<Topic>, ids: Seq<Seq<char>>, depth: nat) -> Seq<Seq<char>>
    decreases depth, ids.len(),
{
    if ids.len() == 0 {
        Seq::empty()
    } else {
        walk_list(ts, ids.drop_last(), depth) + subtree_walk(ts, ids.last(), depth)
    }
}

/// The ids of the children of `id` in `ts`.
pub fn child_ids(ts: &Vec<Topic>, id: &str) -> (r: Vec<String>)
    ensures
        strings_view(r@) == children_ids(ts@, id@),
{
    let mut r: Vec<String> = Vec::new();
    let mut i: usize = 0;
    while i < ts.len()
        invariant
            i <= ts@.len(),
            strings_view(r@) == children_ids(ts@.take(i as int), id@),
        decreases ts.len() - i,
    {
        assert(ts@.take(i + 1).drop_last() =~= ts@.take(i as int));
        let is_child = match &ts[i].parent_topic_id {
            Some(p) => str_is(p.as_str(), id),
            None => false,
        };
        let ghost prev = r@;
        if is_child {
            r.push(ts[i].id.clone());
            assert(strings_view(r@) =~= strings_view(prev).push(ts@[i as int].id@));
        }
        i = i + 1;
    }
    assert(ts@.take(ts@.len() as int) =~= ts@);
    r
}

/// Appends the walk of the subtree of `id`.
fn walk_into(ts: &Vec<Topic>, id: &String, depth: usize, out: &mut Vec<String>)
    ensures
        strings_view(final(out)@) == strings_view(old(out)@) + subtree_walk(ts@, id@, depth as nat),
    decreases depth,
{
    let ghost base = strings_view(out@);
    out.push(id.clone());
    assert(strings_view(out@) =~= base + seq![id@]);
    if depth == 0 {
        assert(strings_view(out@) =~= base + subtree_walk(ts@, id@, 0));
        return;
    }
    let kids = child_ids(ts, id.as_str());
    let ghost rev = strings_view(kids@).reverse();
    let ghost mid = strings_view(out@);
    let mut j: usize = 0;
    assert(rev.take(0) =~= Seq::<Seq<char>>::empty());
    while j < kids.len()
        invariant
            j <= kids@.len(),
            depth > 0,
            rev == strings_view(kids@).reverse(),
            strings_view(out@) == mid + walk_list(ts@, rev.take(j as int), (depth - 1) as nat),
        decreases kids.len() - j,
    {
        let k = kids.len() - 1 - j;
        assert(rev[j as int] == kids@[k as int]@);
        assert(rev.take(j + 1).drop_last() =~= rev.take(j as int));
        walk_into(ts, &kids[k], depth - 1, out);
        j = j + 1;
        assert(strings_view(out@) =~= mid + walk_list(ts@, rev.take(j as int), (depth - 1) as nat));
    }
    assert(rev.take(kids@.len() as int) =~= rev);
    assert(strings_view(out@) =~= base + subtree_walk(ts@, id@, depth as nat));
}

/// The walk of the topic tree from `topic_id`: the ids of
/// the topic and its descendants, in the order their posts are listed.
/// The walk goes no deeper than the number of topics, which a tree whose
/// parent links form no cycle never reaches.
pub fn topic_subtree(ts: &Vec<Topic>, topic_id: &str) -> (r: Vec<String>)
    ensures
        strings_view(r@) == subtree_walk(ts@, topic_id@, ts@.len()),
{
    let mut out: Vec<String> = Vec::new();
    let root = string_of(chars_of(topic_id).as_slice());
    walk_into(ts, &root, ts.len(), &mut out);
    assert(strings_view(out@) =~= subtree_walk(ts@, topic_id@, ts@.len()));
    out
}

// ---------------------------------------------------------------------
// Posts of several pages
/// The posts of `page` added to `acc`, each post whose id is not there yet.
pub open spec fn add_unseen(acc: Seq<Post>, page: Seq<Post>) -> Seq<Post>
    decreases page.len(),
{
    if page.len() == 0 {
        acc
    } else {
        let a = add_unseen(acc, page.drop_last());
        if a.map_values(|p: Post| p.id@).contains(page.last().id@) {
            a
        } else {
            a.push(page.last())
        }
    }
}

/// No two posts of `ps` share an id.
pub open spec fn ids_distinct(ps: Seq<Post>) -> bool {
    forall|i: int, j: int| 0 <= i < j < ps.len() ==> ps[i].id@ != ps[j].id@
}

/// Adding a page to posts listed once keeps each post listed once, lists
/// every post of the page (by id), and keeps the posts already listed in
/// place; so the posts of a topic's subtree, gathered page by page, are
/// each listed once.
pub proof fn lemma_add_unseen_lists_once(acc: Seq<Post>, page: Seq<Post>)
    requires
        ids_distinct(acc),
    ensures
        ids_distinct(add_unseen(acc, page)),
        add_unseen(acc, page).len() >= acc.len(),
        forall|i: int| 0 <= i < acc.len() ==> add_unseen(acc, page)[i] == acc[i],
        forall|i: int|
            0 <= i < page.len() ==> add_unseen(acc, page).map_values(|p: Post| p.id@).contains(
                page[i].id@,
            ),
    decreases page.len(),
{
    if page.len() > 0 {
        let pd = page.drop_last();
        lemma_add_unseen_lists_once(acc, pd);
        let a = add_unseen(acc, pd);
        let l = page.last();
        let ia = a.map_values(|p: Post| p.id@);
        let r = add_unseen(acc, page);
        let ir = r.map_values(|p: Post| p.id@);
        if ia.contains(l.id@) {
            assert(r == a);
            assert forall|i: int| 0 <= i < page.len() implies ir.contains(page[i].id@) by {
                if i < page.len() - 1 {
                    assert(pd[i] == page[i]);
                }
            }
        } else {
            assert(r == a.push(l));
            assert forall|k: int| 0 <= k < a.len() implies a[k].id@ != l.id@ by {
                assert(ia[k] == a[k].id@);
            }
            assert forall|i: int, j: int| 0 <= i < j < r.len() implies r[i].id@ != r[j].id@ by {
                if j < a.len() {
                    assert(r[i] == a[i] && r[j] == a[j]);
                } else {
                    assert(r[i] == a[i] && r[j] == l);
                }
            }
            assert forall|i: int| 0 <= i < page.len() implies ir.contains(page[i].id@) by {
                if i < page.len() - 1 {
                    assert(pd[i] == page[i]);
                    let k = choose|k: int| 0 <= k < ia.len() && ia[k] == page[i].id@;
                    assert(ir[k] == r[k].id@ && r[k] == a[k]);
                } else {
                    assert(ir[a.len() as int] == l.id@);
                }
            }
        }
    }
}

/// Some post of `ps` has the id `id`.
pub fn has_post_id(ps: &Vec<Post>, id: &String) -> (b: bool)
    ensures
        b == ps@.map_values(|p: Post| p.id@).contains(id@),
{
    let ghost ids = ps@.map_values(|p: Post| p.id@);
    let mut i: usize = 0;
    while i < ps.len()
        invariant
            i <= ps@.len(),
            ids == ps@.map_values(|p: Post| p.id@),
            forall|k: int| 0 <= k < i ==> ids[k] != id@,
        decreases ps.len() - i,
    {
        if str_is(ps[i].id.as_str(), id.as_str()) {
            assert(ids[i as int] == id@);
            return true;
        }
        i = i + 1;
    }
    false
}

/// Adds the posts of a page that are not listed yet (a topic's posts are
/// listed once each, where each first appears).
pub fn add_unseen_posts(posts: &mut Vec<Post>, page: Vec<Post>)
    ensures
        final(posts)@ == add_unseen(old(posts)@, page@),
{
    let ghost acc = posts@;
    let ghost all = page@;
    let mut rev = reversed(page);
    assert(rev@ =~= all.skip(0).reverse());
    let ghost n = rev@.len();
    while rev.len() > 0
        invariant
            rev@.len() <= n,
            n == all.len(),
            rev@ == all.skip(n - rev@.len()).reverse(),
            posts@ == add_unseen(acc, all.take(n - rev@.len())),
        decreases rev.len(),
    {
        let ghost k = n - rev@.len();
        let p = rev.pop().unwrap();
        assert(all.skip(k).reverse().last() == all[k]);
        assert(all.skip(k).reverse().drop_last() =~= all.skip(k + 1).reverse());
        assert(all.take(k + 1).drop_last() =~= all.take(k));
        if !has_post_id(posts, &p.id) {
            posts.push(p);
        }
    }
    assert(all.take(n as int) =~= all);
}

/// The cursor of the next page: the end cursor when there is one more page.
pub fn next_cursor(has_next_page: bool, end_cursor: Option<String>) -> (r: Option<String>)
    ensures
        r == (if has_next_page {
            end_cursor
        } else {
            None
        }),
{
    if has_next_page {
        end_cursor
    } else {
        None
    }
}

// ---------------------------------------------------------------------
// Search replies
/// A hit of a search reply, as the web endpoint sends it.
pub struct SearchNode {
    pub post: Option<WebPost>,
    pub highlight: Option<JsonValue>,
}

/// The post and highlight text of a hit that has a post.
pub open spec fn hit_of(n: SearchNode) -> Option<(Post, Option<Seq<char>>)> {
    match n.post {
        Some(p) => Some(
            (
                post_of_web(p),
                match n.highlight {
                    Some(h) => Some(json_text_of(h@)),
                    None => None,
                },
            ),
        ),
        None => None,
    }
}

/// The results of a search reply: the hits that have a post, in order.
pub open spec fn search_hits(ns: Seq<SearchNode>) -> Seq<(Post, Option<Seq<char>>)>
    decreases ns.len(),
{
    if ns.len() == 0 {
        Seq::empty()
    } else {
        match hit_of(ns.last()) {
            Some(h) => search_hits(ns.drop_last()).push(h),
            None => search_hits(ns.drop_last()),
        }
    }
}

pub open spec fn result_view(r: SearchResult) -> (Post, Option<Seq<char>>) {
    (
        r.post,
        match r.highlight {
            Some(h) => Some(h@),
            None => None,
        },
    )
}

pub open spec fn results_view(rs: Seq<SearchResult>) -> Seq<(Post, Option<Seq<char>>)> {
    rs.map_values(|r: SearchResult| result_view(r))
}

/// The search results of a reply's hits.
pub fn search_results(nodes: Vec<SearchNode>) -> (r: Vec<SearchResult>)
    ensures
        results_view(r@) == search_hits(nodes@),
{
    let ghost all = nodes@;
    let mut rev = reversed(nodes);
    assert(rev@ =~= all.skip(0).reverse());
    let ghost n = all.len();
    let mut out: Vec<SearchResult> = Vec::new();
    while rev.len() > 0
        invariant
            rev@.len() <= n,
            n == all.len(),
            rev@ == all.skip(n - rev@.len()).reverse(),
            results_view(out@) == search_hits(all.take(n - rev@.len())),
        decreases rev.len(),
    {
        let ghost k = n - rev@.len();
        let node = rev.pop().unwrap();
        assert(all.skip(k).reverse().last() == all[k]);
        assert(all.skip(k).reverse().drop_last() =~= all.skip(k + 1).reverse());
        assert(all.take(k + 1).drop_last() =~= all.take(k));
        let ghost prev = out@;
        match node.post {
            Some(p) => {
                let highlight = match &node.highlight {
                    Some(h) => Some(json_to_text(h)),
                    None => None,
                };
                let res = SearchResult { post: post_from_web(p), highlight };
                out.push(res);
                assert(results_view(out@) =~= results_view(prev).push(result_view(res)));
            },
            None => {},
        }
    }
    assert(all.take(n as int) =~= all);
    out
}

/// The elements of `v`, last first.
pub fn reversed<T>(v: Vec<T>) -> (r: Vec<T>)
    ensures
        r@ == v@.reverse(),
{
    let mut src = v;
    let mut rev: Vec<T> = Vec::new();
    let ghost all = src@;
    while src.len() > 0
        invariant
            all == src@ + rev@.reverse(),
        decreases src.len(),
    {
        let t = src.pop().unwrap();
        let ghost prev_rev = rev@;
        rev.push(t);
        assert(rev@.reverse() =~= seq![t] + prev_rev.reverse());
        assert(rev@.reverse().reverse() =~= rev@);
    }
    assert(rev@.reverse() =~= all);
    assert(rev@ =~= all.reverse());
    rev
}

// ---------------------------------------------------------------------
// Variables of mutations
/// A JSON integer, as `serde_json` makes it from an `i64`.
pub open spec fn int_json(i: i64) -> Json {
    if i >= 0 {
        Json::Num(Num::PosInt(i as u64))
    } else {
        Json::Num(Num::NegInt(i))
    }
}

pub fn int_value(i: i64) -> (r: JsonValue)
    ensures
        r@ == int_json(i),
{
    if i >= 0 {
        JsonValue::Number(JsonNumber::PosInt(i as u64))
    } else {
        JsonValue::Number(JsonNumber::NegInt(i))
    }
}

/// The variables of `updatePostContent`.
pub open spec fn update_vars_spec(id: Seq<char>, delta: Json, version: i64, checksum: i64) -> Json {
    Json::Obj(
        seq![
            ("id"@, Json::Str(id)),
            ("delta"@, delta),
            ("version"@, int_json(version)),
            ("checksum"@, int_json(checksum)),
        ],
    )
}

/// The variables that update the content of the post `id` to `delta`,
/// given the post as it is now: its content version, and the checksum of
/// its text, which the server checks.
pub fn update_content_vars(id: &str, delta: &JsonValue, current: &Post) -> (r: Result<
    JsonValue,
    String,
>)
    ensures
        match current.version {
            Some(v) => r matches Ok(j) && j@ == update_vars_spec(
                id@,
                delta@,
                v,
                post_checksum(current.text),
            ),
            None => r matches Err(e) && e@ == "post has no content version"@,
        },
{
    let version = match current.version {
        Some(v) => v,
        None => {
            return Err(crate::to_delta::lit_string("post has no content version"));
        },
    };
    let checksum = current.checksum();
    let mut es: Vec<(String, JsonValue)> = Vec::new();
    push_entry(&mut es, crate::to_delta::lit_string("id"), JsonValue::string(id));
    push_entry(&mut es, crate::to_delta::lit_string("delta"), delta.deep_clone());
    push_entry(&mut es, crate::to_delta::lit_string("version"), int_value(version));
    push_entry(&mut es, crate::to_delta::lit_string("checksum"), int_value(checksum));
    assert(entries_view(es@) =~= seq![
        ("id"@, Json::Str(id@)),
        ("delta"@, delta@),
        ("version"@, int_json(version)),
        ("checksum"@, int_json(checksum)),
    ]);
    Ok(JsonValue::Object(es))
}

/// The variables of `createPost`.
pub open spec fn create_vars_spec(title: Seq<char>, content: Json, topic: Option<Seq<char>>) -> Json {
    Json::Obj(
        seq![
            ("title"@, Json::Str(title)),
            ("content"@, content),
            (
                "topicId"@,
                match topic {
                    Some(t) => Json::Str(t),
                    None => Json::Null,
                },
            ),
        ],
    )
}

/// The variables of a content update name the post by `id`, carry the new
/// Delta as `delta`, and the post's current content version and text
/// checksum as `version` and `checksum`; those of a new post carry its
/// title as `title`, its Delta as `content` and its topic (`null` for none)
/// as `topicId`.
pub proof fn lemma_post_vars_fields(
    id: Seq<char>,
    delta: Json,
    version: i64,
    checksum: i64,
    title: Seq<char>,
    topic: Option<Seq<char>>,
)
    ensures
        crate::json::get(update_vars_spec(id, delta, version, checksum), "id"@) == Some(Json::Str(id)),
        crate::json::get(update_vars_spec(id, delta, version, checksum), "delta"@) == Some(delta),
        crate::json::get(update_vars_spec(id, delta, version, checksum), "version"@) == Some(int_json(version)),
        crate::json::get(update_vars_spec(id, delta, version, checksum), "checksum"@) == Some(
            int_json(checksum),
        ),
        crate::json::get(create_vars_spec(title, delta, topic), "title"@) == Some(Json::Str(title)),
        crate::json::get(create_vars_spec(title, delta, topic), "content"@) == Some(delta),
        crate::json::get(create_vars_spec(title, delta, topic), "topicId"@) == Some(
            match topic {
                Some(t) => Json::Str(t),
                None => Json::Null,
            },
        ),
{
    reveal_strlit("id");
    reveal_strlit("delta");
    reveal_strlit("version");
    reveal_strlit("checksum");
    reveal_strlit("title");
    reveal_strlit("content");
    reveal_strlit("topicId");
    let u = seq![
        ("id"@, Json::Str(id)),
        ("delta"@, delta),
        ("version"@, int_json(version)),
        ("checksum"@, int_json(checksum)),
    ];
    assert("id"@[0] != "delta"@[0] && "id"@[0] != "version"@[0] && "id"@[0] != "checksum"@[0]);
    assert("delta"@[0] != "version"@[0] && "delta"@[0] != "checksum"@[0] && "version"@[0]
        != "checksum"@[0]);
    crate::json::lemma_entries_get_index(u, "id"@, 0);
    crate::json::lemma_entries_get_index(u, "delta"@, 1);
    crate::json::lemma_entries_get_index(u, "version"@, 2);
    crate::json::lemma_entries_get_index(u, "checksum"@, 3);
    let c = seq![
        ("title"@, Json::Str(title)),
        ("content"@, delta),
        (
            "topicId"@,
            match topic {
                Some(t) => Json::Str(t),
                None => Json::Null,
            },
        ),
    ];
    assert("title"@[0] != "content"@[0] && "content"@[0] != "topicId"@[0]);
    assert("title"@[1] != "topicId"@[1]);
    crate::json::lemma_entries_get_index(c, "title"@, 0);
    crate::json::lemma_entries_get_index(c, "content"@, 1);
    crate::json::lemma_entries_get_index(c, "topicId"@, 2);
}

/// The variables that create a post, in a topic or in none.
pub fn create_post_vars(title: &str, content: &JsonValue, topic_id: Option<&str>) -> (r: JsonValue)
    ensures
        r@ == create_vars_spec(
            title@,
            content@,
            match topic_id {
                Some(t) => Some(t@),
                None => None,
            },
        ),
{
    let mut es: Vec<(String, JsonValue)> = Vec::new();
    push_entry(&mut es, crate::to_delta::lit_string("title"), JsonValue::string(title));
    push_entry(&mut es, crate::to_delta::lit_string("content"), content.deep_clone());
    let topic = match topic_id {
        Some(t) => JsonValue::string(t),
        None => JsonValue::Null,
    };
    let ghost tj = topic@;
    assert(tj == (match topic_id {
        Some(t) => Json::Str(t@),
        None => Json::Null,
    }));
    push_entry(&mut es, crate::to_delta::lit_string("topicId"), topic);
    assert(entries_view(es@) =~= seq![
        ("title"@, Json::Str(title@)),
        ("content"@, content@),
        ("topicId"@, tj),
    ]);
    proof {
        let ot = match topic_id {
            Some(t) => Some(t@),
            None => None,
        };
        assert(entries_view(es@) =~= seq![
            ("title"@, Json::Str(title@)),
            ("content"@, content@),
            (
                "topicId"@,
                match ot {
                    Some(t) => Json::Str(t),
                    None => Json::Null,
                },
            ),
        ]);
    }
    JsonValue::Object(es)
}

} // verus!
