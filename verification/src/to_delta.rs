//! Markdown to Quill Delta.
use vstd::prelude::*;

use crate::json::{
    entries_view, json_decoded, json_view, lemma_entries_view_push, lemma_seq_view_push, read_json,
    seq_view, Json, JsonNumber, JsonValue, Num,
};
use crate::markdown::{heading_level_num, level_num, parse_markdown, markdown_events, MdEvent};
use crate::text::{chars_of, push_all, string_of, trim, trim_chars, starts_with, ends_with};
use crate::from_delta::{char_index, lemma_char_index_at};

verus! {

/// An inline format in effect while Markdown text is read.
#[derive(Debug)]
pub enum InlineAttr {
    Bold,
    Italic,
    Strike,
    Link(String),
}

/// Kind of an inline format: bold 0, italic 1, strike 2, link 3.
pub open spec fn attr_kind(a: InlineAttr) -> int {
    match a {
        InlineAttr::Bold => 0,
        InlineAttr::Italic => 1,
        InlineAttr::Strike => 2,
        InlineAttr::Link(_) => 3,
    }
}

/// Some format of kind `k` is in effect.
pub open spec fn has_kind(s: Seq<InlineAttr>, k: int) -> bool
    decreases s.len(),
{
    if s.len() == 0 {
        false
    } else {
        attr_kind(s.last()) == k || has_kind(s.drop_last(), k)
    }
}

/// Destination of the innermost link in effect.
pub open spec fn last_link(s: Seq<InlineAttr>) -> Option<Seq<char>>
    decreases s.len(),
{
    if s.len() == 0 {
        None
    } else {
        match s.last() {
            InlineAttr::Link(u) => Some(u@),
            _ => last_link(s.drop_last()),
        }
    }
}

/// The formats other than those of kind `k`, in order.
pub open spec fn without_kind(s: Seq<InlineAttr>, k: int) -> Seq<InlineAttr>
    decreases s.len(),
{
    if s.len() == 0 {
        s
    } else if attr_kind(s.last()) == k {
        without_kind(s.drop_last(), k)
    } else {
        without_kind(s.drop_last(), k).push(s.last())
    }
}

/// `{k: v}`.
pub open spec fn obj1(k: Seq<char>, v: Json) -> Json {
    Json::Obj(seq![(k, v)])
}

/// `{"insert": v}`.
pub open spec fn insert_op(v: Json) -> Json {
    obj1("insert"@, v)
}

/// `{"insert": v, "attributes": a}` (entries in key order).
pub open spec fn insert_attr_op(v: Json, a: Json) -> Json {
    Json::Obj(seq![("attributes"@, a), ("insert"@, v)])
}

pub open spec fn newline() -> Json {
    Json::Str("\n"@)
}

/// The attribute object of the inline formats in effect (keys in order).
pub open spec fn attr_obj(s: Seq<InlineAttr>) -> Json {
    let b = if has_kind(s, 0) {
        seq![("bold"@, Json::Bool(true))]
    } else {
        Seq::empty()
    };
    let i = if has_kind(s, 1) {
        seq![("italic"@, Json::Bool(true))]
    } else {
        Seq::empty()
    };
    let l = match last_link(s) {
        Some(u) => seq![("link"@, Json::Str(u))],
        None => Seq::empty(),
    };
    let k = if has_kind(s, 2) {
        seq![("strike"@, Json::Bool(true))]
    } else {
        Seq::empty()
    };
    Json::Obj(b + i + l + k)
}

/// State of the conversion: operations so far, inline formats in effect,
/// the pending block attribute, buffered text and the code block language.
pub struct DeltaState {
    pub ops: Seq<Json>,
    pub inline: Seq<InlineAttr>,
    pub block: Option<Json>,
    pub buf: Seq<char>,
    pub code_lang: Seq<char>,
}

pub open spec fn delta_init() -> DeltaState {
    DeltaState {
        ops: Seq::empty(),
        inline: Seq::empty(),
        block: None,
        buf: Seq::empty(),
        code_lang: Seq::empty(),
    }
}

/// Buffered text becomes one insert with the inline formats in effect.
pub open spec fn flush_buf(st: DeltaState) -> DeltaState {
    if st.buf.len() == 0 {
        st
    } else {
        let op = if st.inline.len() == 0 {
            insert_op(Json::Str(st.buf))
        } else {
            insert_attr_op(Json::Str(st.buf), attr_obj(st.inline))
        };
        DeltaState { ops: st.ops.push(op), buf: Seq::empty(), ..st }
    }
}

/// A code line's newline.
pub open spec fn code_newline(lang: Seq<char>) -> Json {
    insert_attr_op(newline(), obj1("code-block"@, Json::Str(lang)))
}

/// The inserts of the lines of a code block (before dropping the final
/// newline of a block that ends with one).
pub open spec fn code_lines(ops: Seq<Json>, rest: Seq<char>, lang: Seq<char>, trailing: bool) -> Seq<
    Json,
>
    decreases rest.len(),
{
    match char_index(rest, '\n') {
        None => {
            let o = if rest.len() > 0 || !trailing {
                ops.push(insert_op(Json::Str(rest)))
            } else {
                ops
            };
            o.push(code_newline(lang))
        },
        Some(i) => {
            proof {
                crate::from_delta::lemma_char_index(rest, '\n');
            }
            let line = rest.take(i);
            let o = if line.len() > 0 || !trailing {
                ops.push(insert_op(Json::Str(line)))
            } else {
                ops
            };
            code_lines(o.push(code_newline(lang)), rest.skip(i + 1), lang, trailing)
        },
    }
}

pub proof fn lemma_code_lines_len(ops: Seq<Json>, rest: Seq<char>, lang: Seq<char>, trailing: bool)
    ensures
        code_lines(ops, rest, lang, trailing).len() > ops.len(),
    decreases rest.len(),
{
    crate::from_delta::lemma_char_index(rest, '\n');
    match char_index(rest, '\n') {
        None => {},
        Some(i) => {
            let line = rest.take(i);
            let o = if line.len() > 0 || !trailing {
                ops.push(insert_op(Json::Str(line)))
            } else {
                ops
            };
            lemma_code_lines_len(o.push(code_newline(lang)), rest.skip(i + 1), lang, trailing);
        },
    }
}

/// End of a code block: one insert per line, each followed by a
/// code-block newline.
pub open spec fn code_block_ops(ops: Seq<Json>, code: Seq<char>, lang: Seq<char>) -> Seq<Json> {
    let trailing = code.len() > 0 && code.last() == '\n';
    let all = code_lines(ops, code, lang, trailing);
    if trailing {
        all.drop_last()
    } else {
        all
    }
}

/// The embed carried by an HTML comment `<!-- slab:embed JSON -->`.
pub open spec fn embed_of(html: Seq<char>) -> Option<Json> {
    let t = trim(html);
    let pre = "<!-- slab:embed "@;
    let suf = " -->"@;
    if starts_with(t, pre) {
        let rest = t.skip(pre.len() as int);
        if ends_with(rest, suf) {
            let js = rest.take(rest.len() - suf.len());
            json_decoded(js)
        } else {
            None
        }
    } else {
        None
    }
}


/// One Markdown event.
pub open spec fn ev_step(st: DeltaState, ev: MdEvent) -> DeltaState {
    match ev {
        MdEvent::StartHeading(l) => DeltaState {
            block: Some(obj1("header"@, Json::Num(Num::PosInt(level_num(l) as u64)))),
            ..st
        },
        MdEvent::StartStrong => DeltaState { inline: st.inline.push(InlineAttr::Bold), ..st },
        MdEvent::StartEmphasis => DeltaState { inline: st.inline.push(InlineAttr::Italic), ..st },
        MdEvent::StartStrikethrough => DeltaState {
            inline: st.inline.push(InlineAttr::Strike),
            ..st
        },
        MdEvent::StartLink(u) => DeltaState { inline: st.inline.push(InlineAttr::Link(u)), ..st },
        MdEvent::StartCodeBlock(k) => DeltaState {
            code_lang: match k {
                Some(l) => l@,
                None => Seq::empty(),
            },
            ..st
        },
        MdEvent::StartBlockQuote => DeltaState {
            block: Some(obj1("blockquote"@, Json::Bool(true))),
            ..st
        },
        MdEvent::StartImage(u) => DeltaState {
            ops: st.ops.push(insert_op(obj1("image"@, Json::Str(u@)))),
            ..st
        },
        MdEvent::EndHeading => {
            let s1 = flush_buf(st);
            let op = match s1.block {
                Some(a) => insert_attr_op(newline(), a),
                None => insert_op(newline()),
            };
            DeltaState { ops: s1.ops.push(op), block: None, ..s1 }
        },
        MdEvent::EndStrong => {
            let s1 = flush_buf(st);
            DeltaState { inline: without_kind(s1.inline, 0), ..s1 }
        },
        MdEvent::EndEmphasis => {
            let s1 = flush_buf(st);
            DeltaState { inline: without_kind(s1.inline, 1), ..s1 }
        },
        MdEvent::EndStrikethrough => {
            let s1 = flush_buf(st);
            DeltaState { inline: without_kind(s1.inline, 2), ..s1 }
        },
        MdEvent::EndLink => {
            let s1 = flush_buf(st);
            DeltaState { inline: without_kind(s1.inline, 3), ..s1 }
        },
        MdEvent::EndCodeBlock => {
            let lang = if st.code_lang.len() == 0 {
                "plain"@
            } else {
                st.code_lang
            };
            DeltaState {
                ops: code_block_ops(st.ops, st.buf, lang),
                buf: Seq::empty(),
                code_lang: Seq::empty(),
                ..st
            }
        },
        MdEvent::EndItem => {
            let s1 = flush_buf(st);
            let op = match s1.block {
                Some(a) => insert_attr_op(newline(), a),
                None => insert_attr_op(newline(), obj1("list"@, Json::Str("bullet"@))),
            };
            DeltaState { ops: s1.ops.push(op), block: None, ..s1 }
        },
        MdEvent::EndBlockQuote => DeltaState { block: None, ..st },
        MdEvent::EndParagraph => {
            let s1 = flush_buf(st);
            if s1.block is None {
                DeltaState { ops: s1.ops.push(insert_op(newline())), ..s1 }
            } else {
                s1
            }
        },
        MdEvent::Text(t) => DeltaState { buf: st.buf + t@, ..st },
        MdEvent::Code(c) => {
            let s1 = flush_buf(st);
            DeltaState {
                ops: s1.ops.push(insert_attr_op(Json::Str(c@), obj1("code"@, Json::Bool(true)))),
                ..s1
            }
        },
        MdEvent::SoftBreak => DeltaState { buf: st.buf.push(' '), ..st },
        MdEvent::HardBreak => {
            let s1 = flush_buf(st);
            DeltaState { ops: s1.ops.push(insert_op(newline())), ..s1 }
        },
        MdEvent::Rule => DeltaState {
            ops: st.ops.push(insert_op(obj1("divider"@, Json::Bool(true)))).push(
                insert_op(newline()),
            ),
            ..st
        },
        MdEvent::Html(h) => {
            let t = trim(h@);
            match embed_of(t) {
                Some(e) => DeltaState { ops: st.ops.push(insert_op(e)), ..st },
                None => if t == "<u>"@ || t == "</u>"@ {
                    st
                } else {
                    DeltaState { buf: st.buf + h@, ..st }
                },
            }
        },
        _ => st,
    }
}

pub open spec fn events_fold(evs: Seq<MdEvent>) -> DeltaState
    decreases evs.len(),
{
    if evs.len() == 0 {
        delta_init()
    } else {
        ev_step(events_fold(evs.drop_last()), evs.last())
    }
}

/// The Delta document `{"ops": [...]}` built from Markdown events.
pub open spec fn delta_of_events(evs: Seq<MdEvent>) -> Json {
    obj1("ops"@, Json::Arr(flush_buf(events_fold(evs)).ops))
}

/// An embed that Markdown keeps as a `<!-- slab:embed .. -->` comment
/// is read back as the JSON value that its text holds.
pub proof fn lemma_embed_comment_read_back(e: Json)
    ensures
        embed_of(crate::from_delta::embed_comment(e)) == json_decoded(crate::json::json_text(e)),
{
    reveal_strlit("<!-- slab:embed ");
    reveal_strlit(" -->");
    let pre = "<!-- slab:embed "@;
    let suf = " -->"@;
    let js = crate::json::json_text(e);
    let c = pre + js + suf;
    assert(c == crate::from_delta::embed_comment(e));
    assert(c[0] == '<');
    assert(!crate::text::is_ws(c[0]));
    assert(crate::text::trim_start(c) == c);
    assert(c.last() == '>');
    assert(crate::text::trim_end(c) == c);
    assert(trim(c) == c);
    assert(c.take(pre.len() as int) =~= pre);
    let rest = c.skip(pre.len() as int);
    assert(rest =~= js + suf);
    assert(rest.skip(rest.len() - suf.len()) =~= suf);
    assert(rest.take(rest.len() - suf.len()) =~= js);
}

// ---------------------------------------------------------------------
// Implementation
/// Reads the embed that a `<!-- slab:embed JSON -->` comment carries.
pub fn parse_slab_embed_comment(html: &str) -> (r: Option<JsonValue>)
    ensures
        r matches Some(v) ==> embed_of(html@) == Some(v@),
        r is None ==> embed_of(html@) is None,
{
    let hc = chars_of(html);
    let t = trim_chars(hc.as_slice());
    let pre = chars_of("<!-- slab:embed ");
    if !crate::text::starts_with_chars(t.as_slice(), pre.as_slice()) {
        return None;
    }
    let rest = crate::text::slice_chars(t.as_slice(), pre.len(), t.len());
    let suf = chars_of(" -->");
    if !crate::text::ends_with_chars(rest.as_slice(), suf.as_slice()) {
        return None;
    }
    let js = crate::text::slice_chars(rest.as_slice(), 0, rest.len() - suf.len());
    let jstr = string_of(js.as_slice());
    read_json(jstr.as_str())
}

/// The text handed to the Markdown parser: embed comments pass through
/// as HTML, so the text is unchanged.
pub fn preprocess_embeds(md: &str) -> (r: String)
    ensures
        r@ == md@,
{
    string_of(chars_of(md).as_slice())
}

/// A `String` holding a literal.
pub fn lit_string(s: &str) -> (r: String)
    ensures
        r@ == s@,
{
    string_of(chars_of(s).as_slice())
}

/// `{k: v}`.
pub fn mk_obj1(k: &str, v: JsonValue) -> (r: JsonValue)
    ensures
        r@ == obj1(k@, v@),
{
    let ks = lit_string(k);
    let mut es: Vec<(String, JsonValue)> = Vec::new();
    let ghost e0 = es@;
    let ghost ent = (ks, v);
    es.push((ks, v));
    proof {
        lemma_entries_view_push(e0, ent);
    }
    assert(entries_view(es@) =~= seq![(k@, v@)]);
    JsonValue::Object(es)
}

/// `{"insert": v}`.
pub fn mk_insert(v: JsonValue) -> (r: JsonValue)
    ensures
        r@ == insert_op(v@),
{
    mk_obj1("insert", v)
}

/// `{"attributes": a, "insert": v}`.
pub fn mk_insert_attr(v: JsonValue, a: JsonValue) -> (r: JsonValue)
    ensures
        r@ == insert_attr_op(v@, a@),
{
    let k1 = lit_string("attributes");
    let k2 = lit_string("insert");
    let mut es: Vec<(String, JsonValue)> = Vec::new();
    let ghost e0 = es@;
    let ghost x1 = (k1, a);
    es.push((k1, a));
    let ghost e1 = es@;
    let ghost x2 = (k2, v);
    es.push((k2, v));
    proof {
        lemma_entries_view_push(e0, x1);
        lemma_entries_view_push(e1, x2);
    }
    assert(entries_view(es@) =~= seq![("attributes"@, a@), ("insert"@, v@)]);
    JsonValue::Object(es)
}

pub fn mk_newline() -> (r: JsonValue)
    ensures
        r@ == newline(),
{
    JsonValue::Str(lit_string("\n"))
}

pub fn copy_attr(a: &InlineAttr) -> (r: InlineAttr)
    ensures
        r == *a,
{
    match a {
        InlineAttr::Bold => InlineAttr::Bold,
        InlineAttr::Italic => InlineAttr::Italic,
        InlineAttr::Strike => InlineAttr::Strike,
        InlineAttr::Link(u) => InlineAttr::Link(u.clone()),
    }
}

pub fn kind_of(a: &InlineAttr) -> (k: u8)
    ensures
        k == attr_kind(*a),
{
    match a {
        InlineAttr::Bold => 0,
        InlineAttr::Italic => 1,
        InlineAttr::Strike => 2,
        InlineAttr::Link(_) => 3,
    }
}

/// Appends an object entry.
pub fn push_entry(es: &mut Vec<(String, JsonValue)>, k: String, v: JsonValue)
    ensures
        entries_view(final(es)@) == entries_view(old(es)@).push((k@, v@)),
{
    let ghost prev = es@;
    let ghost e = (k, v);
    es.push((k, v));
    proof {
        lemma_entries_view_push(prev, e);
    }
}

/// The attribute object of the inline formats `attrs`.
pub fn build_attr_obj(attrs: &Vec<InlineAttr>) -> (r: JsonValue)
    ensures
        r@ == attr_obj(attrs@),
{
    let mut bold = false;
    let mut italic = false;
    let mut strike = false;
    let mut link: Option<String> = None;
    let mut i: usize = 0;
    while i < attrs.len()
        invariant
            i <= attrs@.len(),
            bold == has_kind(attrs@.take(i as int), 0),
            italic == has_kind(attrs@.take(i as int), 1),
            strike == has_kind(attrs@.take(i as int), 2),
            match link {
                Some(u) => last_link(attrs@.take(i as int)) == Some(u@),
                None => last_link(attrs@.take(i as int)) is None,
            },
        decreases attrs.len() - i,
    {
        assert(attrs@.take(i + 1).drop_last() =~= attrs@.take(i as int));
        match &attrs[i] {
            InlineAttr::Bold => {
                bold = true;
            },
            InlineAttr::Italic => {
                italic = true;
            },
            InlineAttr::Strike => {
                strike = true;
            },
            InlineAttr::Link(u) => {
                link = Some(u.clone());
            },
        }
        i = i + 1;
    }
    assert(attrs@.take(attrs@.len() as int) =~= attrs@);
    let mut es: Vec<(String, JsonValue)> = Vec::new();
    assert(entries_view(es@) =~= Seq::<(Seq<char>, Json)>::empty());
    let ghost e0 = entries_view(es@);
    if bold {
        push_entry(&mut es, lit_string("bold"), JsonValue::Bool(true));
    }
    let ghost e1 = entries_view(es@);
    assert(e1 =~= e0 + if bold { seq![("bold"@, Json::Bool(true))] } else { Seq::empty() });
    if italic {
        push_entry(&mut es, lit_string("italic"), JsonValue::Bool(true));
    }
    let ghost e2 = entries_view(es@);
    assert(e2 =~= e1 + if italic { seq![("italic"@, Json::Bool(true))] } else { Seq::empty() });
    match link {
        Some(u) => {
            push_entry(&mut es, lit_string("link"), JsonValue::Str(u));
        },
        None => {},
    }
    let ghost e3 = entries_view(es@);
    assert(e3 =~= e2 + match last_link(attrs@) {
        Some(u) => seq![("link"@, Json::Str(u))],
        None => Seq::empty(),
    });
    if strike {
        push_entry(&mut es, lit_string("strike"), JsonValue::Bool(true));
    }
    let ghost e4 = entries_view(es@);
    assert(e4 =~= e3 + if strike { seq![("strike"@, Json::Bool(true))] } else { Seq::empty() });
    JsonValue::Object(es)
}

/// The conversion state held by `markdown_to_delta`.
pub struct DeltaBuilder {
    pub ops: Vec<JsonValue>,
    pub inline: Vec<InlineAttr>,
    pub block: Option<JsonValue>,
    pub buf: Vec<char>,
    pub code_lang: Vec<char>,
}

pub open spec fn block_view(b: Option<JsonValue>) -> Option<Json> {
    match b {
        Some(v) => Some(json_view(v)),
        None => None,
    }
}

impl View for DeltaBuilder {
    type V = DeltaState;

    open spec fn view(&self) -> DeltaState {
        DeltaState {
            ops: seq_view(self.ops@),
            inline: self.inline@,
            block: block_view(self.block),
            buf: self.buf@,
            code_lang: self.code_lang@,
        }
    }
}

impl DeltaBuilder {
    pub fn new() -> (b: DeltaBuilder)
        ensures
            b@ == delta_init(),
    {
        DeltaBuilder {
            ops: Vec::new(),
            inline: Vec::new(),
            block: None,
            buf: Vec::new(),
            code_lang: Vec::new(),
        }
    }

    /// Appends an operation.
    pub fn push_op(&mut self, op: JsonValue)
        ensures
            final(self)@ == (DeltaState { ops: old(self)@.ops.push(op@), ..old(self)@ }),
    {
        let ghost prev = self.ops@;
        self.ops.push(op);
        assert(self.ops@.drop_last() =~= prev);
    }

    /// Ends the pending text run: buffered text becomes one insert.
    pub fn flush_text(&mut self)
        ensures
            final(self)@ == flush_buf(old(self)@),
    {
        if self.buf.len() == 0 {
            return ;
        }
        let text = JsonValue::Str(string_of(self.buf.as_slice()));
        let op = if self.inline.len() == 0 {
            mk_insert(text)
        } else {
            let a = build_attr_obj(&self.inline);
            mk_insert_attr(text, a)
        };
        self.push_op(op);
        self.buf = Vec::new();
    }

    /// Ends an inline format: drops every format of kind `k`.
    pub fn remove_kind(&mut self, k: u8)
        ensures
            final(self)@ == (DeltaState { inline: without_kind(old(self)@.inline, k as int), ..old(self)@ }),
    {
        let mut kept: Vec<InlineAttr> = Vec::new();
        let mut i: usize = 0;
        while i < self.inline.len()
            invariant
                i <= self.inline@.len(),
                self.inline@ == old(self).inline@,
                self@ == old(self)@,
                kept@ == without_kind(self.inline@.take(i as int), k as int),
            decreases self.inline.len() - i,
        {
            assert(self.inline@.take(i + 1).drop_last() =~= self.inline@.take(i as int));
            if kind_of(&self.inline[i]) != k {
                kept.push(copy_attr(&self.inline[i]));
            }
            i = i + 1;
        }
        assert(self.inline@.take(self.inline@.len() as int) =~= self.inline@);
        self.inline = kept;
    }

    /// Inserts for the lines of a finished code block.
    pub fn push_code_block(&mut self)
        ensures
            final(self)@ == ev_step(old(self)@, MdEvent::EndCodeBlock),
    {
        let lang: Vec<char> = if self.code_lang.len() == 0 {
            chars_of("plain")
        } else {
            crate::text::slice_chars(self.code_lang.as_slice(), 0, self.code_lang.len())
        };
        assert(self.code_lang@.subrange(0, self.code_lang@.len() as int) =~= self.code_lang@);
        let code = crate::text::slice_chars(self.buf.as_slice(), 0, self.buf.len());
        assert(self.buf@.subrange(0, self.buf@.len() as int) =~= self.buf@);
        let trailing = code.len() > 0 && code[code.len() - 1] == '\n';
        let ghost ops0 = self@.ops;
        let ghost target = code_lines(ops0, code@, lang@, trailing);
        let mut pos: usize = 0;
        assert(code@.skip(0) =~= code@);
        while pos <= code.len()
            invariant_except_break
                pos <= code@.len(),
                target == code_lines(self@.ops, code@.skip(pos as int), lang@, trailing),
            invariant
                self@.inline == old(self)@.inline,
                self@.block == old(self)@.block,
                self@.buf == old(self)@.buf,
                self@.code_lang == old(self)@.code_lang,
            ensures
                self@.ops == target,
            decreases code.len() + 1 - pos,
        {
            let mut j: usize = pos;
            while j < code.len() && code[j] != '\n'
                invariant
                    pos <= j <= code@.len(),
                    forall|k: int| pos <= k < j ==> code@[k] != '\n',
                decreases code.len() - j,
            {
                j = j + 1;
            }
            let ghost rest = code@.skip(pos as int);
            proof {
                lemma_char_index_at(rest, '\n', j - pos);
                assert(rest.take(j - pos) =~= code@.subrange(pos as int, j as int));
            }
            let line = crate::text::slice_chars(code.as_slice(), pos, j);
            if line.len() > 0 || !trailing {
                self.push_op(mk_insert(JsonValue::Str(string_of(line.as_slice()))));
            }
            let nl = mk_insert_attr(
                mk_newline(),
                mk_obj1("code-block", JsonValue::Str(string_of(lang.as_slice()))),
            );
            self.push_op(nl);
            if j == code.len() {
                assert(rest =~= code@.subrange(pos as int, j as int));
                break;
            }
            assert(rest.skip(j - pos + 1) =~= code@.skip(j + 1));
            pos = j + 1;
        }
        if trailing {
            let ghost prev = self.ops@;
            proof {
                lemma_code_lines_len(ops0, code@, lang@, trailing);
                crate::json::lemma_seq_view(prev);
            }
            self.ops.pop();
            assert(seq_view(prev).drop_last() == seq_view(self.ops@)) by {
                assert(prev.drop_last() =~= self.ops@);
            }
        }
        self.buf = Vec::new();
        self.code_lang = Vec::new();
    }

    /// One Markdown event.
    pub fn step(&mut self, ev: &MdEvent)
        ensures
            final(self)@ == ev_step(old(self)@, *ev),
    {
        match ev {
            MdEvent::StartHeading(l) => {
                let n = heading_level_num(*l);
                self.block = Some(mk_obj1("header", JsonValue::Number(JsonNumber::PosInt(n as u64))));
            },
            MdEvent::StartStrong => {
                self.inline.push(InlineAttr::Bold);
            },
            MdEvent::StartEmphasis => {
                self.inline.push(InlineAttr::Italic);
            },
            MdEvent::StartStrikethrough => {
                self.inline.push(InlineAttr::Strike);
            },
            MdEvent::StartLink(u) => {
                self.inline.push(InlineAttr::Link(u.clone()));
            },
            MdEvent::StartCodeBlock(k) => {
                self.code_lang = match k {
                    Some(l) => chars_of(l.as_str()),
                    None => Vec::new(),
                };
            },
            MdEvent::StartBlockQuote => {
                self.block = Some(mk_obj1("blockquote", JsonValue::Bool(true)));
            },
            MdEvent::StartImage(u) => {
                let img = mk_obj1("image", JsonValue::Str(u.clone()));
                self.push_op(mk_insert(img));
            },
            MdEvent::EndHeading => {
                self.flush_text();
                let op = match self.block.take() {
                    Some(a) => mk_insert_attr(mk_newline(), a),
                    None => mk_insert(mk_newline()),
                };
                self.push_op(op);
            },
            MdEvent::EndStrong => {
                self.flush_text();
                self.remove_kind(0);
            },
            MdEvent::EndEmphasis => {
                self.flush_text();
                self.remove_kind(1);
            },
            MdEvent::EndStrikethrough => {
                self.flush_text();
                self.remove_kind(2);
            },
            MdEvent::EndLink => {
                self.flush_text();
                self.remove_kind(3);
            },
            MdEvent::EndCodeBlock => {
                self.push_code_block();
            },
            MdEvent::EndItem => {
                self.flush_text();
                let op = match self.block.take() {
                    Some(a) => mk_insert_attr(mk_newline(), a),
                    None => mk_insert_attr(
                        mk_newline(),
                        mk_obj1("list", JsonValue::Str(lit_string("bullet"))),
                    ),
                };
                self.push_op(op);
            },
            MdEvent::EndBlockQuote => {
                self.block = None;
            },
            MdEvent::EndParagraph => {
                self.flush_text();
                if self.block.is_none() {
                    self.push_op(mk_insert(mk_newline()));
                }
            },
            MdEvent::Text(t) => {
                let tc = chars_of(t.as_str());
                push_all(&mut self.buf, tc.as_slice());
            },
            MdEvent::Code(c) => {
                self.flush_text();
                let op = mk_insert_attr(
                    JsonValue::Str(c.clone()),
                    mk_obj1("code", JsonValue::Bool(true)),
                );
                self.push_op(op);
            },
            MdEvent::SoftBreak => {
                self.buf.push(' ');
            },
            MdEvent::HardBreak => {
                self.flush_text();
                self.push_op(mk_insert(mk_newline()));
            },
            MdEvent::Rule => {
                self.push_op(mk_insert(mk_obj1("divider", JsonValue::Bool(true))));
                self.push_op(mk_insert(mk_newline()));
            },
            MdEvent::Html(h) => {
                let hc = chars_of(h.as_str());
                let t = trim_chars(hc.as_slice());
                let ts = string_of(t.as_slice());
                match parse_slab_embed_comment(ts.as_str()) {
                    Some(e) => {
                        self.push_op(mk_insert(e));
                    },
                    None => {
                        if crate::text::str_is(ts.as_str(), "<u>") || crate::text::str_is(
                            ts.as_str(),
                            "</u>",
                        ) {
                        } else {
                            push_all(&mut self.buf, hc.as_slice());
                        }
                    },
                }
            },
            _ => {},
        }
    }
}

/// The Delta document built from a sequence of Markdown events.
pub fn events_to_delta(events: &Vec<MdEvent>) -> (d: JsonValue)
    ensures
        d@ == delta_of_events(events@),
{
    let mut b = DeltaBuilder::new();
    let mut i: usize = 0;
    assert(events@.take(0) =~= Seq::<MdEvent>::empty());
    while i < events.len()
        invariant
            i <= events@.len(),
            b@ == events_fold(events@.take(i as int)),
        decreases events.len() - i,
    {
        b.step(&events[i]);
        assert(events@.take(i + 1).drop_last() =~= events@.take(i as int));
        i = i + 1;
    }
    assert(events@.take(events@.len() as int) =~= events@);
    b.flush_text();
    let ops = JsonValue::Array(b.ops);
    mk_obj1("ops", ops)
}

/// Converts Markdown text into a Quill Delta document `{"ops": [...]}`.
pub fn markdown_to_delta(md: &str) -> (d: JsonValue)
    ensures
        d@ == delta_of_events(markdown_events(md@)),
{
    let processed = preprocess_embeds(md);
    let events = parse_markdown(processed.as_str());
    events_to_delta(&events)
}

} // verus!
