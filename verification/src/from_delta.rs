//! Quill Delta to Markdown.
use vstd::prelude::*;

use crate::json::{
    entries_get, get, has_key, is_true, as_str, as_u64, json_text, opt_view, write_json, Json,
    JsonValue,
};
use crate::text::{
    chars_of, push_all, string_of, trim, trim_chars, is_ws,
};

verus! {

// ---------------------------------------------------------------------
// Specification
/// State of the conversion: the Markdown written so far, the line being
/// assembled, and the open code block (if any) with its language.
pub struct MdState {
    pub out: Seq<char>,
    pub line: Seq<char>,
    pub in_code: bool,
    pub lang: Seq<char>,
}

pub open spec fn md_init() -> MdState {
    MdState { out: Seq::empty(), line: Seq::empty(), in_code: false, lang: Seq::empty() }
}

/// `s` repeated `n` times.
pub open spec fn repeat(s: Seq<char>, n: nat) -> Seq<char>
    decreases n,
{
    if n == 0 {
        Seq::empty()
    } else {
        repeat(s, (n - 1) as nat) + s
    }
}

/// First index of `c` in `s`.
pub open spec fn char_index(s: Seq<char>, c: char) -> Option<int>
    decreases s.len(),
{
    if s.len() == 0 {
        None
    } else if s[0] == c {
        Some(0)
    } else {
        match char_index(s.drop_first(), c) {
            Some(i) => Some(i + 1),
            None => None,
        }
    }
}

pub proof fn lemma_char_index(s: Seq<char>, c: char)
    ensures
        char_index(s, c) matches Some(i) ==> 0 <= i < s.len() && s[i] == c && forall|k: int|
            0 <= k < i ==> s[k] != c,
        char_index(s, c) is None ==> forall|k: int| 0 <= k < s.len() ==> s[k] != c,
    decreases s.len(),
{
    if s.len() > 0 && s[0] != c {
        lemma_char_index(s.drop_first(), c);
        if let Some(i) = char_index(s.drop_first(), c) {
            assert forall|k: int| 0 <= k < i + 1 implies s[k] != c by {
                if k > 0 {
                    assert(s[k] == s.drop_first()[k - 1]);
                }
            }
        } else {
            assert forall|k: int| 0 <= k < s.len() implies s[k] != c by {
                if k > 0 {
                    assert(s[k] == s.drop_first()[k - 1]);
                }
            }
        }
    }
}

pub proof fn lemma_char_index_at(s: Seq<char>, c: char, i: int)
    requires
        0 <= i <= s.len(),
        forall|k: int| 0 <= k < i ==> s[k] != c,
        i < s.len() ==> s[i] == c,
    ensures
        char_index(s, c) == if i < s.len() {
            Some(i)
        } else {
            None::<int>
        },
    decreases i,
{
    if i > 0 {
        lemma_char_index_at(s.drop_first(), c, i - 1);
    }
}

/// Inline formatting of a text run.
pub open spec fn inline_text(t: Seq<char>, attrs: Option<Json>) -> Seq<char> {
    match attrs {
        Some(Json::Obj(es)) => {
            let a = Json::Obj(es);
            if is_true(get(a, "code"@)) {
                "`"@ + t + "`"@
            } else {
                let r1 = match get(a, "link"@) {
                    Some(Json::Str(url)) => "["@ + t + "]("@ + url + ")"@,
                    _ => t,
                };
                let r2 = if is_true(get(a, "bold"@)) {
                    "**"@ + r1 + "**"@
                } else {
                    r1
                };
                let r3 = if is_true(get(a, "italic"@)) {
                    "*"@ + r2 + "*"@
                } else {
                    r2
                };
                let r4 = if is_true(get(a, "strike"@)) {
                    "~~"@ + r3 + "~~"@
                } else {
                    r3
                };
                if is_true(get(a, "underline"@)) {
                    "<u>"@ + r4 + "</u>"@
                } else {
                    r4
                }
            }
        },
        _ => t,
    }
}

/// Opening fence of a code block in language `lang`.
pub open spec fn fence_open(lang: Seq<char>) -> Seq<char> {
    let name = if lang.len() == 0 || lang == "true"@ || lang == "plain"@ {
        Seq::empty()
    } else {
        lang
    };
    "```"@ + name + "\n"@
}

/// Marker of a list item of kind `kind`.
pub open spec fn list_marker(kind: Seq<char>) -> Seq<char> {
    if kind == "ordered"@ {
        "1. "@
    } else if kind == "checked"@ {
        "- [x] "@
    } else if kind == "unchecked"@ {
        "- [ ] "@
    } else {
        "- "@
    }
}

/// Language named by a code-block attribute set.
pub open spec fn code_block_lang(es: Seq<(Seq<char>, Json)>) -> Seq<char> {
    let v = match entries_get(es, "code-block"@) {
        Some(x) => as_str(Some(x)),
        None => as_str(entries_get(es, "code_block"@)),
    };
    match v {
        Some(l) => l,
        None => Seq::empty(),
    }
}

/// Ends the current line, formatted by the line's attributes.
pub open spec fn flush(st: MdState, attrs: Option<Json>) -> MdState {
    match attrs {
        Some(Json::Obj(es)) if has_key(es, "code-block"@) || has_key(es, "code_block"@) => {
            let lang = code_block_lang(es);
            let (out1, lang1) = if !st.in_code {
                (st.out + fence_open(lang), lang)
            } else {
                (st.out, st.lang)
            };
            MdState { out: out1 + st.line + "\n"@, line: Seq::empty(), in_code: true, lang: lang1 }
        },
        _ => {
            let st1 = if st.in_code {
                MdState { out: st.out + "```\n\n"@, in_code: false, lang: Seq::empty(), ..st }
            } else {
                st
            };
            let body = trim(st1.line);
            let out2 = match attrs {
                Some(Json::Obj(es)) => {
                    let a = Json::Obj(es);
                    match as_u64(get(a, "header"@)) {
                        Some(h) => Some(st1.out + repeat("#"@, h as nat) + " "@ + body + "\n"@),
                        None => match as_str(get(a, "list"@)) {
                            Some(kind) => {
                                let indent = match as_u64(get(a, "indent"@)) {
                                    Some(n) => n,
                                    None => 0,
                                };
                                Some(
                                    st1.out + repeat("  "@, indent as nat) + list_marker(kind)
                                        + body + "\n"@,
                                )
                            },
                            None => if is_true(get(a, "blockquote"@)) {
                                Some(st1.out + "> "@ + body + "\n"@)
                            } else {
                                None
                            },
                        },
                    }
                },
                _ => None,
            };
            match out2 {
                Some(o) => MdState { out: o, line: Seq::empty(), ..st1 },
                None => MdState {
                    out: st1.out + st1.line + "\n"@,
                    line: Seq::empty(),
                    ..st1
                },
            }
        },
    }
}

/// What an embedded object adds to the current line.
pub open spec fn embed_text(e: Json) -> Seq<char> {
    match get(e, "image"@) {
        Some(Json::Str(url)) => "![image]("@ + url + ")"@,
        _ => if (e matches Json::Obj(es) && (has_key(es, "divider"@) || has_key(es, "hr"@))) {
            "---"@
        } else {
            match get(e, "mention"@) {
                Some(Json::Obj(mm)) => match get(Json::Obj(mm), "name"@) {
                    Some(Json::Str(name)) => "@"@ + name,
                    _ => embed_comment(e),
                },
                _ => embed_comment(e),
            }
        },
    }
}

/// An embed the converter does not know, kept as an HTML comment holding
/// its JSON text.
pub open spec fn embed_comment(e: Json) -> Seq<char> {
    "<!-- slab:embed "@ + json_text(e) + " -->"@
}

/// A text insert: each newline ends a line, formatted by `attrs`.
pub open spec fn text_step(st: MdState, t: Seq<char>, attrs: Option<Json>) -> MdState
    decreases t.len(),
{
    match char_index(t, '\n') {
        None => if t.len() > 0 {
            MdState { line: st.line + inline_text(t, attrs), ..st }
        } else {
            st
        },
        Some(i) => {
            proof {
                lemma_char_index(t, '\n');
            }
            let seg = t.take(i);
            let st1 = if seg.len() > 0 {
                MdState { line: st.line + inline_text(seg, attrs), ..st }
            } else {
                st
            };
            text_step(flush(st1, attrs), t.skip(i + 1), attrs)
        },
    }
}

/// One delta operation.
pub open spec fn op_step(st: MdState, op: Json) -> MdState {
    match get(op, "insert"@) {
        Some(Json::Str(t)) => text_step(st, t, get(op, "attributes"@)),
        Some(Json::Obj(es)) => MdState { line: st.line + embed_text(Json::Obj(es)), ..st },
        _ => st,
    }
}

/// The operations, in order.
pub open spec fn ops_fold(ops: Seq<Json>) -> MdState
    decreases ops.len(),
{
    if ops.len() == 0 {
        md_init()
    } else {
        op_step(ops_fold(ops.drop_last()), ops.last())
    }
}

/// The operations of a delta: its `ops` array, or the delta itself when it
/// is an array.
pub open spec fn delta_ops(d: Json) -> Option<Seq<Json>> {
    match get(d, "ops"@) {
        Some(Json::Arr(a)) => Some(a),
        _ => match d {
            Json::Arr(a) => Some(a),
            _ => None,
        },
    }
}

/// End of the document: the last line, and the fence of an open code block.
pub open spec fn md_finish(st: MdState) -> Seq<char> {
    let o = if st.line.len() > 0 {
        st.out + st.line + "\n"@
    } else {
        st.out
    };
    if st.in_code {
        o + "```\n"@
    } else {
        o
    }
}

/// The Markdown text of a Quill Delta document.
pub open spec fn markdown_of(d: Json) -> Seq<char> {
    match delta_ops(d) {
        Some(ops) => md_finish(ops_fold(ops)),
        None => Seq::empty(),
    }
}

// ---------------------------------------------------------------------
// Implementation
/// Appends the characters of a string literal.
pub fn push_lit(out: &mut Vec<char>, lit: &str)
    ensures
        final(out)@ == old(out)@ + lit@,
{
    let cs = chars_of(lit);
    push_all(out, cs.as_slice());
}

/// Appends `s` repeated `n` times.
pub fn push_repeat(out: &mut Vec<char>, s: &str, n: u64)
    ensures
        final(out)@ == old(out)@ + repeat(s@, n as nat),
{
    let cs = chars_of(s);
    let mut k: u64 = 0;
    while k < n
        invariant
            k <= n,
            cs@ == s@,
            out@ == old(out)@ + repeat(s@, k as nat),
        decreases n - k,
    {
        push_all(out, cs.as_slice());
        k = k + 1;
        assert(out@ =~= old(out)@ + repeat(s@, k as nat));
    }
}

/// A text run with its inline formats applied.
pub fn apply_inline_attrs(text: &[char], attrs: Option<&JsonValue>) -> (r: Vec<char>)
    ensures
        r@ == inline_text(text@, opt_view(attrs)),
{
    let a = match attrs {
        Some(a) => a,
        None => {
            return vstd::slice::slice_to_vec(text);
        },
    };
    match a {
        JsonValue::Object(_) => {},
        _ => {
            return vstd::slice::slice_to_vec(text);
        },
    }
    let mut r: Vec<char> = Vec::new();
    if JsonValue::is_true(a.get("code")) {
        push_lit(&mut r, "`");
        push_all(&mut r, text);
        push_lit(&mut r, "`");
        return r;
    }
    match JsonValue::as_str(a.get("link")) {
        Some(url) => {
            push_lit(&mut r, "[");
            push_all(&mut r, text);
            push_lit(&mut r, "](");
            let uc = chars_of(url.as_str());
            push_all(&mut r, uc.as_slice());
            push_lit(&mut r, ")");
        },
        None => {
            push_all(&mut r, text);
        },
    }
    r = wrap_if(r, JsonValue::is_true(a.get("bold")), "**", "**");
    r = wrap_if(r, JsonValue::is_true(a.get("italic")), "*", "*");
    r = wrap_if(r, JsonValue::is_true(a.get("strike")), "~~", "~~");
    r = wrap_if(r, JsonValue::is_true(a.get("underline")), "<u>", "</u>");
    r
}

/// `open + s + close` when `cond`, else `s`.
pub fn wrap_if(s: Vec<char>, cond: bool, open: &str, close: &str) -> (r: Vec<char>)
    ensures
        r@ == if cond {
            open@ + s@ + close@
        } else {
            s@
        },
{
    if cond {
        let mut r: Vec<char> = Vec::new();
        push_lit(&mut r, open);
        push_all(&mut r, s.as_slice());
        push_lit(&mut r, close);
        r
    } else {
        s
    }
}

/// The conversion state held by `delta_to_markdown`.
pub struct MdWriter {
    pub out: Vec<char>,
    pub line: Vec<char>,
    pub in_code: bool,
    pub lang: Vec<char>,
}

impl View for MdWriter {
    type V = MdState;

    open spec fn view(&self) -> MdState {
        MdState { out: self.out@, line: self.line@, in_code: self.in_code, lang: self.lang@ }
    }
}

/// `true`, `plain` or empty: a code block without a named language.
pub fn is_plain_lang(lang: &[char]) -> (b: bool)
    ensures
        b == (lang@.len() == 0 || lang@ == "true"@ || lang@ == "plain"@),
{
    let t = chars_of("true");
    let p = chars_of("plain");
    lang.len() == 0 || crate::text::chars_eq(lang, t.as_slice()) || crate::text::chars_eq(
        lang,
        p.as_slice(),
    )
}

/// The list marker for list kind `kind`.
pub fn push_list_marker(out: &mut Vec<char>, kind: &String)
    ensures
        final(out)@ == old(out)@ + list_marker(kind@),
{
    let k = kind.as_str();
    if crate::text::str_is(k, "ordered") {
        push_lit(out, "1. ");
    } else if crate::text::str_is(k, "checked") {
        push_lit(out, "- [x] ");
    } else if crate::text::str_is(k, "unchecked") {
        push_lit(out, "- [ ] ");
    } else {
        push_lit(out, "- ");
    }
}

impl MdWriter {
    pub fn new() -> (w: MdWriter)
        ensures
            w@ == md_init(),
    {
        MdWriter { out: Vec::new(), line: Vec::new(), in_code: false, lang: Vec::new() }
    }

    /// Ends the current line, formatted by the line's attributes.
    pub fn flush_line(&mut self, attrs: Option<&JsonValue>)
        ensures
            final(self)@ == flush(old(self)@, opt_view(attrs)),
    {
        let obj: Option<&JsonValue> = match attrs {
            Some(a) => match a {
                JsonValue::Object(_) => Some(a),
                _ => None,
            },
            None => None,
        };
        if let Some(a) = obj {
            let cb = a.get("code-block");
            let cb2 = a.get("code_block");
            if cb.is_some() || cb2.is_some() {
                let ghost es = match a@ { Json::Obj(es) => es, _ => Seq::empty() };
                assert(a@ == Json::Obj(es));
                assert(has_key(es, "code-block"@) || has_key(es, "code_block"@));
                let lang: Vec<char> = match cb {
                    Some(v) => match JsonValue::as_str(Some(v)) {
                        Some(s) => chars_of(s.as_str()),
                        None => Vec::new(),
                    },
                    None => match JsonValue::as_str(cb2) {
                        Some(s) => chars_of(s.as_str()),
                        None => Vec::new(),
                    },
                };
                assert(lang@ == code_block_lang(es));
                let ghost st0 = self@;
                if !self.in_code {
                    self.in_code = true;
                    push_lit(&mut self.out, "```");
                    if !is_plain_lang(lang.as_slice()) {
                        push_all(&mut self.out, lang.as_slice());
                    }
                    push_lit(&mut self.out, "\n");
                    self.lang = lang;
                    assert(self.out@ == st0.out + fence_open(code_block_lang(es)));
                }
                push_all(&mut self.out, self.line.as_slice());
                push_lit(&mut self.out, "\n");
                self.line = Vec::new();
                return ;
            }
        }
        if self.in_code {
            push_lit(&mut self.out, "```\n\n");
            self.in_code = false;
            self.lang = Vec::new();
        }
        if let Some(a) = obj {
            let body = trim_chars(self.line.as_slice());
            if let Some(h) = JsonValue::as_u64(a.get("header")) {
                push_repeat(&mut self.out, "#", h);
                push_lit(&mut self.out, " ");
                push_all(&mut self.out, body.as_slice());
                push_lit(&mut self.out, "\n");
                self.line = Vec::new();
                return ;
            }
            if let Some(kind) = JsonValue::as_str(a.get("list")) {
                let indent = match JsonValue::as_u64(a.get("indent")) {
                    Some(n) => n,
                    None => 0,
                };
                push_repeat(&mut self.out, "  ", indent);
                push_list_marker(&mut self.out, kind);
                push_all(&mut self.out, body.as_slice());
                push_lit(&mut self.out, "\n");
                self.line = Vec::new();
                return ;
            }
            if JsonValue::is_true(a.get("blockquote")) {
                push_lit(&mut self.out, "> ");
                push_all(&mut self.out, body.as_slice());
                push_lit(&mut self.out, "\n");
                self.line = Vec::new();
                return ;
            }
        }
        push_all(&mut self.out, self.line.as_slice());
        push_lit(&mut self.out, "\n");
        self.line = Vec::new();
    }
}

/// The Markdown of an embedded object.
pub fn embed_markdown(e: &JsonValue) -> (r: Vec<char>)
    ensures
        r@ == embed_text(e@),
{
    let mut r: Vec<char> = Vec::new();
    if let Some(url) = JsonValue::as_str(e.get("image")) {
        push_lit(&mut r, "![image](");
        let uc = chars_of(url.as_str());
        push_all(&mut r, uc.as_slice());
        push_lit(&mut r, ")");
        return r;
    }
    let is_obj = match e {
        JsonValue::Object(_) => true,
        _ => false,
    };
    if is_obj && (e.get("divider").is_some() || e.get("hr").is_some()) {
        push_lit(&mut r, "---");
        return r;
    }
    if let Some(m) = e.get("mention") {
        if let JsonValue::Object(_) = m {
            if let Some(name) = JsonValue::as_str(m.get("name")) {
                push_lit(&mut r, "@");
                let nc = chars_of(name.as_str());
                push_all(&mut r, nc.as_slice());
                return r;
            }
        }
    }
    push_lit(&mut r, "<!-- slab:embed ");
    let text = write_json(e);
    push_all(&mut r, chars_of(text.as_str()).as_slice());
    push_lit(&mut r, " -->");
    r
}

impl MdWriter {
    /// Appends a text run to the current line.
    pub fn push_segment(&mut self, seg: &[char], attrs: Option<&JsonValue>)
        ensures
            final(self)@ == (MdState {
                line: old(self)@.line + inline_text(seg@, opt_view(attrs)),
                ..old(self)@
            }),
    {
        let f = apply_inline_attrs(seg, attrs);
        push_all(&mut self.line, f.as_slice());
    }

    /// A text insert: each newline ends a line.
    pub fn push_text(&mut self, t: &[char], attrs: Option<&JsonValue>)
        ensures
            final(self)@ == text_step(old(self)@, t@, opt_view(attrs)),
    {
        let ghost a = opt_view(attrs);
        let mut pos: usize = 0;
        assert(t@.skip(0) =~= t@);
        while pos < t.len()
            invariant
                pos <= t@.len(),
                text_step(old(self)@, t@, a) == text_step(self@, t@.skip(pos as int), a),
                a == opt_view(attrs),
            decreases t.len() - pos,
        {
            let mut j: usize = pos;
            while j < t.len() && t[j] != '\n'
                invariant
                    pos <= j <= t@.len(),
                    forall|k: int| pos <= k < j ==> t@[k] != '\n',
                decreases t.len() - j,
            {
                j = j + 1;
            }
            let ghost rest = t@.skip(pos as int);
            proof {
                lemma_char_index_at(rest, '\n', j - pos);
                assert(rest.take(j - pos) =~= t@.subrange(pos as int, j as int));
            }
            let seg = crate::text::slice_chars(t, pos, j);
            if j == t.len() {
                assert(rest.len() == j - pos);
                self.push_segment(seg.as_slice(), attrs);
                assert(t@.skip(t@.len() as int).len() == 0);
                return ;
            }
            if seg.len() > 0 {
                self.push_segment(seg.as_slice(), attrs);
            }
            self.flush_line(attrs);
            assert(rest.skip(j - pos + 1) =~= t@.skip(j + 1));
            pos = j + 1;
        }
        assert(t@.skip(pos as int).len() == 0);
    }

    /// One delta operation.
    pub fn apply_op(&mut self, op: &JsonValue)
        ensures
            final(self)@ == op_step(old(self)@, op@),
    {
        match op.get("insert") {
            Some(ins) => match ins {
                JsonValue::Str(t) => {
                    let tc = chars_of(t.as_str());
                    self.push_text(tc.as_slice(), op.get("attributes"));
                },
                JsonValue::Object(_) => {
                    let em = embed_markdown(ins);
                    push_all(&mut self.line, em.as_slice());
                },
                _ => {},
            },
            None => {},
        }
    }
}

/// Converts a Quill Delta document (`{"ops": [...]}`, or a bare array of
/// operations) into Markdown.
pub fn delta_to_markdown(delta: &JsonValue) -> (md: String)
    ensures
        md@ == markdown_of(delta@),
{
    let ops: &Vec<JsonValue> = match delta.get("ops") {
        Some(JsonValue::Array(a)) => a,
        _ => match delta {
            JsonValue::Array(a) => a,
            _ => {
                return String::new();
            },
        },
    };
    proof {
        crate::json::lemma_seq_view(ops@);
    }
    let ghost m = crate::json::seq_view(ops@);
    assert(delta_ops(delta@) == Some(m));
    let mut w = MdWriter::new();
    let mut i: usize = 0;
    assert(m.take(0) =~= Seq::<Json>::empty());
    while i < ops.len()
        invariant
            i <= ops@.len(),
            m.len() == ops@.len(),
            forall|j: int| 0 <= j < ops@.len() ==> #[trigger] m[j] == crate::json::json_view(ops@[j]),
            w@ == ops_fold(m.take(i as int)),
        decreases ops.len() - i,
    {
        w.apply_op(&ops[i]);
        assert(m.take(i + 1).drop_last() =~= m.take(i as int));
        assert(m[i as int] == ops@[i as int]@);
        i = i + 1;
    }
    assert(m.take(m.len() as int) =~= m);
    if w.line.len() > 0 {
        push_all(&mut w.out, w.line.as_slice());
        push_lit(&mut w.out, "\n");
    }
    if w.in_code {
        push_lit(&mut w.out, "```\n");
    }
    string_of(w.out.as_slice())
}

} // verus!
