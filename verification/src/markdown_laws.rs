//! What the Delta → Markdown conversion writes for each inline format,
//! each line format and each known embed, stated over all texts.
use vstd::prelude::*;

use crate::from_delta::{embed_text, flush, inline_text, repeat, MdState};
use crate::json::{entries_get, get, Json, Num};
use crate::text::trim;

verus! {

/// An object with the one entry `k: v`.
pub open spec fn one(k: Seq<char>, v: Json) -> Json {
    Json::Obj(seq![(k, v)])
}

proof fn lemma_one(k: Seq<char>, v: Json, other: Seq<char>)
    ensures
        get(one(k, v), k) == Some(v),
        k != other ==> get(one(k, v), other) is None,
{
    let es = seq![(k, v)];
    assert(es.drop_first() =~= Seq::<(Seq<char>, Json)>::empty());
    assert(entries_get(es.drop_first(), other) is None);
}

/// Two keys that differ in their first character differ.
proof fn lemma_keys_differ(a: Seq<char>, b: Seq<char>)
    requires
        a.len() > 0,
        b.len() > 0,
        a[0] != b[0],
    ensures
        a != b,
{
}

proof fn lemma_inline_keys()
    ensures
        "bold"@.len() > 0 && "bold"@[0] == 'b',
        "italic"@.len() > 0 && "italic"@[0] == 'i',
        "strike"@.len() > 0 && "strike"@[0] == 's',
        "underline"@.len() > 0 && "underline"@[0] == 'u',
        "code"@.len() > 0 && "code"@[0] == 'c',
        "link"@.len() > 0 && "link"@[0] == 'l',
{
    reveal_strlit("bold");
    reveal_strlit("italic");
    reveal_strlit("strike");
    reveal_strlit("underline");
    reveal_strlit("code");
    reveal_strlit("link");
}

/// Looking up each inline format key in a one-entry object.
proof fn lemma_one_inline(k: Seq<char>, v: Json)
    ensures
        get(one(k, v), "bold"@) == (if k == "bold"@ { Some(v) } else { None::<Json> }),
        get(one(k, v), "italic"@) == (if k == "italic"@ { Some(v) } else { None::<Json> }),
        get(one(k, v), "strike"@) == (if k == "strike"@ { Some(v) } else { None::<Json> }),
        get(one(k, v), "underline"@) == (if k == "underline"@ { Some(v) } else { None::<Json> }),
        get(one(k, v), "code"@) == (if k == "code"@ { Some(v) } else { None::<Json> }),
        get(one(k, v), "link"@) == (if k == "link"@ { Some(v) } else { None::<Json> }),
{
    lemma_one(k, v, "bold"@);
    lemma_one(k, v, "italic"@);
    lemma_one(k, v, "strike"@);
    lemma_one(k, v, "underline"@);
    lemma_one(k, v, "code"@);
    lemma_one(k, v, "link"@);
}

/// The Markdown of a text run with one inline format: bold between `**`,
/// italic between `*`, struck through between `~~`, underlined between
/// `<u>` and `</u>`, code between backticks, a link as `[text](url)`;
/// without attributes the text itself.
pub proof fn lemma_inline_formats(t: Seq<char>, url: Seq<char>)
    ensures
        inline_text(t, None) == t,
        inline_text(t, Some(one("bold"@, Json::Bool(true)))) == "**"@ + t + "**"@,
        inline_text(t, Some(one("italic"@, Json::Bool(true)))) == "*"@ + t + "*"@,
        inline_text(t, Some(one("strike"@, Json::Bool(true)))) == "~~"@ + t + "~~"@,
        inline_text(t, Some(one("underline"@, Json::Bool(true)))) == "<u>"@ + t + "</u>"@,
        inline_text(t, Some(one("code"@, Json::Bool(true)))) == "`"@ + t + "`"@,
        inline_text(t, Some(one("link"@, Json::Str(url)))) == "["@ + t + "]("@ + url + ")"@,
{
    lemma_inline_keys();
    assert("bold"@[0] != "italic"@[0] && "bold"@[0] != "strike"@[0] && "bold"@[0] != "underline"@[0]
        && "bold"@[0] != "code"@[0] && "bold"@[0] != "link"@[0]);
    assert("italic"@[0] != "strike"@[0] && "italic"@[0] != "underline"@[0] && "italic"@[0]
        != "code"@[0] && "italic"@[0] != "link"@[0]);
    assert("strike"@[0] != "underline"@[0] && "strike"@[0] != "code"@[0] && "strike"@[0]
        != "link"@[0]);
    assert("underline"@[0] != "code"@[0] && "underline"@[0] != "link"@[0] && "code"@[0]
        != "link"@[0]);
    let tt = Json::Bool(true);
    lemma_one_inline("bold"@, tt);
    lemma_one_inline("italic"@, tt);
    lemma_one_inline("strike"@, tt);
    lemma_one_inline("underline"@, tt);
    lemma_one_inline("code"@, tt);
    lemma_one_inline("link"@, Json::Str(url));
}

proof fn lemma_line_keys()
    ensures
        "code-block"@.len() > 0 && "code-block"@[0] == 'c',
        "code_block"@.len() > 0 && "code_block"@[0] == 'c',
        "header"@.len() > 0 && "header"@[0] == 'h',
        "list"@.len() > 0 && "list"@[0] == 'l',
        "indent"@.len() > 0 && "indent"@[0] == 'i',
        "blockquote"@.len() > 0 && "blockquote"@[0] == 'b',
        "ordered"@ != "checked"@ && "ordered"@ != "unchecked"@ && "checked"@ != "unchecked"@,
        "bullet"@ != "ordered"@ && "bullet"@ != "checked"@ && "bullet"@ != "unchecked"@,
{
    reveal_strlit("code-block");
    reveal_strlit("code_block");
    reveal_strlit("header");
    reveal_strlit("list");
    reveal_strlit("indent");
    reveal_strlit("blockquote");
    reveal_strlit("ordered");
    reveal_strlit("checked");
    reveal_strlit("unchecked");
    reveal_strlit("bullet");
    assert("ordered"@[0] != "checked"@[0]);
    assert("ordered"@[0] != "unchecked"@[0]);
    assert("checked"@[0] != "unchecked"@[0]);
    assert("bullet"@[0] != "ordered"@[0]);
    assert("bullet"@[0] != "checked"@[0]);
    assert("bullet"@[0] != "unchecked"@[0]);
}

/// The line that ends with a line attribute, outside a code block: a
/// header of level `n` is `n` `#`s, a space and the trimmed line; a bullet
/// item `- `, an ordered item `1. `, a checked item `- [x] `, an unchecked
/// item `- [ ] `, a quote `> `, each before the trimmed line; a line with
/// no attribute is kept as it is. Each ends the line with a newline.
pub proof fn lemma_line_formats(st: MdState, n: u64)
    requires
        !st.in_code,
    ensures
        flush(st, Some(one("header"@, Json::Num(Num::PosInt(n))))) == (MdState {
            out: st.out + repeat("#"@, n as nat) + " "@ + trim(st.line) + "\n"@,
            line: Seq::empty(),
            ..st
        }),
        flush(st, Some(one("list"@, Json::Str("bullet"@)))) == (MdState {
            out: st.out + "- "@ + trim(st.line) + "\n"@,
            line: Seq::empty(),
            ..st
        }),
        flush(st, Some(one("list"@, Json::Str("ordered"@)))) == (MdState {
            out: st.out + "1. "@ + trim(st.line) + "\n"@,
            line: Seq::empty(),
            ..st
        }),
        flush(st, Some(one("list"@, Json::Str("checked"@)))) == (MdState {
            out: st.out + "- [x] "@ + trim(st.line) + "\n"@,
            line: Seq::empty(),
            ..st
        }),
        flush(st, Some(one("list"@, Json::Str("unchecked"@)))) == (MdState {
            out: st.out + "- [ ] "@ + trim(st.line) + "\n"@,
            line: Seq::empty(),
            ..st
        }),
        flush(st, Some(one("blockquote"@, Json::Bool(true)))) == (MdState {
            out: st.out + "> "@ + trim(st.line) + "\n"@,
            line: Seq::empty(),
            ..st
        }),
        flush(st, None) == (MdState { out: st.out + st.line + "\n"@, line: Seq::empty(), ..st }),
{
    lemma_line_keys();
    reveal_strlit("code-block");
    reveal_strlit("code_block");
    let h = Json::Num(Num::PosInt(n));
    let tt = Json::Bool(true);
    lemma_one_line("header"@, h);
    lemma_one_line("blockquote"@, tt);
    lemma_one_line("list"@, Json::Str("bullet"@));
    lemma_one_line("list"@, Json::Str("ordered"@));
    lemma_one_line("list"@, Json::Str("checked"@));
    lemma_one_line("list"@, Json::Str("unchecked"@));
    assert(repeat("  "@, 0) == Seq::<char>::empty());
    assert(st.out + Seq::<char>::empty() =~= st.out);
}

/// Looking up each line format key in a one-entry object.
proof fn lemma_one_line(k: Seq<char>, v: Json)
    requires
        k == "header"@ || k == "list"@ || k == "blockquote"@,
    ensures
        get(one(k, v), "code-block"@) is None,
        get(one(k, v), "code_block"@) is None,
        crate::json::has_key(seq![(k, v)], "code-block"@) == false,
        crate::json::has_key(seq![(k, v)], "code_block"@) == false,
        get(one(k, v), "header"@) == (if k == "header"@ { Some(v) } else { None::<Json> }),
        get(one(k, v), "list"@) == (if k == "list"@ { Some(v) } else { None::<Json> }),
        get(one(k, v), "indent"@) is None,
        get(one(k, v), "blockquote"@) == (if k == "blockquote"@ { Some(v) } else { None::<Json> }),
{
    lemma_line_keys();
    assert("header"@[0] != "list"@[0] && "header"@[0] != "blockquote"@[0] && "list"@[0]
        != "blockquote"@[0]);
    assert("indent"@[0] != "header"@[0] && "indent"@[0] != "list"@[0] && "indent"@[0]
        != "blockquote"@[0]);
    assert("code-block"@[0] != "header"@[0] && "code-block"@[0] != "list"@[0]
        && "code-block"@[0] != "blockquote"@[0]);
    assert("code_block"@[0] != "header"@[0] && "code_block"@[0] != "list"@[0]
        && "code_block"@[0] != "blockquote"@[0]);
    lemma_one(k, v, "code-block"@);
    lemma_one(k, v, "code_block"@);
    lemma_one(k, v, "header"@);
    lemma_one(k, v, "list"@);
    lemma_one(k, v, "indent"@);
    lemma_one(k, v, "blockquote"@);
}

/// The Markdown of the known embeds: an image as `![image](url)`, a
/// divider as `---`.
pub proof fn lemma_embed_formats(url: Seq<char>)
    ensures
        embed_text(one("image"@, Json::Str(url))) == "![image]("@ + url + ")"@,
        embed_text(one("divider"@, Json::Bool(true))) == "---"@,
{
    reveal_strlit("image");
    reveal_strlit("divider");
    lemma_one("image"@, Json::Str(url), "image"@);
    assert("image"@[0] != "divider"@[0]);
    lemma_one("divider"@, Json::Bool(true), "image"@);
    lemma_one("divider"@, Json::Bool(true), "divider"@);
    assert(crate::json::has_key(seq![("divider"@, Json::Bool(true))], "divider"@));
}

/// Code blocks: a line with `{"code-block": lang}` outside a code block
/// opens a fence ` ```lang ` (a bare fence for `plain`) and keeps the line
/// as it is; inside a code block it adds the line alone; the first line
/// without attributes after a code block closes the fence, with an empty
/// line after it.
pub proof fn lemma_code_block_lines(st: MdState, lang: Seq<char>)
    ensures
        !st.in_code && lang.len() > 0 && lang != "true"@ && lang != "plain"@ ==> flush(
            st,
            Some(one("code-block"@, Json::Str(lang))),
        ) == (MdState {
            out: st.out + "```"@ + lang + "\n"@ + st.line + "\n"@,
            line: Seq::empty(),
            in_code: true,
            lang: lang,
        }),
        !st.in_code ==> flush(st, Some(one("code-block"@, Json::Str("plain"@)))) == (MdState {
            out: st.out + "```\n"@ + st.line + "\n"@,
            line: Seq::empty(),
            in_code: true,
            lang: "plain"@,
        }),
        st.in_code ==> flush(st, Some(one("code-block"@, Json::Str(lang)))) == (MdState {
            out: st.out + st.line + "\n"@,
            line: Seq::empty(),
            ..st
        }),
        st.in_code ==> flush(st, None) == (MdState {
            out: st.out + "```\n\n"@ + st.line + "\n"@,
            line: Seq::empty(),
            in_code: false,
            lang: Seq::empty(),
        }),
{
    lemma_one("code-block"@, Json::Str(lang), "code-block"@);
    lemma_one("code-block"@, Json::Str("plain"@), "code-block"@);
    assert(crate::json::has_key(seq![("code-block"@, Json::Str(lang))], "code-block"@));
    assert(crate::json::has_key(seq![("code-block"@, Json::Str("plain"@))], "code-block"@));
    assert(crate::from_delta::code_block_lang(seq![("code-block"@, Json::Str(lang))]) == lang);
    assert(crate::from_delta::code_block_lang(seq![("code-block"@, Json::Str("plain"@))])
        == "plain"@);
    reveal_strlit("```");
    reveal_strlit("```\n");
    reveal_strlit("\n");
    assert("```"@ + Seq::<char>::empty() + "\n"@ =~= "```\n"@);
    if !st.in_code && lang.len() > 0 && lang != "true"@ && lang != "plain"@ {
        assert(crate::from_delta::fence_open(lang) == "```"@ + lang + "\n"@);
        assert(st.out + crate::from_delta::fence_open(lang) + st.line + "\n"@ =~= st.out + "```"@
            + lang + "\n"@ + st.line + "\n"@);
    }
    if !st.in_code {
        assert(crate::from_delta::fence_open("plain"@) == "```\n"@);
    }
}

} // verus!
