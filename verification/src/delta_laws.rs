//! What each Markdown event adds to the Delta being built, written out as
//! the Quill JSON it produces, over every conversion state.
use vstd::prelude::*;

use crate::json::{Json, Num};
use crate::markdown::{level_num, Level, MdEvent};
use crate::to_delta::{ev_step, flush_buf, DeltaState, InlineAttr};

verus! {

/// `{"insert": v}`.
pub open spec fn ins(v: Json) -> Json {
    Json::Obj(seq![("insert"@, v)])
}

/// `{"attributes": a, "insert": v}`.
pub open spec fn ins_attr(v: Json, a: Json) -> Json {
    Json::Obj(seq![("attributes"@, a), ("insert"@, v)])
}

/// `{k: v}`.
pub open spec fn kv(k: Seq<char>, v: Json) -> Json {
    Json::Obj(seq![(k, v)])
}

/// The block formats: a heading sets the pending line attribute
/// `{"header": level}` and a quote `{"blockquote": true}`; the end of a
/// heading ends the line with a newline carrying the pending attribute
/// (a plain newline when there is none); the end of a list item ends it
/// with the pending attribute, or `{"list": "bullet"}` when there is none;
/// the end of a paragraph outside a block ends it with a plain newline.
/// Pending text is written first in each case.
pub proof fn lemma_block_events(st: DeltaState, level: Level)
    ensures
        ev_step(st, MdEvent::StartHeading(level)) == (DeltaState {
            block: Some(kv("header"@, Json::Num(Num::PosInt(level_num(level) as u64)))),
            ..st
        }),
        ev_step(st, MdEvent::StartBlockQuote) == (DeltaState {
            block: Some(kv("blockquote"@, Json::Bool(true))),
            ..st
        }),
        ev_step(st, MdEvent::EndHeading) == (DeltaState {
            ops: flush_buf(st).ops.push(
                match st.block {
                    Some(a) => ins_attr(Json::Str("\n"@), a),
                    None => ins(Json::Str("\n"@)),
                },
            ),
            block: None,
            ..flush_buf(st)
        }),
        ev_step(st, MdEvent::EndItem) == (DeltaState {
            ops: flush_buf(st).ops.push(
                match st.block {
                    Some(a) => ins_attr(Json::Str("\n"@), a),
                    None => ins_attr(Json::Str("\n"@), kv("list"@, Json::Str("bullet"@))),
                },
            ),
            block: None,
            ..flush_buf(st)
        }),
        st.block is None ==> ev_step(st, MdEvent::EndParagraph) == (DeltaState {
            ops: flush_buf(st).ops.push(ins(Json::Str("\n"@))),
            ..flush_buf(st)
        }),
        ev_step(st, MdEvent::EndBlockQuote) == (DeltaState { block: None, ..st }),
{
}

/// The inline events: strong, emphasis, strikethrough and a link each add
/// their format (bold, italic, strike, the link's destination) to those in
/// effect; text and a soft break (as a space) are buffered; inline code
/// ends the pending text and inserts the code with `{"code": true}`; a
/// hard break ends the pending text and inserts a newline.
pub proof fn lemma_inline_events(st: DeltaState, s: String)
    ensures
        ev_step(st, MdEvent::StartStrong) == (DeltaState { inline: st.inline.push(InlineAttr::Bold), ..st }),
        ev_step(st, MdEvent::StartEmphasis) == (DeltaState {
            inline: st.inline.push(InlineAttr::Italic),
            ..st
        }),
        ev_step(st, MdEvent::StartStrikethrough) == (DeltaState {
            inline: st.inline.push(InlineAttr::Strike),
            ..st
        }),
        ev_step(st, MdEvent::StartLink(s)) == (DeltaState {
            inline: st.inline.push(InlineAttr::Link(s)),
            ..st
        }),
        ev_step(st, MdEvent::Text(s)) == (DeltaState { buf: st.buf + s@, ..st }),
        ev_step(st, MdEvent::SoftBreak) == (DeltaState { buf: st.buf.push(' '), ..st }),
        ev_step(st, MdEvent::Code(s)) == (DeltaState {
            ops: flush_buf(st).ops.push(ins_attr(Json::Str(s@), kv("code"@, Json::Bool(true)))),
            ..flush_buf(st)
        }),
        ev_step(st, MdEvent::HardBreak) == (DeltaState {
            ops: flush_buf(st).ops.push(ins(Json::Str("\n"@))),
            ..flush_buf(st)
        }),
{
}

/// The embeds: an image inserts `{"image": url}` and a rule inserts
/// `{"divider": true}` followed by a newline; pending text stays pending.
pub proof fn lemma_embed_events(st: DeltaState, url: String)
    ensures
        ev_step(st, MdEvent::StartImage(url)) == (DeltaState {
            ops: st.ops.push(ins(kv("image"@, Json::Str(url@)))),
            ..st
        }),
        ev_step(st, MdEvent::Rule) == (DeltaState {
            ops: st.ops.push(ins(kv("divider"@, Json::Bool(true)))).push(ins(Json::Str("\n"@))),
            ..st
        }),
{
}

/// Pending text becomes one insert: a plain one without inline formats;
/// with formats in effect, one carrying them (bold alone gives
/// `{"bold": true}`, italic alone `{"italic": true}`, strike alone
/// `{"strike": true}`, a link alone `{"link": url}`).
pub proof fn lemma_text_inserts(st: DeltaState, url: String)
    requires
        st.buf.len() > 0,
    ensures
        st.inline.len() == 0 ==> flush_buf(st) == (DeltaState {
            ops: st.ops.push(ins(Json::Str(st.buf))),
            buf: Seq::empty(),
            ..st
        }),
        st.inline == seq![InlineAttr::Bold] ==> flush_buf(st).ops == st.ops.push(
            ins_attr(Json::Str(st.buf), kv("bold"@, Json::Bool(true))),
        ),
        st.inline == seq![InlineAttr::Italic] ==> flush_buf(st).ops == st.ops.push(
            ins_attr(Json::Str(st.buf), kv("italic"@, Json::Bool(true))),
        ),
        st.inline == seq![InlineAttr::Strike] ==> flush_buf(st).ops == st.ops.push(
            ins_attr(Json::Str(st.buf), kv("strike"@, Json::Bool(true))),
        ),
        st.inline == seq![InlineAttr::Link(url)] ==> flush_buf(st).ops == st.ops.push(
            ins_attr(Json::Str(st.buf), kv("link"@, Json::Str(url@))),
        ),
{
    let e = Seq::<InlineAttr>::empty();
    let ee = Seq::<(Seq<char>, Json)>::empty();
    assert(!crate::to_delta::has_kind(e, 0) && !crate::to_delta::has_kind(e, 1)
        && !crate::to_delta::has_kind(e, 2));
    assert(crate::to_delta::last_link(e) is None);
    if st.inline == seq![InlineAttr::Bold] {
        assert(st.inline.drop_last() =~= e);
        let b1 = seq![("bold"@, Json::Bool(true))];
        assert(b1 + ee + ee + ee =~= b1);
    }
    if st.inline == seq![InlineAttr::Italic] {
        assert(st.inline.drop_last() =~= e);
        let i1 = seq![("italic"@, Json::Bool(true))];
        assert(ee + i1 + ee + ee =~= i1);
    }
    if st.inline == seq![InlineAttr::Strike] {
        assert(st.inline.drop_last() =~= e);
        let k1 = seq![("strike"@, Json::Bool(true))];
        assert(ee + ee + ee + k1 =~= k1);
    }
    if st.inline == seq![InlineAttr::Link(url)] {
        assert(st.inline.drop_last() =~= e);
        let l1 = seq![("link"@, Json::Str(url@))];
        assert(ee + ee + l1 + ee =~= l1);
    }
}

/// A code block of one line `c` (its text `c` and a newline) in language
/// `lang` becomes the insert of `c` and a newline carrying
/// `{"code-block": lang}`; at the end of a code block the language is the
/// block's, or `plain` when it names none.
pub proof fn lemma_code_block_line(st: DeltaState, c: Seq<char>)
    requires
        c.len() > 0,
        forall|i: int| 0 <= i < c.len() ==> c[i] != '\n',
        st.buf == c + "\n"@,
    ensures
        ev_step(st, MdEvent::EndCodeBlock) == (DeltaState {
            ops: st.ops.push(ins(Json::Str(c))).push(
                ins_attr(
                    Json::Str("\n"@),
                    kv(
                        "code-block"@,
                        Json::Str(
                            if st.code_lang.len() == 0 {
                                "plain"@
                            } else {
                                st.code_lang
                            },
                        ),
                    ),
                ),
            ),
            buf: Seq::empty(),
            code_lang: Seq::empty(),
            ..st
        }),
{
    reveal_strlit("\n");
    let code = c + "\n"@;
    let lang = if st.code_lang.len() == 0 {
        "plain"@
    } else {
        st.code_lang
    };
    assert(code.len() > 0 && code.last() == '\n');
    assert(code[c.len() as int] == '\n');
    crate::from_delta::lemma_char_index_at(code, '\n', c.len() as int);
    assert(code.take(c.len() as int) =~= c);
    let nl = crate::to_delta::code_newline(lang);
    let o1 = st.ops.push(crate::to_delta::insert_op(Json::Str(c))).push(nl);
    assert(code.skip(c.len() as int + 1) =~= Seq::<char>::empty());
    assert(crate::from_delta::char_index(Seq::<char>::empty(), '\n') is None);
    let all = crate::to_delta::code_lines(st.ops, code, lang, true);
    assert(all == crate::to_delta::code_lines(o1, Seq::<char>::empty(), lang, true));
    assert(all == o1.push(nl));
    assert(all.drop_last() =~= o1);
}

} // verus!
