//! The shape of the Delta that Markdown converts to: a list of inserts,
//! each of text or of an embedded object.
use vstd::prelude::*;

use crate::from_delta::lemma_char_index;
use crate::from_delta::char_index;
use crate::json::Json;
use crate::markdown::MdEvent;
use crate::text::trim;
use crate::to_delta::{
    code_block_ops, code_lines, code_newline, delta_of_events, embed_of, ev_step, events_fold,
    flush_buf, insert_attr_op, insert_op, obj1, DeltaState,
};

verus! {

/// A Quill insert: `{"insert": v}` or `{"attributes": {..}, "insert": v}`,
/// with `v` a text or an embedded object.
pub open spec fn is_insert_op(op: Json) -> bool {
    match op {
        Json::Obj(es) => {
            ||| (es.len() == 1 && es[0].0 == "insert"@ && (es[0].1 is Str || es[0].1 is Obj))
            ||| (es.len() == 2 && es[0].0 == "attributes"@ && es[0].1 is Obj && es[1].0
                == "insert"@ && (es[1].1 is Str || es[1].1 is Obj))
        },
        _ => false,
    }
}

pub open spec fn all_inserts(ops: Seq<Json>) -> bool {
    forall|i: int| 0 <= i < ops.len() ==> is_insert_op(#[trigger] ops[i])
}

/// Every `<!-- slab:embed .. -->` comment among the events carries an
/// object.
pub open spec fn embeds_are_objects(evs: Seq<MdEvent>) -> bool {
    forall|i: int|
        0 <= i < evs.len() ==> match #[trigger] evs[i] {
            MdEvent::Html(h) => match embed_of(trim(h@)) {
                Some(e) => e is Obj,
                None => true,
            },
            _ => true,
        }
}

proof fn lemma_insert_op(v: Json)
    requires
        v is Str || v is Obj,
    ensures
        is_insert_op(insert_op(v)),
{
    let e1 = seq![("insert"@, v)];
    assert(e1.len() == 1 && e1[0] == ("insert"@, v));
}

proof fn lemma_insert_attr_op(v: Json, a: Json)
    requires
        v is Str || v is Obj,
        a is Obj,
    ensures
        is_insert_op(insert_attr_op(v, a)),
{
    let e2 = seq![("attributes"@, a), ("insert"@, v)];
    assert(e2.len() == 2 && e2[0] == ("attributes"@, a) && e2[1] == ("insert"@, v));
}

proof fn lemma_push_insert(ops: Seq<Json>, op: Json)
    requires
        all_inserts(ops),
        is_insert_op(op),
    ensures
        all_inserts(ops.push(op)),
{
    assert forall|i: int| 0 <= i < ops.push(op).len() implies is_insert_op(#[trigger] ops.push(op)[i]) by {
        if i < ops.len() {
            assert(ops.push(op)[i] == ops[i]);
        }
    }
}

proof fn lemma_flush_buf(st: DeltaState)
    requires
        all_inserts(st.ops),
    ensures
        all_inserts(flush_buf(st).ops),
{
    if st.buf.len() > 0 {
        lemma_insert_op(Json::Str(st.buf));
        lemma_insert_attr_op(Json::Str(st.buf), crate::to_delta::attr_obj(st.inline));
        let op = if st.inline.len() == 0 {
            insert_op(Json::Str(st.buf))
        } else {
            insert_attr_op(Json::Str(st.buf), crate::to_delta::attr_obj(st.inline))
        };
        lemma_push_insert(st.ops, op);
    }
}

proof fn lemma_code_lines(ops: Seq<Json>, rest: Seq<char>, lang: Seq<char>, trailing: bool)
    requires
        all_inserts(ops),
    ensures
        all_inserts(code_lines(ops, rest, lang, trailing)),
    decreases rest.len(),
{
    lemma_char_index(rest, '\n');
    let nl = Json::Str("\n"@);
    lemma_insert_attr_op(nl, obj1("code-block"@, Json::Str(lang)));
    assert(code_newline(lang) == insert_attr_op(nl, obj1("code-block"@, Json::Str(lang))));
    match char_index(rest, '\n') {
        None => {
            lemma_insert_op(Json::Str(rest));
            lemma_push_insert(ops, insert_op(Json::Str(rest)));
            let o = if rest.len() > 0 || !trailing {
                ops.push(insert_op(Json::Str(rest)))
            } else {
                ops
            };
            lemma_push_insert(o, code_newline(lang));
        },
        Some(i) => {
            let line = rest.take(i);
            lemma_insert_op(Json::Str(line));
            lemma_push_insert(ops, insert_op(Json::Str(line)));
            let o = if line.len() > 0 || !trailing {
                ops.push(insert_op(Json::Str(line)))
            } else {
                ops
            };
            lemma_push_insert(o, code_newline(lang));
            lemma_code_lines(o.push(code_newline(lang)), rest.skip(i + 1), lang, trailing);
        },
    }
}

proof fn lemma_code_block_ops(ops: Seq<Json>, code: Seq<char>, lang: Seq<char>)
    requires
        all_inserts(ops),
    ensures
        all_inserts(code_block_ops(ops, code, lang)),
{
    let trailing = code.len() > 0 && code.last() == '\n';
    let all = code_lines(ops, code, lang, trailing);
    lemma_code_lines(ops, code, lang, trailing);
    crate::to_delta::lemma_code_lines_len(ops, code, lang, trailing);
    if trailing {
        assert forall|i: int| 0 <= i < all.drop_last().len() implies is_insert_op(
            #[trigger] all.drop_last()[i],
        ) by {
            assert(all.drop_last()[i] == all[i]);
        }
    }
}

proof fn lemma_ev_step(st: DeltaState, ev: MdEvent)
    requires
        all_inserts(st.ops),
        block_is_obj(st),
        match ev {
            MdEvent::Html(h) => match embed_of(trim(h@)) {
                Some(e) => e is Obj,
                None => true,
            },
            _ => true,
        },
    ensures
        all_inserts(ev_step(st, ev).ops),
        block_is_obj(ev_step(st, ev)),
{
    let nl = Json::Str("\n"@);
    let t = Json::Bool(true);
    lemma_flush_buf(st);
    let s1 = flush_buf(st);
    lemma_insert_op(nl);
    lemma_insert_attr_op(nl, obj1("list"@, Json::Str("bullet"@)));
    match ev {
        MdEvent::StartImage(u) => {
            lemma_insert_op(obj1("image"@, Json::Str(u@)));
            lemma_push_insert(st.ops, insert_op(obj1("image"@, Json::Str(u@))));
        },
        MdEvent::EndHeading | MdEvent::EndItem => {
            match s1.block {
                Some(a) => {
                    lemma_insert_attr_op(nl, a);
                    lemma_push_insert(s1.ops, insert_attr_op(nl, a));
                },
                None => {
                    lemma_push_insert(s1.ops, insert_op(nl));
                    lemma_push_insert(s1.ops, insert_attr_op(nl, obj1("list"@, Json::Str("bullet"@))));
                },
            }
        },
        MdEvent::EndCodeBlock => {
            let lang = if st.code_lang.len() == 0 {
                "plain"@
            } else {
                st.code_lang
            };
            lemma_code_block_ops(st.ops, st.buf, lang);
        },
        MdEvent::EndParagraph | MdEvent::HardBreak => {
            lemma_push_insert(s1.ops, insert_op(nl));
        },
        MdEvent::Code(c) => {
            lemma_insert_attr_op(Json::Str(c@), obj1("code"@, t));
            lemma_push_insert(s1.ops, insert_attr_op(Json::Str(c@), obj1("code"@, t)));
        },
        MdEvent::Rule => {
            let d = insert_op(obj1("divider"@, t));
            lemma_insert_op(obj1("divider"@, t));
            lemma_push_insert(st.ops, d);
            lemma_push_insert(st.ops.push(d), insert_op(nl));
        },
        MdEvent::Html(h) => {
            match embed_of(trim(h@)) {
                Some(e) => {
                    lemma_insert_op(e);
                    lemma_push_insert(st.ops, insert_op(e));
                },
                None => {},
            }
        },
        _ => {},
    }
}

/// The pending block attribute is always an object.
pub open spec fn block_is_obj(st: DeltaState) -> bool {
    st.block matches Some(a) ==> a is Obj
}

proof fn lemma_fold(evs: Seq<MdEvent>)
    requires
        embeds_are_objects(evs),
    ensures
        all_inserts(events_fold(evs).ops),
        block_is_obj(events_fold(evs)),
    decreases evs.len(),
{
    if evs.len() > 0 {
        let pre = evs.drop_last();
        assert forall|i: int| 0 <= i < pre.len() implies match #[trigger] pre[i] {
            MdEvent::Html(h) => match embed_of(trim(h@)) {
                Some(e) => e is Obj,
                None => true,
            },
            _ => true,
        } by {
            assert(pre[i] == evs[i]);
        }
        lemma_fold(pre);
        let last = evs[evs.len() - 1];
        assert(evs.last() == last);
        lemma_ev_step(events_fold(pre), last);
    }
}

/// The Delta of Markdown events is `{"ops": [...]}` where each op is an
/// insert of text or of an embedded object, with an attribute object when
/// it has attributes (given that each embed comment carries an object).
/// An insert of text may be empty: an empty line of a code block is one.
pub proof fn lemma_delta_shape(evs: Seq<MdEvent>)
    requires
        embeds_are_objects(evs),
    ensures
        delta_of_events(evs) matches Json::Obj(es) && es.len() == 1 && es[0].0 == "ops"@
            && (es[0].1 matches Json::Arr(ops) && all_inserts(ops)),
{
    lemma_fold(evs);
    lemma_flush_buf(events_fold(evs));
    let es = seq![("ops"@, Json::Arr(flush_buf(events_fold(evs)).ops))];
    assert(es.len() == 1 && es[0] == ("ops"@, Json::Arr(flush_buf(events_fold(evs)).ops)));
}

// ---------------------------------------------------------------------
// Inserts of non-empty text
/// The op's insert is an object or non-empty text.
pub open spec fn insert_nonempty(op: Json) -> bool {
    match op {
        Json::Obj(es) => es.len() > 0 && match es.last().1 {
            Json::Str(t) => t.len() > 0,
            _ => true,
        },
        _ => false,
    }
}

pub open spec fn all_full_inserts(ops: Seq<Json>) -> bool {
    forall|i: int| 0 <= i < ops.len() ==> is_insert_op(#[trigger] ops[i]) && insert_nonempty(ops[i])
}

/// The events hold no code block and no empty inline code (the two places
/// where an insert of empty text is made: an empty line of a code block,
/// and an empty code span).
pub open spec fn no_empty_code(evs: Seq<MdEvent>) -> bool {
    forall|i: int|
        0 <= i < evs.len() ==> match #[trigger] evs[i] {
            MdEvent::EndCodeBlock => false,
            MdEvent::Code(c) => c@.len() > 0,
            _ => true,
        }
}

pub open spec fn full_value(v: Json) -> bool {
    v is Obj || (v matches Json::Str(t) && t.len() > 0)
}

proof fn lemma_full_op(v: Json, a: Json)
    requires
        full_value(v),
    ensures
        is_insert_op(insert_op(v)) && insert_nonempty(insert_op(v)),
        a is Obj ==> is_insert_op(insert_attr_op(v, a)) && insert_nonempty(insert_attr_op(v, a)),
{
    lemma_insert_op(v);
    let e1 = seq![("insert"@, v)];
    assert(e1.last() == ("insert"@, v));
    if a is Obj {
        lemma_insert_attr_op(v, a);
        let e2 = seq![("attributes"@, a), ("insert"@, v)];
        assert(e2.last() == ("insert"@, v));
    }
}

proof fn lemma_push_full(ops: Seq<Json>, op: Json)
    requires
        all_full_inserts(ops),
        is_insert_op(op) && insert_nonempty(op),
    ensures
        all_full_inserts(ops.push(op)),
{
    assert forall|i: int| 0 <= i < ops.push(op).len() implies is_insert_op(
        #[trigger] ops.push(op)[i],
    ) && insert_nonempty(ops.push(op)[i]) by {
        if i < ops.len() {
            assert(ops.push(op)[i] == ops[i]);
        }
    }
}

proof fn lemma_flush_full(st: DeltaState)
    requires
        all_full_inserts(st.ops),
    ensures
        all_full_inserts(flush_buf(st).ops),
{
    if st.buf.len() > 0 {
        let v = Json::Str(st.buf);
        let a = crate::to_delta::attr_obj(st.inline);
        lemma_full_op(v, a);
        let op = if st.inline.len() == 0 {
            insert_op(v)
        } else {
            insert_attr_op(v, a)
        };
        lemma_push_full(st.ops, op);
    }
}

proof fn lemma_ev_step_full(st: DeltaState, ev: MdEvent)
    requires
        all_full_inserts(st.ops),
        block_is_obj(st),
        match ev {
            MdEvent::Html(h) => match embed_of(trim(h@)) {
                Some(e) => e is Obj,
                None => true,
            },
            MdEvent::EndCodeBlock => false,
            MdEvent::Code(c) => c@.len() > 0,
            _ => true,
        },
    ensures
        all_full_inserts(ev_step(st, ev).ops),
        block_is_obj(ev_step(st, ev)),
{
    reveal_strlit("\n");
    let nl = Json::Str("\n"@);
    let t = Json::Bool(true);
    lemma_flush_full(st);
    let s1 = flush_buf(st);
    let bl = obj1("list"@, Json::Str("bullet"@));
    lemma_full_op(nl, bl);
    match ev {
        MdEvent::StartImage(u) => {
            lemma_full_op(obj1("image"@, Json::Str(u@)), t);
            lemma_push_full(st.ops, insert_op(obj1("image"@, Json::Str(u@))));
        },
        MdEvent::EndHeading | MdEvent::EndItem => {
            match s1.block {
                Some(a) => {
                    lemma_full_op(nl, a);
                    lemma_push_full(s1.ops, insert_attr_op(nl, a));
                },
                None => {
                    lemma_push_full(s1.ops, insert_op(nl));
                    lemma_push_full(s1.ops, insert_attr_op(nl, bl));
                },
            }
        },
        MdEvent::EndParagraph | MdEvent::HardBreak => {
            lemma_push_full(s1.ops, insert_op(nl));
        },
        MdEvent::Code(c) => {
            lemma_full_op(Json::Str(c@), obj1("code"@, t));
            lemma_push_full(s1.ops, insert_attr_op(Json::Str(c@), obj1("code"@, t)));
        },
        MdEvent::Rule => {
            let d = insert_op(obj1("divider"@, t));
            lemma_full_op(obj1("divider"@, t), t);
            lemma_push_full(st.ops, d);
            lemma_push_full(st.ops.push(d), insert_op(nl));
        },
        MdEvent::Html(h) => {
            match embed_of(trim(h@)) {
                Some(e) => {
                    lemma_full_op(e, e);
                    lemma_push_full(st.ops, insert_op(e));
                },
                None => {},
            }
        },
        _ => {},
    }
}

proof fn lemma_fold_full(evs: Seq<MdEvent>)
    requires
        embeds_are_objects(evs),
        no_empty_code(evs),
    ensures
        all_full_inserts(events_fold(evs).ops),
        block_is_obj(events_fold(evs)),
    decreases evs.len(),
{
    if evs.len() > 0 {
        let pre = evs.drop_last();
        assert forall|i: int| 0 <= i < pre.len() implies match #[trigger] pre[i] {
            MdEvent::Html(h) => match embed_of(trim(h@)) {
                Some(e) => e is Obj,
                None => true,
            },
            _ => true,
        } by {
            assert(pre[i] == evs[i]);
        }
        assert forall|i: int| 0 <= i < pre.len() implies match #[trigger] pre[i] {
            MdEvent::EndCodeBlock => false,
            MdEvent::Code(c) => c@.len() > 0,
            _ => true,
        } by {
            assert(pre[i] == evs[i]);
        }
        lemma_fold_full(pre);
        let last = evs[evs.len() - 1];
        assert(evs.last() == last);
        lemma_ev_step_full(events_fold(pre), last);
    }
}

/// Without code blocks and empty code spans among the events (and with
/// each embed comment carrying an object), every op of the Delta is an
/// insert of non-empty text or of an object. An empty line of a code
/// block gives an insert of empty text, so the law does not hold there.
pub proof fn lemma_delta_inserts_nonempty(evs: Seq<MdEvent>)
    requires
        embeds_are_objects(evs),
        no_empty_code(evs),
    ensures
        delta_of_events(evs) matches Json::Obj(es) && es.len() == 1 && es[0].0 == "ops"@
            && (es[0].1 matches Json::Arr(ops) && all_full_inserts(ops)),
{
    lemma_fold_full(evs);
    lemma_flush_full(events_fold(evs));
    let es = seq![("ops"@, Json::Arr(flush_buf(events_fold(evs)).ops))];
    assert(es.len() == 1 && es[0] == ("ops"@, Json::Arr(flush_buf(events_fold(evs)).ops)));
}

} // verus!
