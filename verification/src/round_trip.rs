//! How the two converters agree: Markdown that the parser reads as a plain
//! paragraph or a heading comes back from its Delta as Markdown.
use vstd::prelude::*;

use crate::from_delta::{
    char_index, lemma_char_index_at, markdown_of, md_init, ops_fold, repeat, text_step, MdState,
};
use crate::json::{entries_get, get, Json, Num};
use crate::markdown::{level_num, Level, MdEvent};
use crate::text::trim;
use crate::to_delta::{
    delta_of_events, events_fold, insert_attr_op, insert_op, newline, obj1,
};

verus! {

/// No newline in `s`.
pub open spec fn one_line(s: Seq<char>) -> bool {
    forall|i: int| 0 <= i < s.len() ==> s[i] != '\n'
}

proof fn lemma_literals()
    ensures
        "insert"@ != "attributes"@,
        "header"@ != "code-block"@,
        "header"@ != "code_block"@,
        "\n"@ == seq!['\n'],
{
    reveal_strlit("insert");
    reveal_strlit("attributes");
    reveal_strlit("header");
    reveal_strlit("code-block");
    reveal_strlit("code_block");
    reveal_strlit("\n");
    assert("insert"@.len() != "attributes"@.len());
    assert("header"@[0] != "code-block"@[0]);
    assert("header"@[0] != "code_block"@[0]);
}

/// A one-line text run, as the first line of a document.
proof fn lemma_one_line_text(t: Seq<char>, attrs: Option<Json>)
    requires
        t.len() > 0,
        one_line(t),
    ensures
        text_step(md_init(), t, attrs) == (MdState { line: crate::from_delta::inline_text(t, attrs), ..md_init() }),
{
    lemma_char_index_at(t, '\n', t.len() as int);
}

/// The newline that ends the first line.
proof fn lemma_newline_step(st: MdState, attrs: Option<Json>)
    ensures
        text_step(st, "\n"@, attrs) == crate::from_delta::flush(st, attrs),
{
    lemma_literals();
    lemma_char_index_at("\n"@, '\n', 0);
    let s1 = crate::from_delta::flush(st, attrs);
    assert("\n"@.take(0) =~= Seq::<char>::empty());
    assert("\n"@.skip(1) =~= Seq::<char>::empty());
    assert(char_index(Seq::<char>::empty(), '\n') is None);
    assert(text_step(s1, Seq::<char>::empty(), attrs) == s1);
}

/// `get` on a one-entry object with another key.
proof fn lemma_get_other(k: Seq<char>, v: Json, other: Seq<char>)
    requires
        k != other,
    ensures
        get(obj1(k, v), other) is None,
        get(obj1(k, v), k) == Some(v),
{
    let es = seq![(k, v)];
    assert(es.drop_first() =~= Seq::<(Seq<char>, Json)>::empty());
    assert(entries_get(es.drop_first(), other) is None);
}

/// A paragraph of one line of plain text that the Markdown parser reads as
/// such (`[paragraph start, text, paragraph end]`) becomes a Delta whose
/// Markdown is that line.
pub proof fn lemma_plain_paragraph_round_trip(t: String)
    requires
        t@.len() > 0,
        one_line(t@),
    ensures
        markdown_of(
            delta_of_events(seq![MdEvent::StartOther, MdEvent::Text(t), MdEvent::EndParagraph]),
        ) == t@ + "\n"@,
{
    lemma_literals();
    let evs = seq![MdEvent::StartOther, MdEvent::Text(t), MdEvent::EndParagraph];
    assert(evs.drop_last().drop_last().drop_last() =~= Seq::<MdEvent>::empty());
    assert(evs.drop_last().drop_last() =~= seq![MdEvent::StartOther]);
    assert(evs.drop_last() =~= seq![MdEvent::StartOther, MdEvent::Text(t)]);
    let op1 = insert_op(Json::Str(t@));
    let op2 = insert_op(newline());
    let s0 = events_fold(Seq::<MdEvent>::empty());
    let s1 = events_fold(seq![MdEvent::StartOther]);
    assert(s1 == s0);
    let s2 = events_fold(seq![MdEvent::StartOther, MdEvent::Text(t)]);
    assert(s2.buf =~= t@);
    assert(s2.ops =~= Seq::<Json>::empty());
    assert(s2.block is None);
    assert(s2.inline =~= Seq::<crate::to_delta::InlineAttr>::empty());
    let s3 = events_fold(evs);
    assert(s3.ops =~= seq![op1, op2]);
    assert(s3.buf.len() == 0);
    let ops = seq![op1, op2];
    let d = delta_of_events(evs);
    assert(d == obj1("ops"@, Json::Arr(ops)));
    assert(ops.drop_last().drop_last() =~= Seq::<Json>::empty());
    assert(ops.drop_last() =~= seq![op1]);
    lemma_get_other("insert"@, Json::Str(t@), "attributes"@);
    lemma_get_other("insert"@, newline(), "attributes"@);
    lemma_one_line_text(t@, None);
    assert(seq![op1].drop_last() =~= Seq::<Json>::empty());
    assert(get(op1, "insert"@) == Some(Json::Str(t@)));
    assert(ops_fold(Seq::<Json>::empty()) == md_init());
    assert(seq![op1].last() == op1);
    let st1 = ops_fold(seq![op1]);
    assert(st1 == crate::from_delta::op_step(md_init(), op1));
    assert(crate::from_delta::inline_text(t@, None) == t@);
    assert(st1 == (MdState { line: t@, ..md_init() }));
    lemma_newline_step(st1, None);
    assert(ops_fold(ops).out =~= t@ + "\n"@);
}

/// A heading of one line that the Markdown parser reads as such
/// (`[heading start, text, heading end]`) becomes the Delta
/// `{"ops": [{"insert": t}, {"attributes": {"header": level}, "insert": "\n"}]}`,
/// whose Markdown is the heading: its level's `#`s and its trimmed text.
pub proof fn lemma_heading_round_trip(level: Level, t: String)
    requires
        t@.len() > 0,
        one_line(t@),
    ensures
        markdown_of(
            delta_of_events(seq![MdEvent::StartHeading(level), MdEvent::Text(t), MdEvent::EndHeading]),
        ) == repeat("#"@, level_num(level) as nat) + " "@ + trim(t@) + "\n"@,
        delta_of_events(seq![MdEvent::StartHeading(level), MdEvent::Text(t), MdEvent::EndHeading])
            == Json::Obj(
            seq![
                (
                    "ops"@,
                    Json::Arr(
                        seq![
                            Json::Obj(seq![("insert"@, Json::Str(t@))]),
                            Json::Obj(
                                seq![
                                    (
                                        "attributes"@,
                                        Json::Obj(
                                            seq![
                                                (
                                                    "header"@,
                                                    Json::Num(Num::PosInt(level_num(level) as u64)),
                                                ),
                                            ],
                                        ),
                                    ),
                                    ("insert"@, Json::Str("\n"@)),
                                ],
                            ),
                        ],
                    ),
                ),
            ],
        ),
{
    lemma_literals();
    let evs = seq![MdEvent::StartHeading(level), MdEvent::Text(t), MdEvent::EndHeading];
    assert(evs.drop_last().drop_last().drop_last() =~= Seq::<MdEvent>::empty());
    assert(evs.drop_last().drop_last() =~= seq![MdEvent::StartHeading(level)]);
    assert(evs.drop_last() =~= seq![MdEvent::StartHeading(level), MdEvent::Text(t)]);
    let a = obj1("header"@, Json::Num(Num::PosInt(level_num(level) as u64)));
    let op1 = insert_op(Json::Str(t@));
    let op2 = insert_attr_op(newline(), a);
    let s0 = events_fold(Seq::<MdEvent>::empty());
    let s1 = events_fold(seq![MdEvent::StartHeading(level)]);
    assert(s1.block == Some(a));
    assert(s1.ops =~= Seq::<Json>::empty());
    assert(s1.buf =~= Seq::<char>::empty());
    let s2 = events_fold(seq![MdEvent::StartHeading(level), MdEvent::Text(t)]);
    assert(s2.buf =~= t@);
    assert(s2.ops =~= Seq::<Json>::empty());
    assert(s2.block == Some(a));
    assert(s2.inline =~= Seq::<crate::to_delta::InlineAttr>::empty());
    let s3 = events_fold(evs);
    assert(s3.ops =~= seq![op1, op2]);
    assert(s3.buf.len() == 0);
    let ops = seq![op1, op2];
    let d = delta_of_events(evs);
    assert(d == obj1("ops"@, Json::Arr(ops)));
    assert(ops.drop_last().drop_last() =~= Seq::<Json>::empty());
    assert(ops.drop_last() =~= seq![op1]);
    lemma_get_other("insert"@, Json::Str(t@), "attributes"@);
    assert(get(op2, "attributes"@) == Some(a));
    assert(get(op2, "insert"@) == Some(newline())) by {
        let es = seq![("attributes"@, a), ("insert"@, newline())];
        assert(es.drop_first() =~= seq![("insert"@, newline())]);
        lemma_get_other("insert"@, newline(), "attributes"@);
        assert(entries_get(seq![("insert"@, newline())], "insert"@) == Some(newline()));
        assert(entries_get(es, "insert"@) == Some(newline()));
    }
    lemma_one_line_text(t@, None);
    assert(seq![op1].drop_last() =~= Seq::<Json>::empty());
    assert(get(op1, "insert"@) == Some(Json::Str(t@)));
    assert(ops_fold(Seq::<Json>::empty()) == md_init());
    assert(seq![op1].last() == op1);
    let st1 = ops_fold(seq![op1]);
    assert(st1 == crate::from_delta::op_step(md_init(), op1));
    assert(crate::from_delta::inline_text(t@, None) == t@);
    assert(st1 == (MdState { line: t@, ..md_init() }));
    lemma_newline_step(st1, Some(a));
    let hv = Json::Num(Num::PosInt(level_num(level) as u64));
    lemma_get_other("header"@, hv, "code-block"@);
    lemma_get_other("header"@, hv, "code_block"@);
    assert(crate::json::as_u64(get(a, "header"@)) == Some(level_num(level) as u64));
    let fl = crate::from_delta::flush(st1, Some(a));
    assert(fl.out =~= repeat("#"@, level_num(level) as nat) + " "@ + trim(t@) + "\n"@);
    assert(ops_fold(ops).out =~= repeat("#"@, level_num(level) as nat) + " "@ + trim(t@) + "\n"@);
}

proof fn lemma_bold_literals()
    ensures
        "bold"@ != "code"@,
        "bold"@ != "link"@,
        "bold"@ != "italic"@,
        "bold"@ != "strike"@,
        "bold"@ != "underline"@,
{
    reveal_strlit("bold");
    reveal_strlit("code");
    reveal_strlit("link");
    reveal_strlit("italic");
    reveal_strlit("strike");
    reveal_strlit("underline");
    assert("bold"@[0] != "code"@[0]);
    assert("bold"@[0] != "link"@[0]);
    assert("bold"@[0] != "italic"@[0]);
    assert("bold"@[0] != "strike"@[0]);
    assert("bold"@[0] != "underline"@[0]);
}

/// A paragraph of one line of bold text that the Markdown parser reads as
/// such (`[paragraph start, strong start, text, strong end, paragraph
/// end]`) becomes the Delta
/// `{"ops": [{"attributes": {"bold": true}, "insert": t}, {"insert": "\n"}]}`,
/// whose Markdown is that line between `**`.
pub proof fn lemma_bold_paragraph_round_trip(t: String)
    requires
        t@.len() > 0,
        one_line(t@),
    ensures
        markdown_of(
            delta_of_events(
                seq![
                    MdEvent::StartOther,
                    MdEvent::StartStrong,
                    MdEvent::Text(t),
                    MdEvent::EndStrong,
                    MdEvent::EndParagraph,
                ],
            ),
        ) == "**"@ + t@ + "**"@ + "\n"@,
        delta_of_events(
            seq![
                MdEvent::StartOther,
                MdEvent::StartStrong,
                MdEvent::Text(t),
                MdEvent::EndStrong,
                MdEvent::EndParagraph,
            ],
        ) == Json::Obj(
            seq![
                (
                    "ops"@,
                    Json::Arr(
                        seq![
                            Json::Obj(
                                seq![
                                    ("attributes"@, Json::Obj(seq![("bold"@, Json::Bool(true))])),
                                    ("insert"@, Json::Str(t@)),
                                ],
                            ),
                            Json::Obj(seq![("insert"@, Json::Str("\n"@))]),
                        ],
                    ),
                ),
            ],
        ),
{
    lemma_literals();
    lemma_bold_literals();
    let evs = seq![
        MdEvent::StartOther,
        MdEvent::StartStrong,
        MdEvent::Text(t),
        MdEvent::EndStrong,
        MdEvent::EndParagraph,
    ];
    let bold = seq![crate::to_delta::InlineAttr::Bold];
    let a = Json::Obj(seq![("bold"@, Json::Bool(true))]);
    assert(crate::to_delta::has_kind(bold, 0)) by {
        assert(bold.drop_last() =~= Seq::<crate::to_delta::InlineAttr>::empty());
    }
    assert(!crate::to_delta::has_kind(bold, 1) && !crate::to_delta::has_kind(bold, 2)) by {
        let e = Seq::<crate::to_delta::InlineAttr>::empty();
        assert(bold.drop_last() =~= e);
        assert(bold.last() == crate::to_delta::InlineAttr::Bold);
        assert(!crate::to_delta::has_kind(e, 1));
        assert(!crate::to_delta::has_kind(e, 2));
    }
    assert(crate::to_delta::last_link(bold) is None) by {
        let e = Seq::<crate::to_delta::InlineAttr>::empty();
        assert(bold.drop_last() =~= e);
        assert(bold.last() == crate::to_delta::InlineAttr::Bold);
        assert(crate::to_delta::last_link(e) is None);
    }
    assert(crate::to_delta::attr_obj(bold) =~= a) by {
        let b1 = seq![("bold"@, Json::Bool(true))];
        let e = Seq::<(Seq<char>, Json)>::empty();
        assert(b1 + e + e + e =~= b1);
    }
    let op1 = insert_attr_op(Json::Str(t@), a);
    let op2 = insert_op(newline());
    let s2 = events_fold(seq![MdEvent::StartOther, MdEvent::StartStrong]);
    assert(events_fold(seq![MdEvent::StartOther]) == events_fold(Seq::<MdEvent>::empty())) by {
        assert(seq![MdEvent::StartOther].drop_last() =~= Seq::<MdEvent>::empty());
    }
    assert(seq![MdEvent::StartOther, MdEvent::StartStrong].drop_last() =~= seq![MdEvent::StartOther]);
    assert(s2.inline =~= bold);
    assert(s2.ops =~= Seq::<Json>::empty());
    assert(s2.buf =~= Seq::<char>::empty());
    assert(s2.block is None);
    let e3 = seq![MdEvent::StartOther, MdEvent::StartStrong, MdEvent::Text(t)];
    assert(e3.drop_last() =~= seq![MdEvent::StartOther, MdEvent::StartStrong]);
    let s3 = events_fold(e3);
    assert(s3.buf =~= t@);
    assert(s3.inline =~= bold);
    let e4 = seq![MdEvent::StartOther, MdEvent::StartStrong, MdEvent::Text(t), MdEvent::EndStrong];
    assert(e4.drop_last() =~= e3);
    let s4 = events_fold(e4);
    assert(s4.ops =~= seq![op1]);
    assert(s4.buf.len() == 0);
    assert(s4.block is None);
    assert(evs.drop_last() =~= e4);
    let s5 = events_fold(evs);
    assert(s5.ops =~= seq![op1, op2]);
    assert(s5.buf.len() == 0);
    let ops = seq![op1, op2];
    let d = delta_of_events(evs);
    assert(d == obj1("ops"@, Json::Arr(ops)));
    assert(ops.drop_last().drop_last() =~= Seq::<Json>::empty());
    assert(ops.drop_last() =~= seq![op1]);
    lemma_get_other("insert"@, newline(), "attributes"@);
    let es1 = seq![("attributes"@, a), ("insert"@, Json::Str(t@))];
    assert(get(op1, "attributes"@) == Some(a));
    assert(get(op1, "insert"@) == Some(Json::Str(t@))) by {
        assert(es1.drop_first() =~= seq![("insert"@, Json::Str(t@))]);
        lemma_get_other("insert"@, Json::Str(t@), "attributes"@);
    }
    lemma_get_other("bold"@, Json::Bool(true), "code"@);
    lemma_get_other("bold"@, Json::Bool(true), "link"@);
    lemma_get_other("bold"@, Json::Bool(true), "italic"@);
    lemma_get_other("bold"@, Json::Bool(true), "strike"@);
    lemma_get_other("bold"@, Json::Bool(true), "underline"@);
    assert(crate::from_delta::inline_text(t@, Some(a)) == "**"@ + t@ + "**"@);
    lemma_one_line_text(t@, Some(a));
    assert(ops_fold(Seq::<Json>::empty()) == md_init());
    assert(seq![op1].last() == op1);
    let st1 = ops_fold(seq![op1]);
    assert(st1 == crate::from_delta::op_step(md_init(), op1));
    assert(st1 == (MdState { line: "**"@ + t@ + "**"@, ..md_init() }));
    lemma_newline_step(st1, None);
    assert(ops_fold(ops).out =~= "**"@ + t@ + "**"@ + "\n"@);
}

proof fn lemma_italic_literals()
    ensures
        "italic"@ != "code"@,
        "italic"@ != "link"@,
        "italic"@ != "bold"@,
        "italic"@ != "strike"@,
        "italic"@ != "underline"@,
{
    reveal_strlit("italic");
    reveal_strlit("bold");
    reveal_strlit("code");
    reveal_strlit("link");
    reveal_strlit("strike");
    reveal_strlit("underline");
    assert("italic"@[0] != "code"@[0]);
    assert("italic"@[0] != "link"@[0]);
    assert("italic"@[0] != "bold"@[0]);
    assert("italic"@[0] != "strike"@[0]);
    assert("italic"@[0] != "underline"@[0]);
}

/// A paragraph of one line of emphasized text that the Markdown parser
/// reads as such (`[paragraph start, emphasis start, text, emphasis end,
/// paragraph end]`) becomes the Delta
/// `{"ops": [{"attributes": {"italic": true}, "insert": t}, {"insert": "\n"}]}`,
/// whose Markdown is that line between `*`.
pub proof fn lemma_emphasis_paragraph_round_trip(t: String)
    requires
        t@.len() > 0,
        one_line(t@),
    ensures
        delta_of_events(
            seq![
                MdEvent::StartOther,
                MdEvent::StartEmphasis,
                MdEvent::Text(t),
                MdEvent::EndEmphasis,
                MdEvent::EndParagraph,
            ],
        ) == Json::Obj(
            seq![
                (
                    "ops"@,
                    Json::Arr(
                        seq![
                            Json::Obj(
                                seq![
                                    ("attributes"@, Json::Obj(seq![("italic"@, Json::Bool(true))])),
                                    ("insert"@, Json::Str(t@)),
                                ],
                            ),
                            Json::Obj(seq![("insert"@, Json::Str("\n"@))]),
                        ],
                    ),
                ),
            ],
        ),
        markdown_of(
            delta_of_events(
                seq![
                    MdEvent::StartOther,
                    MdEvent::StartEmphasis,
                    MdEvent::Text(t),
                    MdEvent::EndEmphasis,
                    MdEvent::EndParagraph,
                ],
            ),
        ) == "*"@ + t@ + "*"@ + "\n"@,
{
    lemma_literals();
    lemma_italic_literals();
    let evs = seq![
        MdEvent::StartOther,
        MdEvent::StartEmphasis,
        MdEvent::Text(t),
        MdEvent::EndEmphasis,
        MdEvent::EndParagraph,
    ];
    let ital = seq![crate::to_delta::InlineAttr::Italic];
    let a = Json::Obj(seq![("italic"@, Json::Bool(true))]);
    assert(crate::to_delta::has_kind(ital, 1)) by {
        assert(ital.drop_last() =~= Seq::<crate::to_delta::InlineAttr>::empty());
    }
    assert(!crate::to_delta::has_kind(ital, 0) && !crate::to_delta::has_kind(ital, 2)) by {
        let e = Seq::<crate::to_delta::InlineAttr>::empty();
        assert(ital.drop_last() =~= e);
        assert(ital.last() == crate::to_delta::InlineAttr::Italic);
        assert(!crate::to_delta::has_kind(e, 0));
        assert(!crate::to_delta::has_kind(e, 2));
    }
    assert(crate::to_delta::last_link(ital) is None) by {
        let e = Seq::<crate::to_delta::InlineAttr>::empty();
        assert(ital.drop_last() =~= e);
        assert(ital.last() == crate::to_delta::InlineAttr::Italic);
        assert(crate::to_delta::last_link(e) is None);
    }
    assert(crate::to_delta::attr_obj(ital) =~= a) by {
        let i1 = seq![("italic"@, Json::Bool(true))];
        let e = Seq::<(Seq<char>, Json)>::empty();
        assert(e + i1 + e + e =~= i1);
    }
    let op1 = insert_attr_op(Json::Str(t@), a);
    let op2 = insert_op(newline());
    let s2 = events_fold(seq![MdEvent::StartOther, MdEvent::StartEmphasis]);
    assert(events_fold(seq![MdEvent::StartOther]) == events_fold(Seq::<MdEvent>::empty())) by {
        assert(seq![MdEvent::StartOther].drop_last() =~= Seq::<MdEvent>::empty());
    }
    assert(seq![MdEvent::StartOther, MdEvent::StartEmphasis].drop_last() =~= seq![MdEvent::StartOther]);
    assert(s2.inline =~= ital);
    assert(s2.ops =~= Seq::<Json>::empty());
    assert(s2.buf =~= Seq::<char>::empty());
    assert(s2.block is None);
    let e3 = seq![MdEvent::StartOther, MdEvent::StartEmphasis, MdEvent::Text(t)];
    assert(e3.drop_last() =~= seq![MdEvent::StartOther, MdEvent::StartEmphasis]);
    let s3 = events_fold(e3);
    assert(s3.buf =~= t@);
    assert(s3.inline =~= ital);
    let e4 = seq![MdEvent::StartOther, MdEvent::StartEmphasis, MdEvent::Text(t), MdEvent::EndEmphasis];
    assert(e4.drop_last() =~= e3);
    let s4 = events_fold(e4);
    assert(s4.ops =~= seq![op1]);
    assert(s4.buf.len() == 0);
    assert(s4.block is None);
    assert(evs.drop_last() =~= e4);
    let s5 = events_fold(evs);
    assert(s5.ops =~= seq![op1, op2]);
    assert(s5.buf.len() == 0);
    let ops = seq![op1, op2];
    let d = delta_of_events(evs);
    assert(d == obj1("ops"@, Json::Arr(ops)));
    assert(ops.drop_last().drop_last() =~= Seq::<Json>::empty());
    assert(ops.drop_last() =~= seq![op1]);
    lemma_get_other("insert"@, newline(), "attributes"@);
    let es1 = seq![("attributes"@, a), ("insert"@, Json::Str(t@))];
    assert(get(op1, "attributes"@) == Some(a));
    assert(get(op1, "insert"@) == Some(Json::Str(t@))) by {
        assert(es1.drop_first() =~= seq![("insert"@, Json::Str(t@))]);
        lemma_get_other("insert"@, Json::Str(t@), "attributes"@);
    }
    lemma_get_other("italic"@, Json::Bool(true), "code"@);
    lemma_get_other("italic"@, Json::Bool(true), "link"@);
    lemma_get_other("italic"@, Json::Bool(true), "bold"@);
    lemma_get_other("italic"@, Json::Bool(true), "strike"@);
    lemma_get_other("italic"@, Json::Bool(true), "underline"@);
    assert(crate::from_delta::inline_text(t@, Some(a)) == "*"@ + t@ + "*"@);
    lemma_one_line_text(t@, Some(a));
    assert(ops_fold(Seq::<Json>::empty()) == md_init());
    assert(seq![op1].last() == op1);
    let st1 = ops_fold(seq![op1]);
    assert(st1 == crate::from_delta::op_step(md_init(), op1));
    assert(st1 == (MdState { line: "*"@ + t@ + "*"@, ..md_init() }));
    lemma_newline_step(st1, None);
    assert(ops_fold(ops).out =~= "*"@ + t@ + "*"@ + "\n"@);
}

proof fn lemma_strike_literals()
    ensures
        "strike"@ != "code"@,
        "strike"@ != "link"@,
        "strike"@ != "bold"@,
        "strike"@ != "italic"@,
        "strike"@ != "underline"@,
{
    reveal_strlit("italic");
    reveal_strlit("bold");
    reveal_strlit("code");
    reveal_strlit("link");
    reveal_strlit("strike");
    reveal_strlit("underline");
    assert("strike"@[0] != "code"@[0]);
    assert("strike"@[0] != "link"@[0]);
    assert("strike"@[0] != "bold"@[0]);
    assert("strike"@[0] != "italic"@[0]);
    assert("strike"@[0] != "underline"@[0]);
}

/// A paragraph of one line of struck-through text that the Markdown parser
/// reads as such (`[paragraph start, strikethrough start, text,
/// strikethrough end, paragraph end]`) becomes the Delta
/// `{"ops": [{"attributes": {"strike": true}, "insert": t}, {"insert": "\n"}]}`,
/// whose Markdown is that line between `~~`.
pub proof fn lemma_strikethrough_paragraph_round_trip(t: String)
    requires
        t@.len() > 0,
        one_line(t@),
    ensures
        delta_of_events(
            seq![
                MdEvent::StartOther,
                MdEvent::StartStrikethrough,
                MdEvent::Text(t),
                MdEvent::EndStrikethrough,
                MdEvent::EndParagraph,
            ],
        ) == Json::Obj(
            seq![
                (
                    "ops"@,
                    Json::Arr(
                        seq![
                            Json::Obj(
                                seq![
                                    ("attributes"@, Json::Obj(seq![("strike"@, Json::Bool(true))])),
                                    ("insert"@, Json::Str(t@)),
                                ],
                            ),
                            Json::Obj(seq![("insert"@, Json::Str("\n"@))]),
                        ],
                    ),
                ),
            ],
        ),
        markdown_of(
            delta_of_events(
                seq![
                    MdEvent::StartOther,
                    MdEvent::StartStrikethrough,
                    MdEvent::Text(t),
                    MdEvent::EndStrikethrough,
                    MdEvent::EndParagraph,
                ],
            ),
        ) == "~~"@ + t@ + "~~"@ + "\n"@,
{
    lemma_literals();
    lemma_strike_literals();
    let evs = seq![
        MdEvent::StartOther,
        MdEvent::StartStrikethrough,
        MdEvent::Text(t),
        MdEvent::EndStrikethrough,
        MdEvent::EndParagraph,
    ];
    let ital = seq![crate::to_delta::InlineAttr::Strike];
    let a = Json::Obj(seq![("strike"@, Json::Bool(true))]);
    assert(crate::to_delta::has_kind(ital, 2)) by {
        assert(ital.drop_last() =~= Seq::<crate::to_delta::InlineAttr>::empty());
    }
    assert(!crate::to_delta::has_kind(ital, 0) && !crate::to_delta::has_kind(ital, 1)) by {
        let e = Seq::<crate::to_delta::InlineAttr>::empty();
        assert(ital.drop_last() =~= e);
        assert(ital.last() == crate::to_delta::InlineAttr::Strike);
        assert(!crate::to_delta::has_kind(e, 0));
        assert(!crate::to_delta::has_kind(e, 1));
    }
    assert(crate::to_delta::last_link(ital) is None) by {
        let e = Seq::<crate::to_delta::InlineAttr>::empty();
        assert(ital.drop_last() =~= e);
        assert(ital.last() == crate::to_delta::InlineAttr::Strike);
        assert(crate::to_delta::last_link(e) is None);
    }
    assert(crate::to_delta::attr_obj(ital) =~= a) by {
        let k1 = seq![("strike"@, Json::Bool(true))];
        let e = Seq::<(Seq<char>, Json)>::empty();
        assert(e + e + e + k1 =~= k1);
    }
    let op1 = insert_attr_op(Json::Str(t@), a);
    let op2 = insert_op(newline());
    let s2 = events_fold(seq![MdEvent::StartOther, MdEvent::StartStrikethrough]);
    assert(events_fold(seq![MdEvent::StartOther]) == events_fold(Seq::<MdEvent>::empty())) by {
        assert(seq![MdEvent::StartOther].drop_last() =~= Seq::<MdEvent>::empty());
    }
    assert(seq![MdEvent::StartOther, MdEvent::StartStrikethrough].drop_last() =~= seq![MdEvent::StartOther]);
    assert(s2.inline =~= ital);
    assert(s2.ops =~= Seq::<Json>::empty());
    assert(s2.buf =~= Seq::<char>::empty());
    assert(s2.block is None);
    let e3 = seq![MdEvent::StartOther, MdEvent::StartStrikethrough, MdEvent::Text(t)];
    assert(e3.drop_last() =~= seq![MdEvent::StartOther, MdEvent::StartStrikethrough]);
    let s3 = events_fold(e3);
    assert(s3.buf =~= t@);
    assert(s3.inline =~= ital);
    let e4 = seq![MdEvent::StartOther, MdEvent::StartStrikethrough, MdEvent::Text(t), MdEvent::EndStrikethrough];
    assert(e4.drop_last() =~= e3);
    let s4 = events_fold(e4);
    assert(s4.ops =~= seq![op1]);
    assert(s4.buf.len() == 0);
    assert(s4.block is None);
    assert(evs.drop_last() =~= e4);
    let s5 = events_fold(evs);
    assert(s5.ops =~= seq![op1, op2]);
    assert(s5.buf.len() == 0);
    let ops = seq![op1, op2];
    let d = delta_of_events(evs);
    assert(d == obj1("ops"@, Json::Arr(ops)));
    assert(ops.drop_last().drop_last() =~= Seq::<Json>::empty());
    assert(ops.drop_last() =~= seq![op1]);
    lemma_get_other("insert"@, newline(), "attributes"@);
    let es1 = seq![("attributes"@, a), ("insert"@, Json::Str(t@))];
    assert(get(op1, "attributes"@) == Some(a));
    assert(get(op1, "insert"@) == Some(Json::Str(t@))) by {
        assert(es1.drop_first() =~= seq![("insert"@, Json::Str(t@))]);
        lemma_get_other("insert"@, Json::Str(t@), "attributes"@);
    }
    lemma_get_other("strike"@, Json::Bool(true), "code"@);
    lemma_get_other("strike"@, Json::Bool(true), "link"@);
    lemma_get_other("strike"@, Json::Bool(true), "bold"@);
    lemma_get_other("strike"@, Json::Bool(true), "italic"@);
    lemma_get_other("strike"@, Json::Bool(true), "underline"@);
    assert(crate::from_delta::inline_text(t@, Some(a)) == "~~"@ + t@ + "~~"@);
    lemma_one_line_text(t@, Some(a));
    assert(ops_fold(Seq::<Json>::empty()) == md_init());
    assert(seq![op1].last() == op1);
    let st1 = ops_fold(seq![op1]);
    assert(st1 == crate::from_delta::op_step(md_init(), op1));
    assert(st1 == (MdState { line: "~~"@ + t@ + "~~"@, ..md_init() }));
    lemma_newline_step(st1, None);
    assert(ops_fold(ops).out =~= "~~"@ + t@ + "~~"@ + "\n"@);
}

/// A line without attributes outside a code block ends as itself and a
/// newline, so an empty line stays an empty line of the Markdown.
pub proof fn lemma_plain_line_flush(st: MdState)
    requires
        !st.in_code,
    ensures
        crate::from_delta::flush(st, None) == (MdState {
            out: st.out + st.line + "\n"@,
            line: Seq::empty(),
            ..st
        }),
{
}

/// One text insert `a\n\nb\n` of two one-line paragraphs becomes that
/// Markdown: the empty line between them is kept.
pub proof fn lemma_two_paragraphs(a: Seq<char>, b: Seq<char>)
    requires
        a.len() > 0,
        b.len() > 0,
        one_line(a),
        one_line(b),
    ensures
        markdown_of(obj1("ops"@, Json::Arr(seq![insert_op(Json::Str(a + "\n\n"@ + b + "\n"@))])))
            == a + "\n\n"@ + b + "\n"@,
{
    reveal_strlit("\n\n");
    reveal_strlit("\n");
    lemma_literals();
    let t = a + "\n\n"@ + b + "\n"@;
    let op = insert_op(Json::Str(t));
    let ops = seq![op];
    assert(get(obj1("ops"@, Json::Arr(ops)), "ops"@) == Some(Json::Arr(ops)));
    assert(crate::from_delta::delta_ops(obj1("ops"@, Json::Arr(ops))) == Some(ops));
    assert(ops.drop_last() =~= Seq::<Json>::empty());
    assert(ops.last() == op);
    lemma_get_other("insert"@, Json::Str(t), "attributes"@);
    assert(ops_fold(Seq::<Json>::empty()) == md_init());
    assert(crate::from_delta::op_step(md_init(), op) == text_step(md_init(), t, None));
    assert(ops_fold(ops) == text_step(md_init(), t, None));
    // the first line
    assert(t[a.len() as int] == '\n');
    lemma_char_index_at(t, '\n', a.len() as int);
    assert(t.take(a.len() as int) =~= a);
    let s1 = MdState { line: a, ..md_init() };
    let s2 = crate::from_delta::flush(s1, None);
    assert(s2.out =~= a + "\n"@);
    let t2 = t.skip(a.len() as int + 1);
    assert(t2 =~= "\n"@ + b + "\n"@);
    assert(text_step(md_init(), t, None) == text_step(s2, t2, None));
    // the empty line
    lemma_char_index_at(t2, '\n', 0);
    assert(t2.take(0) =~= Seq::<char>::empty());
    let s3 = crate::from_delta::flush(s2, None);
    assert(s3.out =~= a + "\n\n"@);
    let t3 = t2.skip(1);
    assert(t3 =~= b + "\n"@);
    assert(text_step(s2, t2, None) == text_step(s3, t3, None));
    // the second line
    assert(t3[b.len() as int] == '\n');
    lemma_char_index_at(t3, '\n', b.len() as int);
    assert(t3.take(b.len() as int) =~= b);
    let s4 = MdState { line: b, ..s3 };
    let s5 = crate::from_delta::flush(s4, None);
    assert(s5.out =~= a + "\n\n"@ + b + "\n"@);
    assert(t3.skip(b.len() as int + 1) =~= Seq::<char>::empty());
    assert(char_index(Seq::<char>::empty(), '\n') is None);
    assert(text_step(s3, t3, None) == text_step(s5, Seq::<char>::empty(), None));
    assert(text_step(s5, Seq::<char>::empty(), None) == s5);
    assert(s5.line.len() == 0);
}

} // verus!
