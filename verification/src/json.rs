//! The JSON values that Quill Delta documents are made of, as the library
//! holds them, with their mathematical model and their compact encoding.
use vstd::prelude::*;

use serde_json::Value;

use crate::text::{chars_of, push_all, str_is, string_of};

verus! {

/// A JSON number, as `serde_json` keeps it: a non-negative integer, a
/// negative integer, or a float (kept as the text `serde_json` prints for it).
#[derive(Debug)]
pub enum JsonNumber {
    PosInt(u64),
    NegInt(i64),
    Float(String),
}

/// A JSON value, with the shape of `serde_json::Value`. Objects keep their
/// entries in order; a key is looked up at its first entry.
#[derive(Debug)]
pub enum JsonValue {
    Null,
    Bool(bool),
    Number(JsonNumber),
    Str(String),
    Array(Vec<JsonValue>),
    Object(Vec<(String, JsonValue)>),
}

/// Mathematical model of `JsonNumber`.
pub enum Num {
    PosInt(u64),
    NegInt(i64),
    Float(Seq<char>),
}

/// Mathematical model of `JsonValue`.
pub enum Json {
    Null,
    Bool(bool),
    Num(Num),
    Str(Seq<char>),
    Arr(Seq<Json>),
    Obj(Seq<(Seq<char>, Json)>),
}

pub open spec fn num_view(n: JsonNumber) -> Num {
    match n {
        JsonNumber::PosInt(u) => Num::PosInt(u),
        JsonNumber::NegInt(i) => Num::NegInt(i),
        JsonNumber::Float(t) => Num::Float(t@),
    }
}

pub open spec fn json_view(v: JsonValue) -> Json
    decreases v,
{
    match v {
        JsonValue::Null => Json::Null,
        JsonValue::Bool(b) => Json::Bool(b),
        JsonValue::Number(n) => Json::Num(num_view(n)),
        JsonValue::Str(s) => Json::Str(s@),
        JsonValue::Array(a) => Json::Arr(seq_view(a@)),
        JsonValue::Object(es) => Json::Obj(entries_view(es@)),
    }
}

pub open spec fn seq_view(s: Seq<JsonValue>) -> Seq<Json>
    decreases s,
{
    if s.len() == 0 {
        Seq::empty()
    } else {
        seq_view(s.drop_last()).push(json_view(s.last()))
    }
}

pub open spec fn entries_view(s: Seq<(String, JsonValue)>) -> Seq<(Seq<char>, Json)>
    decreases s,
{
    if s.len() == 0 {
        Seq::empty()
    } else {
        entries_view(s.drop_last()).push((s.last().0@, json_view(s.last().1)))
    }
}

impl View for JsonValue {
    type V = Json;

    open spec fn view(&self) -> Json {
        json_view(*self)
    }
}

pub open spec fn opt_view(o: Option<&JsonValue>) -> Option<Json> {
    match o {
        Some(v) => Some(json_view(*v)),
        None => None,
    }
}

pub proof fn lemma_seq_view_push(s: Seq<JsonValue>, e: JsonValue)
    ensures
        seq_view(s.push(e)) == seq_view(s).push(json_view(e)),
{
    assert(s.push(e).drop_last() =~= s);
}

pub proof fn lemma_entries_view_push(s: Seq<(String, JsonValue)>, e: (String, JsonValue))
    ensures
        entries_view(s.push(e)) == entries_view(s).push((e.0@, json_view(e.1))),
{
    assert(s.push(e).drop_last() =~= s);
}

pub proof fn lemma_seq_view(s: Seq<JsonValue>)
    ensures
        seq_view(s).len() == s.len(),
        forall|i: int| 0 <= i < s.len() ==> #[trigger] seq_view(s)[i] == json_view(s[i]),
    decreases s.len(),
{
    if s.len() > 0 {
        lemma_seq_view(s.drop_last());
    }
}

pub proof fn lemma_entries_view(s: Seq<(String, JsonValue)>)
    ensures
        entries_view(s).len() == s.len(),
        forall|i: int|
            0 <= i < s.len() ==> #[trigger] entries_view(s)[i] == (s[i].0@, json_view(s[i].1)),
    decreases s.len(),
{
    if s.len() > 0 {
        lemma_entries_view(s.drop_last());
    }
}

// ---------------------------------------------------------------------
// Lookups, as `serde_json::Value::get` and the `as_*` accessors do them.
/// Value of the first entry with key `k`.
pub open spec fn entries_get(es: Seq<(Seq<char>, Json)>, k: Seq<char>) -> Option<Json>
    decreases es.len(),
{
    if es.len() == 0 {
        None
    } else if es[0].0 == k {
        Some(es[0].1)
    } else {
        entries_get(es.drop_first(), k)
    }
}

/// `value.get(k)`: the entry of an object, `None` for anything else.
pub open spec fn get(j: Json, k: Seq<char>) -> Option<Json> {
    match j {
        Json::Obj(es) => entries_get(es, k),
        _ => None,
    }
}

/// The object's entries contain key `k`.
pub open spec fn has_key(es: Seq<(Seq<char>, Json)>, k: Seq<char>) -> bool {
    entries_get(es, k) is Some
}

/// `as_bool() == Some(true)`.
pub open spec fn is_true(j: Option<Json>) -> bool {
    j == Some(Json::Bool(true))
}

/// `as_str()`.
pub open spec fn as_str(j: Option<Json>) -> Option<Seq<char>> {
    match j {
        Some(Json::Str(s)) => Some(s),
        _ => None,
    }
}

/// `as_u64()`.
pub open spec fn as_u64(j: Option<Json>) -> Option<u64> {
    match j {
        Some(Json::Num(Num::PosInt(n))) => Some(n),
        _ => None,
    }
}

pub proof fn lemma_entries_get_index(es: Seq<(Seq<char>, Json)>, k: Seq<char>, i: int)
    requires
        0 <= i < es.len(),
        es[i].0 == k,
        forall|j: int| 0 <= j < i ==> es[j].0 != k,
    ensures
        entries_get(es, k) == Some(es[i].1),
    decreases i,
{
    if i > 0 {
        lemma_entries_get_index(es.drop_first(), k, i - 1);
    }
}

pub proof fn lemma_entries_get_none(es: Seq<(Seq<char>, Json)>, k: Seq<char>)
    requires
        forall|j: int| 0 <= j < es.len() ==> es[j].0 != k,
    ensures
        entries_get(es, k) is None,
    decreases es.len(),
{
    if es.len() > 0 {
        lemma_entries_get_none(es.drop_first(), k);
    }
}

impl JsonValue {
    /// `serde_json::Value::get` with a string key.
    #[verifier::loop_isolation(false)]
    pub fn get(&self, key: &str) -> (r: Option<&JsonValue>)
        ensures
            opt_view(r) == get(self@, key@),
    {
        match self {
            JsonValue::Object(es) => {
                proof {
                    lemma_entries_view(es@);
                }
                let mut i: usize = 0;
                while i < es.len()
                    invariant
                        i <= es@.len(),
                        entries_view(es@).len() == es@.len(),
                        forall|j: int|
                            0 <= j < es@.len() ==> #[trigger] entries_view(es@)[j] == (
                                es@[j].0@,
                                json_view(es@[j].1),
                            ),
                        forall|j: int| 0 <= j < i ==> entries_view(es@)[j].0 != key@,
                    decreases es.len() - i,
                {
                    if str_is(es[i].0.as_str(), key) {
                        proof {
                            assert(entries_view(es@)[i as int] == (es@[i as int].0@, json_view(
                                es@[i as int].1,
                            )));
                            lemma_entries_get_index(entries_view(es@), key@, i as int);
                            assert(self@ == Json::Obj(entries_view(es@)));
                        }
                        return Some(&es[i].1);
                    }
                    assert(entries_view(es@)[i as int].0 != key@);
                    i = i + 1;
                }
                proof {
                    lemma_entries_get_none(entries_view(es@), key@);
                }
                None
            },
            _ => None,
        }
    }

    /// `as_bool() == Some(true)`.
    pub fn is_true(o: Option<&JsonValue>) -> (b: bool)
        ensures
            b == is_true(opt_view(o)),
    {
        match o {
            Some(JsonValue::Bool(b)) => *b,
            _ => false,
        }
    }

    /// `as_str()`.
    pub fn as_str(o: Option<&JsonValue>) -> (r: Option<&String>)
        ensures
            r matches Some(s) ==> as_str(opt_view(o)) == Some(s@),
            r is None ==> as_str(opt_view(o)) is None,
    {
        match o {
            Some(JsonValue::Str(s)) => Some(s),
            _ => None,
        }
    }

    /// `as_u64()`.
    pub fn as_u64(o: Option<&JsonValue>) -> (r: Option<u64>)
        ensures
            r == as_u64(opt_view(o)),
    {
        match o {
            Some(JsonValue::Number(JsonNumber::PosInt(n))) => Some(*n),
            _ => None,
        }
    }

    /// A string value.
    pub fn string(s: &str) -> (r: JsonValue)
        ensures
            r@ == Json::Str(s@),
    {
        JsonValue::Str(string_of(chars_of(s).as_slice()))
    }

    /// A copy of the value.
    #[verifier::loop_isolation(false)]
    pub fn deep_clone(&self) -> (r: JsonValue)
        ensures
            r@ == self@,
        decreases self,
    {
        match self {
            JsonValue::Null => JsonValue::Null,
            JsonValue::Bool(b) => JsonValue::Bool(*b),
            JsonValue::Number(JsonNumber::PosInt(n)) => JsonValue::Number(JsonNumber::PosInt(*n)),
            JsonValue::Number(JsonNumber::NegInt(n)) => JsonValue::Number(JsonNumber::NegInt(*n)),
            JsonValue::Number(JsonNumber::Float(t)) => JsonValue::Number(
                JsonNumber::Float(t.clone()),
            ),
            JsonValue::Str(s) => JsonValue::Str(s.clone()),
            JsonValue::Array(a) => {
                let mut out: Vec<JsonValue> = Vec::new();
                let mut i: usize = 0;
                proof {
                    lemma_seq_view(a@);
                }
                while i < a.len()
                    invariant
                        i <= a@.len(),
                        seq_view(out@) == seq_view(a@).take(i as int),
                        seq_view(a@).len() == a@.len(),
                        forall|j: int| 0 <= j < a@.len() ==> #[trigger] seq_view(a@)[j] == json_view(a@[j]),
                    decreases a.len() - i,
                {
                    assert(decreases_to!(*self => (*self)->Array_0));
                    assert(decreases_to!(*a => a@));
                    assert(decreases_to!(a@ => a@[i as int]));
                    let c = a[i].deep_clone();
                    let ghost prev = out@;
                    out.push(c);
                    assert(out@.drop_last() =~= prev);
                    i = i + 1;
                    assert(seq_view(out@) =~= seq_view(a@).take(i as int));
                }
                assert(seq_view(a@).take(a@.len() as int) =~= seq_view(a@));
                JsonValue::Array(out)
            },
            JsonValue::Object(es) => {
                let mut out: Vec<(String, JsonValue)> = Vec::new();
                let mut i: usize = 0;
                proof {
                    lemma_entries_view(es@);
                }
                while i < es.len()
                    invariant
                        i <= es@.len(),
                        entries_view(out@) == entries_view(es@).take(i as int),
                        entries_view(es@).len() == es@.len(),
                        forall|j: int| 0 <= j < es@.len() ==> #[trigger] entries_view(es@)[j] == (
                            es@[j].0@,
                            json_view(es@[j].1),
                        ),
                    decreases es.len() - i,
                {
                    assert(decreases_to!(*self => (*self)->Object_0));
                    assert(decreases_to!(*es => es@));
                    assert(decreases_to!(es@ => es@[i as int]));
                    assert(decreases_to!(es@[i as int] => es@[i as int].1));
                    let c = es[i].1.deep_clone();
                    let k = es[i].0.clone();
                    let ghost prev = out@;
                    out.push((k, c));
                    assert(out@.drop_last() =~= prev);
                    i = i + 1;
                    assert(entries_view(out@) =~= entries_view(es@).take(i as int));
                }
                assert(entries_view(es@).take(es@.len() as int) =~= entries_view(es@));
                JsonValue::Object(out)
            },
        }
    }
}

// ---------------------------------------------------------------------
// Decimal digits.
/// Decimal digit `d` (`0 <= d < 10`).
pub open spec fn digit(d: int) -> char {
    if d == 0 { '0' } else if d == 1 { '1' } else if d == 2 { '2' } else if d == 3 { '3' }
    else if d == 4 { '4' } else if d == 5 { '5' } else if d == 6 { '6' } else if d == 7 { '7' }
    else if d == 8 { '8' } else { '9' }
}

/// Lowercase hexadecimal digit `d` (`0 <= d < 16`).
pub open spec fn hex_digit(d: int) -> char {
    if d < 10 { digit(d) } else if d == 10 { 'a' } else if d == 11 { 'b' } else if d == 12 { 'c' }
    else if d == 13 { 'd' } else if d == 14 { 'e' } else { 'f' }
}

/// Decimal representation of `n`.
pub open spec fn decimal(n: nat) -> Seq<char>
    decreases n,
{
    if n < 10 {
        seq![digit(n as int)]
    } else {
        decimal(n / 10).push(digit((n % 10) as int))
    }
}

pub fn digit_char(d: u64) -> (c: char)
    requires
        d < 10,
    ensures
        c == digit(d as int),
{
    if d == 0 { '0' } else if d == 1 { '1' } else if d == 2 { '2' } else if d == 3 { '3' }
    else if d == 4 { '4' } else if d == 5 { '5' } else if d == 6 { '6' } else if d == 7 { '7' }
    else if d == 8 { '8' } else { '9' }
}

pub fn hex_char(d: u32) -> (c: char)
    requires
        d < 16,
    ensures
        c == hex_digit(d as int),
{
    if d < 10 { digit_char(d as u64) } else if d == 10 { 'a' } else if d == 11 { 'b' }
    else if d == 12 { 'c' } else if d == 13 { 'd' } else if d == 14 { 'e' } else { 'f' }
}

/// Appends the decimal digits of `n`.
pub fn push_decimal(out: &mut Vec<char>, n: u64)
    ensures
        final(out)@ == old(out)@ + decimal(n as nat),
    decreases n,
{
    if n >= 10 {
        push_decimal(out, n / 10);
    }
    out.push(digit_char(n % 10));
    proof {
        if n >= 10 {
            assert(decimal(n as nat) == decimal((n / 10) as nat).push(digit((n % 10) as int)));
        }
    }
    assert(final(out)@ =~= old(out)@ + decimal(n as nat)) by {
        if n < 10 {
            assert(decimal(n as nat) == seq![digit(n as int)]);
        }
    };
}

// ---------------------------------------------------------------------
// JSON text, read and written by serde_json.
#[verifier::external_type_specification]
#[verifier::external_body]
pub struct ExSerdeValue(Value);

/// What `serde_json::to_string` writes for a value.
pub uninterp spec fn json_text(j: Json) -> Seq<char>;

/// What `serde_json::from_str::<serde_json::Value>` reads from a text:
/// `None` where it refuses the text.
pub uninterp spec fn json_decoded(s: Seq<char>) -> Option<Json>;

/// The value as a `serde_json::Value`, variant for variant (an object's
/// entries go into serde_json's map in order).
#[verifier::external_body]
fn to_serde(v: &JsonValue) -> Value {
    match v {
        JsonValue::Null => Value::Null,
        JsonValue::Bool(b) => Value::Bool(*b),
        JsonValue::Number(JsonNumber::PosInt(n)) => Value::from(*n),
        JsonValue::Number(JsonNumber::NegInt(n)) => Value::from(*n),
        JsonValue::Number(JsonNumber::Float(t)) => serde_json::from_str(t).unwrap_or_default(),
        JsonValue::Str(s) => Value::String(s.clone()),
        JsonValue::Array(a) => Value::Array(a.iter().map(to_serde).collect()),
        JsonValue::Object(es) => Value::Object(
            es.iter().map(|e| (e.0.clone(), to_serde(&e.1))).collect(),
        ),
    }
}

/// A `serde_json::Value` as a `JsonValue`, variant for variant (a number
/// by the first of `as_u64`, `as_i64` or its text that holds it).
#[verifier::external_body]
fn from_serde(v: &Value) -> JsonValue {
    match v {
        Value::Null => JsonValue::Null,
        Value::Bool(b) => JsonValue::Bool(*b),
        Value::Number(n) => JsonValue::Number(match (n.as_u64(), n.as_i64()) {
            (Some(u), _) => JsonNumber::PosInt(u),
            (None, Some(i)) => JsonNumber::NegInt(i),
            (None, None) => JsonNumber::Float(n.to_string()),
        }),
        Value::String(s) => JsonValue::Str(s.clone()),
        Value::Array(a) => JsonValue::Array(a.iter().map(from_serde).collect()),
        Value::Object(m) => JsonValue::Object(
            m.iter().map(|(k, x)| (k.clone(), from_serde(x))).collect(),
        ),
    }
}

/// `serde_json::to_string`: the compact JSON text of a value. Writing a
/// `serde_json::Value` does not fail (its map keys are strings); the
/// contract names the text, a function of the value alone.
#[verifier::external_body]
pub(crate) fn write_json(v: &JsonValue) -> (s: String)
    ensures
        s@ == json_text(v@),
{
    serde_json::to_string(&to_serde(v)).unwrap_or_default()
}

/// `serde_json::from_str::<serde_json::Value>`: the value a JSON text
/// holds, `None` where serde_json refuses the text. The contract names the
/// outcome, a function of the text alone.
#[verifier::external_body]
pub(crate) fn read_json(s: &str) -> (r: Option<JsonValue>)
    ensures
        r matches Some(v) ==> json_decoded(s@) == Some(v@),
        r is None ==> json_decoded(s@) is None,
{
    serde_json::from_str::<Value>(s).ok().map(|v| from_serde(&v))
}

} // verus!
