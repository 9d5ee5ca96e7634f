//! Raw JSON documents.
//!
//! The schema and the config both arrive as JSON text.  `JsonValue` is the
//! library's own form of a parsed JSON document: the decoders in the rest of
//! the crate work on it, so that everything past the raw parse is verified.
//! Numbers that fit `i64` are kept as integers; any other number keeps its
//! decimal text.

use vstd::prelude::*;

verus! {

/// A parsed JSON document.
#[derive(Debug)]
pub enum JsonValue {
    Null,
    Bool(bool),
    /// A number representable as `i64`.
    Int(i64),
    /// Any other number, kept as its decimal text.
    Num(String),
    Str(String),
    Arr(Vec<JsonValue>),
    Obj(Vec<(String, JsonValue)>),
}

/// The mathematical form of a `JsonValue`.
pub enum JsonValueView {
    Null,
    Bool(bool),
    Int(i64),
    Num(Seq<char>),
    Str(Seq<char>),
    Arr(Seq<JsonValueView>),
    Obj(Seq<(Seq<char>, JsonValueView)>),
}

pub open spec fn json_view(j: JsonValue) -> JsonValueView
    decreases j,
{
    match j {
        JsonValue::Null => JsonValueView::Null,
        JsonValue::Bool(b) => JsonValueView::Bool(b),
        JsonValue::Int(i) => JsonValueView::Int(i),
        JsonValue::Num(s) => JsonValueView::Num(s@),
        JsonValue::Str(s) => JsonValueView::Str(s@),
        JsonValue::Arr(items) => JsonValueView::Arr(json_seq_view(items@)),
        JsonValue::Obj(entries) => JsonValueView::Obj(json_entries_view(entries@)),
    }
}

pub open spec fn json_seq_view(s: Seq<JsonValue>) -> Seq<JsonValueView>
    decreases s,
{
    if s.len() == 0 {
        Seq::empty()
    } else {
        seq![json_view(s[0])] + json_seq_view(s.drop_first())
    }
}

pub open spec fn json_entries_view(s: Seq<(String, JsonValue)>) -> Seq<(Seq<char>, JsonValueView)>
    decreases s,
{
    if s.len() == 0 {
        Seq::empty()
    } else {
        seq![(s[0].0@, json_view(s[0].1))] + json_entries_view(s.drop_first())
    }
}

impl View for JsonValue {
    type V = JsonValueView;

    open spec fn view(&self) -> JsonValueView {
        json_view(*self)
    }
}

pub proof fn lemma_json_seq_view(s: Seq<JsonValue>)
    ensures
        json_seq_view(s).len() == s.len(),
        forall|i: int| 0 <= i < s.len() ==> json_seq_view(s)[i] == json_view(#[trigger] s[i]),
    decreases s,
{
    if s.len() > 0 {
        lemma_json_seq_view(s.drop_first());
        assert forall|i: int| 0 <= i < s.len() implies json_seq_view(s)[i] == json_view(
            #[trigger] s[i],
        ) by {
            if i > 0 {
                assert(s.drop_first()[i - 1] == s[i]);
            }
        }
    }
}

pub proof fn lemma_json_entries_view(s: Seq<(String, JsonValue)>)
    ensures
        json_entries_view(s).len() == s.len(),
        forall|i: int|
            0 <= i < s.len() ==> json_entries_view(s)[i] == ((#[trigger] s[i]).0@, json_view(
                s[i].1,
            )),
    decreases s,
{
    if s.len() > 0 {
        lemma_json_entries_view(s.drop_first());
        assert forall|i: int| 0 <= i < s.len() implies json_entries_view(s)[i] == ((
        #[trigger] s[i]).0@, json_view(s[i].1)) by {
            if i > 0 {
                assert(s.drop_first()[i - 1] == s[i]);
            }
        }
    }
}

impl JsonValue {
    /// A copy holding the same document.
    pub fn deep_clone(&self) -> (r: JsonValue)
        ensures
            r@ == self@,
        decreases self@,
    {
        match self {
            JsonValue::Null => JsonValue::Null,
            JsonValue::Bool(b) => JsonValue::Bool(*b),
            JsonValue::Int(i) => JsonValue::Int(*i),
            JsonValue::Num(s) => JsonValue::Num(s.clone()),
            JsonValue::Str(s) => JsonValue::Str(s.clone()),
            JsonValue::Arr(items) => {
                proof {
                    assert(decreases_to!(self@ => self@->Arr_0));
                }
                JsonValue::Arr(clone_json_list(items))
            },
            JsonValue::Obj(entries) => {
                proof {
                    assert(decreases_to!(self@ => self@->Obj_0));
                }
                JsonValue::Obj(clone_json_entries(entries))
            },
        }
    }
}

fn clone_json_list(v: &Vec<JsonValue>) -> (r: Vec<JsonValue>)
    ensures
        json_seq_view(r@) == json_seq_view(v@),
    decreases json_seq_view(v@),
{
    let mut out: Vec<JsonValue> = Vec::new();
    let mut i: usize = 0;
    while i < v.len()
        invariant
            i <= v@.len(),
            out@.len() == i,
            forall|j: int| 0 <= j < i ==> json_view(#[trigger] out@[j]) == json_view(v@[j]),
        decreases v@.len() - i,
    {
        proof {
            lemma_json_seq_view(v@);
            assert(decreases_to!(json_seq_view(v@) => json_seq_view(v@)[i as int]));
        }
        let c = v[i].deep_clone();
        out.push(c);
        i = i + 1;
    }
    proof {
        lemma_json_seq_view(v@);
        lemma_json_seq_view(out@);
        assert forall|j: int| 0 <= j < v@.len() implies json_seq_view(out@)[j] == json_seq_view(
            v@,
        )[j] by {
            assert(json_view(out@[j]) == json_view(v@[j]));
        }
        assert(json_seq_view(out@) =~= json_seq_view(v@));
    }
    out
}

fn clone_json_entries(v: &Vec<(String, JsonValue)>) -> (r: Vec<(String, JsonValue)>)
    ensures
        json_entries_view(r@) == json_entries_view(v@),
    decreases json_entries_view(v@),
{
    let mut out: Vec<(String, JsonValue)> = Vec::new();
    let mut i: usize = 0;
    while i < v.len()
        invariant
            i <= v@.len(),
            out@.len() == i,
            forall|j: int|
                0 <= j < i ==> (#[trigger] out@[j]).0@ == v@[j].0@ && json_view(out@[j].1)
                    == json_view(v@[j].1),
        decreases v@.len() - i,
    {
        proof {
            lemma_json_entries_view(v@);
            assert(decreases_to!(json_entries_view(v@) => json_entries_view(v@)[i as int]));
            assert(decreases_to!(json_entries_view(v@)[i as int] => json_entries_view(
                v@,
            )[i as int].1));
        }
        let k = v[i].0.clone();
        let c = v[i].1.deep_clone();
        out.push((k, c));
        i = i + 1;
    }
    proof {
        lemma_json_entries_view(v@);
        lemma_json_entries_view(out@);
        assert forall|j: int| 0 <= j < v@.len() implies json_entries_view(out@)[j]
            == json_entries_view(v@)[j] by {
            assert(out@[j].0@ == v@[j].0@ && json_view(out@[j].1) == json_view(v@[j].1));
        }
        assert(json_entries_view(out@) =~= json_entries_view(v@));
    }
    out
}

#[verifier::external_type_specification]
#[verifier::external_body]
pub struct ExSerdeJsonError(serde_json::Error);

#[verifier::external_type_specification]
#[verifier::external_body]
pub struct ExSerdeJsonValue(serde_json::Value);

/// Names the result of parsing a byte sequence as JSON: `None` where the
/// bytes are not a well-formed JSON document, and otherwise the document in
/// the library's raw form.  Parsing is a function of the bytes alone.
pub uninterp spec fn parsed_json(bytes: Seq<u8>) -> Option<JsonValueView>;

/// Relies on serde_json::from_slice to parse raw bytes into a JSON document.
/// `raw_of_serde` carries the parsed document over into the library's raw
/// form, node by node.
#[verifier::external_body]
pub(crate) fn parse_json(bytes: &[u8]) -> (r: Result<JsonValue, serde_json::Error>)
    ensures
        r matches Ok(j) ==> parsed_json(bytes@) == Some(j@),
        r is Err <==> parsed_json(bytes@) is None,
{
    serde_json::from_slice::<serde_json::Value>(bytes).map(raw_of_serde)
}

/// Relies on the shape of serde_json::Value alone: each arm moves the
/// matching JSON node into the library's raw form.  A number that fits `i64`
/// becomes `Int`; any other number keeps its decimal text.
#[verifier::external_body]
fn raw_of_serde(v: serde_json::Value) -> JsonValue {
    match v {
        serde_json::Value::Null => JsonValue::Null,
        serde_json::Value::Bool(b) => JsonValue::Bool(b),
        serde_json::Value::Number(n) => match n.as_i64() {
            Some(i) => JsonValue::Int(i),
            None => JsonValue::Num(n.to_string()),
        },
        serde_json::Value::String(s) => JsonValue::Str(s),
        serde_json::Value::Array(a) => JsonValue::Arr(a.into_iter().map(raw_of_serde).collect()),
        serde_json::Value::Object(m) => JsonValue::Obj(
            m.into_iter().map(|(k, w)| (k, raw_of_serde(w))).collect(),
        ),
    }
}

} // verus!
