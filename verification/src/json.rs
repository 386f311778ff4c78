//! The payload of an object: a JSON document the board keeps and hands back
//! without looking inside it.
use vstd::prelude::*;

verus! {

/// A JSON document. Numbers keep the text they were written with.
#[derive(Debug, PartialEq)]
pub enum JsonValue {
    Null,
    Bool(bool),
    Number(String),
    Text(String),
    Array(Vec<JsonValue>),
    Object(Vec<(String, JsonValue)>),
}

/// A JSON document with its strings as character sequences.
pub enum JsonView {
    Null,
    Bool(bool),
    Number(Seq<char>),
    Text(Seq<char>),
    Array(Seq<JsonView>),
    Object(Seq<(Seq<char>, JsonView)>),
}

pub open spec fn json_view(v: JsonValue) -> JsonView
    decreases v, 1nat,
{
    match v {
        JsonValue::Null => JsonView::Null,
        JsonValue::Bool(b) => JsonView::Bool(b),
        JsonValue::Number(n) => JsonView::Number(n@),
        JsonValue::Text(t) => JsonView::Text(t@),
        JsonValue::Array(items) => JsonView::Array(json_view_items(items@)),
        JsonValue::Object(fields) => JsonView::Object(json_view_fields(fields@)),
    }
}

pub open spec fn json_view_items(s: Seq<JsonValue>) -> Seq<JsonView>
    decreases s, 0nat,
{
    if s.len() == 0 {
        Seq::empty()
    } else {
        json_view_items(s.subrange(0, s.len() - 1)).push(json_view(s[s.len() - 1]))
    }
}

pub open spec fn json_view_fields(s: Seq<(String, JsonValue)>) -> Seq<(Seq<char>, JsonView)>
    decreases s, 0nat,
{
    if s.len() == 0 {
        Seq::empty()
    } else {
        json_view_fields(s.subrange(0, s.len() - 1)).push(
            (s[s.len() - 1].0@, json_view(s[s.len() - 1].1)),
        )
    }
}

impl View for JsonValue {
    type V = JsonView;

    open spec fn view(&self) -> JsonView {
        json_view(*self)
    }
}

/// A JSON string value.
pub fn text_value(s: &str) -> (r: JsonValue)
    ensures
        r@ == JsonView::Text(s@),
{
    JsonValue::Text(crate::text::owned(s))
}

/// Appends the member `key: value` to the members of an object being built.
pub fn push_field(fields: &mut Vec<(String, JsonValue)>, key: &str, value: JsonValue)
    ensures
        json_view_fields(final(fields)@) == json_view_fields(old(fields)@).push((key@, value@)),
{
    let k = crate::text::owned(key);
    let ghost before = fields@;
    fields.push((k, value));
    assert(fields@.subrange(0, fields@.len() - 1) =~= before);
}

impl JsonValue {
    /// An empty JSON object, `{}`.
    pub fn empty_object() -> (r: JsonValue)
        ensures
            r@ == JsonView::Object(Seq::empty()),
    {
        JsonValue::Object(Vec::new())
    }

    /// A copy of the document.
    pub fn duplicate(&self) -> (r: JsonValue)
        ensures
            r@ == self@,
        decreases self,
    {
        match self {
            JsonValue::Null => JsonValue::Null,
            JsonValue::Bool(b) => JsonValue::Bool(*b),
            JsonValue::Number(n) => JsonValue::Number(n.clone()),
            JsonValue::Text(t) => JsonValue::Text(t.clone()),
            JsonValue::Array(items) => {
                let mut out: Vec<JsonValue> = Vec::new();
                let mut i: usize = 0;
                while i < items.len()
                    invariant
                        *self == JsonValue::Array(*items),
                        i <= items.len(),
                        json_view_items(out@) == json_view_items(items@.subrange(0, i as int)),
                    decreases items.len() - i,
                {
                    proof {
                        assert((*self)->Array_0 == *items);
                        assert(decreases_to!(*self => (*self)->Array_0));
                        assert(decreases_to!(*items => items@));
                        assert(decreases_to!(items@ => items@[i as int]));
                        assert(decreases_to!(*self => items@[i as int]));
                    }
                    let x = items[i].duplicate();
                    let ghost old_out = out@;
                    out.push(x);
                    proof {
                        assert(out@.subrange(0, out@.len() - 1) =~= old_out);
                        let pre = items@.subrange(0, i + 1);
                        assert(pre.subrange(0, pre.len() - 1) =~= items@.subrange(0, i as int));
                    }
                    i = i + 1;
                }
                assert(items@.subrange(0, items@.len() as int) =~= items@);
                JsonValue::Array(out)
            },
            JsonValue::Object(fields) => {
                let mut out: Vec<(String, JsonValue)> = Vec::new();
                let mut i: usize = 0;
                while i < fields.len()
                    invariant
                        *self == JsonValue::Object(*fields),
                        i <= fields.len(),
                        json_view_fields(out@) == json_view_fields(fields@.subrange(0, i as int)),
                    decreases fields.len() - i,
                {
                    proof {
                        assert((*self)->Object_0 == *fields);
                        assert(decreases_to!(*self => (*self)->Object_0));
                        assert(decreases_to!(*fields => fields@));
                        assert(decreases_to!(fields@ => fields@[i as int]));
                        assert(decreases_to!(fields@[i as int] => fields@[i as int].1));
                        assert(decreases_to!(*self => fields@[i as int].1));
                    }
                    let k = fields[i].0.clone();
                    let x = fields[i].1.duplicate();
                    let ghost old_out = out@;
                    out.push((k, x));
                    proof {
                        assert(out@.subrange(0, out@.len() - 1) =~= old_out);
                        let pre = fields@.subrange(0, i + 1);
                        assert(pre.subrange(0, pre.len() - 1) =~= fields@.subrange(0, i as int));
                    }
                    i = i + 1;
                }
                assert(fields@.subrange(0, fields@.len() as int) =~= fields@);
                JsonValue::Object(out)
            },
        }
    }
}

} // verus!
