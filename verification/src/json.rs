//! JSON documents as trees.

use serde_json::Value;
use vstd::prelude::*;

use crate::binary64::B64;
use crate::text::{copy_text, same_text};

verus! {

/// A JSON document. The fields of an object stand in iteration order.
#[derive(Debug)]
pub enum Json {
    Null,
    Bool(bool),
    PosInt(u64),
    NegInt(i64),
    Float(B64),
    Str(String),
    Arr(Vec<Json>),
    Obj(Vec<(String, Json)>),
}

/// What a document holds.
pub enum JsonView {
    Null,
    Bool(bool),
    PosInt(u64),
    NegInt(i64),
    Float(B64),
    Str(Seq<char>),
    Arr(Seq<JsonView>),
    Obj(Seq<(Seq<char>, JsonView)>),
}

pub open spec fn json_view(j: Json) -> JsonView
    decreases j,
{
    match j {
        Json::Null => JsonView::Null,
        Json::Bool(b) => JsonView::Bool(b),
        Json::PosInt(n) => JsonView::PosInt(n),
        Json::NegInt(n) => JsonView::NegInt(n),
        Json::Float(x) => JsonView::Float(x),
        Json::Str(s) => JsonView::Str(s@),
        Json::Arr(items) => JsonView::Arr(
            Seq::new(
                items@.len(),
                |i: int|
                    if 0 <= i < items@.len() {
                        json_view(items@[i])
                    } else {
                        JsonView::Null
                    },
            ),
        ),
        Json::Obj(fields) => JsonView::Obj(
            Seq::new(
                fields@.len(),
                |i: int|
                    if 0 <= i < fields@.len() {
                        (fields@[i].0@, json_view(fields@[i].1))
                    } else {
                        (Seq::empty(), JsonView::Null)
                    },
            ),
        ),
    }
}

impl View for Json {
    type V = JsonView;

    open spec fn view(&self) -> JsonView {
        json_view(*self)
    }
}

impl Clone for Json {
    fn clone(&self) -> (r: Json)
        ensures
            r@ == self@,
        decreases *self,
    {
        match self {
            Json::Null => Json::Null,
            Json::Bool(b) => Json::Bool(*b),
            Json::PosInt(n) => Json::PosInt(*n),
            Json::NegInt(n) => Json::NegInt(*n),
            Json::Float(x) => Json::Float(*x),
            Json::Str(s) => Json::Str(copy_text(s.as_str())),
            Json::Arr(items) => {
                let mut copies: Vec<Json> = Vec::new();
                let mut i: usize = 0;
                while i < items.len()
                    invariant
                        i <= items.len(),
                        copies.len() == i,
                        *self == Json::Arr(*items),
                        forall|k: int| 0 <= k < i ==> (#[trigger] copies@[k])@ == items@[k]@,
                    decreases items.len() - i,
                {
                    assert(decreases_to!(*self => self->Arr_0));
                    assert(decreases_to!(self->Arr_0 => items@[i as int]));
                    copies.push(items[i].clone());
                    i = i + 1;
                }
                let r = Json::Arr(copies);
                assert(r@->Arr_0 =~= self@->Arr_0);
                r
            },
            Json::Obj(fields) => {
                let mut copies: Vec<(String, Json)> = Vec::new();
                let mut i: usize = 0;
                while i < fields.len()
                    invariant
                        i <= fields.len(),
                        copies.len() == i,
                        *self == Json::Obj(*fields),
                        forall|k: int|
                            0 <= k < i ==> (#[trigger] copies@[k]).0@ == fields@[k].0@ && copies@[k].1@
                                == fields@[k].1@,
                    decreases fields.len() - i,
                {
                    assert(decreases_to!(*self => self->Obj_0));
                    assert(decreases_to!(self->Obj_0 => fields@[i as int]));
                    assert(decreases_to!(fields@[i as int] => fields@[i as int].1));
                    copies.push((copy_text(fields[i].0.as_str()), fields[i].1.clone()));
                    i = i + 1;
                }
                let r = Json::Obj(copies);
                assert(r@->Obj_0 =~= self@->Obj_0);
                r
            },
        }
    }
}

#[verifier::external_type_specification]
#[verifier::external_body]
pub struct ExValue(serde_json::Value);

/// The document that a parsed value stands for.
pub uninterp spec fn value_contents(value: serde_json::Value) -> JsonView;

/// The document that a text parses to, where it is one.
pub uninterp spec fn parsed_json(text: Seq<char>) -> Option<JsonView>;

/// `serde_json::from_str`: the value of a text that is a JSON document, no
/// value for any other text.
#[verifier::external_body]
fn read_value(text: &str) -> (r: Option<serde_json::Value>)
    ensures
        parsed_json(text@) == (match r {
            Some(v) => Some(value_contents(v)),
            None => None::<JsonView>,
        }),
{
    serde_json::from_str(text).ok()
}

/// The tree of a `serde_json::Value`, variant by variant; the fields of an
/// object in the order in which its map iterates.
#[verifier::external_body]
pub(crate) fn tree_of(value: &Value) -> (r: Json)
    ensures
        r@ == value_contents(*value),
{
    match value {
        Value::Null => Json::Null,
        Value::Bool(b) => Json::Bool(*b),
        Value::Number(n) => match (n.as_u64(), n.as_i64()) {
            (Some(u), _) => Json::PosInt(u),
            (_, Some(i)) => Json::NegInt(i),
            _ => Json::Float(B64 { bits: n.as_f64().unwrap_or_default().to_bits() }),
        },
        Value::String(s) => Json::Str(s.clone()),
        Value::Array(items) => Json::Arr(items.iter().map(tree_of).collect()),
        Value::Object(map) => Json::Obj(map.iter().map(|(k, v)| (k.clone(), tree_of(v))).collect()),
    }
}

/// The text of a document without white space around its parts.
pub uninterp spec fn rendered_json(document: JsonView) -> Seq<char>;

/// `serde_json::Value::to_string`: the value as compact JSON text, which what
/// the value holds determines.
#[verifier::external_body]
pub(crate) fn render(value: &Value) -> (r: String)
    ensures
        r@ == rendered_json(value_contents(*value)),
{
    value.to_string()
}

/// The value of the first field with the given key.
pub open spec fn field_of(fields: Seq<(Seq<char>, JsonView)>, key: Seq<char>) -> Option<JsonView>
    decreases fields.len(),
{
    if fields.len() == 0 {
        None
    } else if fields.first().0 == key {
        Some(fields.first().1)
    } else {
        field_of(fields.drop_first(), key)
    }
}

impl JsonView {
    /// A field of an object; other documents have none.
    pub open spec fn get(self, key: Seq<char>) -> Option<JsonView> {
        match self {
            JsonView::Obj(fields) => field_of(fields, key),
            _ => None,
        }
    }

    pub open spec fn has(self, key: Seq<char>) -> bool {
        self.get(key) is Some
    }

    pub open spec fn text(self) -> Option<Seq<char>> {
        match self {
            JsonView::Str(s) => Some(s),
            _ => None,
        }
    }

    pub open spec fn items(self) -> Option<Seq<JsonView>> {
        match self {
            JsonView::Arr(items) => Some(items),
            _ => None,
        }
    }

    pub open spec fn flag(self) -> Option<bool> {
        match self {
            JsonView::Bool(b) => Some(b),
            _ => None,
        }
    }

    /// The nearest binary64 number of any number.
    pub open spec fn number(self) -> Option<B64> {
        match self {
            JsonView::PosInt(n) => Some(B64::from_u64(n)),
            JsonView::NegInt(n) => Some(B64::from_i64(n)),
            JsonView::Float(x) => Some(x),
            _ => None,
        }
    }
}

impl Json {
    /// Reads a document; nothing where the text is none.
    pub fn parse(text: &str) -> (r: Option<Json>)
        ensures
            parsed_json(text@) == (match r {
                Some(j) => Some(j@),
                None => None::<JsonView>,
            }),
    {
        match read_value(text) {
            Some(value) => Some(tree_of(&value)),
            None => None,
        }
    }

    /// The tree of a parsed value.
    pub fn of(value: &Value) -> (r: Json)
        ensures
            r@ == value_contents(*value),
    {
        tree_of(value)
    }

    /// A field of an object.
    pub fn get(&self, key: &str) -> (r: Option<&Json>)
        ensures
            match r {
                Some(j) => self@.get(key@) == Some(j@),
                None => self@.get(key@) is None,
            },
    {
        match self {
            Json::Obj(fields) => {
                let ghost all = self@->Obj_0;
                let mut i: usize = 0;
                assert(all.skip(0) == all);
                while i < fields.len()
                    invariant
                        i <= fields.len(),
                        self@ == JsonView::Obj(all),
                        all.len() == fields.len(),
                        forall|k: int|
                            0 <= k < all.len() ==> #[trigger] all[k] == (fields@[k].0@, fields@[k].1@),
                        field_of(all, key@) == field_of(all.skip(i as int), key@),
                    decreases fields.len() - i,
                {
                    assert(all.skip(i as int).first() == all[i as int]);
                    assert(all.skip(i as int).drop_first() == all.skip(i as int + 1));
                    if same_text(fields[i].0.as_str(), key) {
                        return Some(&fields[i].1);
                    }
                    i = i + 1;
                }
                None
            },
            _ => None,
        }
    }

    /// Whether an object has a field.
    pub fn has(&self, key: &str) -> (r: bool)
        ensures
            r == self@.has(key@),
    {
        self.get(key).is_some()
    }

    /// The text of a string.
    pub fn as_str(&self) -> (r: Option<&str>)
        ensures
            match r {
                Some(s) => self@.text() == Some(s@),
                None => self@.text() is None,
            },
    {
        match self {
            Json::Str(s) => Some(s.as_str()),
            _ => None,
        }
    }

    /// The items of an array.
    pub fn as_array(&self) -> (r: Option<&Vec<Json>>)
        ensures
            match r {
                Some(v) => {
                    &&& self@.items() is Some
                    &&& self@.items()->0.len() == v@.len()
                    &&& forall|i: int| 0 <= i < v@.len() ==> #[trigger] v@[i]@ == self@.items()->0[i]
                },
                None => self@.items() is None,
            },
    {
        match self {
            Json::Arr(items) => Some(items),
            _ => None,
        }
    }

    /// The value of a boolean.
    pub fn as_bool(&self) -> (r: Option<bool>)
        ensures
            r == self@.flag(),
    {
        match self {
            Json::Bool(b) => Some(*b),
            _ => None,
        }
    }

    /// The nearest binary64 number of a number.
    pub fn as_number(&self) -> (r: Option<B64>)
        ensures
            r == self@.number(),
    {
        match self {
            Json::PosInt(n) => Some(B64::from_u64(*n)),
            Json::NegInt(n) => Some(B64::from_i64(*n)),
            Json::Float(x) => Some(*x),
            _ => None,
        }
    }

    pub fn is_object(&self) -> (r: bool)
        ensures
            r == (self@ is Obj),
    {
        match self {
            Json::Obj(_) => true,
            _ => false,
        }
    }
}

} // verus!
