//! Configuration files: what the library reads of a JSON text.

use vstd::prelude::*;

use crate::text::str_eq;

verus! {

/// A JSON value.
pub enum Json {
    Null,
    Bool(bool),
    /// A number: as an unsigned integer, where it is one, and the bits of its
    /// binary64 value.
    Number { unsigned: Option<u64>, binary64: Option<u64> },
    Text(String),
    Array(Vec<Json>),
    Object(Vec<(String, Json)>),
}

/// What a JSON value holds.
pub enum JsonTree {
    Null,
    Bool(bool),
    Number { unsigned: Option<u64>, binary64: Option<u64> },
    Text(Seq<char>),
    Array(Seq<JsonTree>),
    Object(Seq<(Seq<char>, JsonTree)>),
}

impl Json {
    /// What the value holds.
    pub open spec fn tree(&self) -> JsonTree
        decreases self,
    {
        match self {
            Json::Null => JsonTree::Null,
            Json::Bool(b) => JsonTree::Bool(*b),
            Json::Number { unsigned, binary64 } => JsonTree::Number {
                unsigned: *unsigned,
                binary64: *binary64,
            },
            Json::Text(s) => JsonTree::Text(s@),
            Json::Array(items) => JsonTree::Array(
                Seq::new(
                    items@.len(),
                    |i: int|
                        if 0 <= i < items@.len() {
                            items@[i].tree()
                        } else {
                            JsonTree::Null
                        },
                ),
            ),
            Json::Object(fields) => JsonTree::Object(
                Seq::new(
                    fields@.len(),
                    |i: int|
                        if 0 <= i < fields@.len() {
                            (fields@[i].0@, fields@[i].1.tree())
                        } else {
                            (Seq::<char>::empty(), JsonTree::Null)
                        },
                ),
            ),
        }
    }
}

impl View for Json {
    type V = JsonTree;

    open spec fn view(&self) -> JsonTree {
        self.tree()
    }
}

// ── Parsing ──────────────────────────────────────────────────────────

/// `serde_json::Value`, a parsed JSON text.
#[verifier::external_type_specification]
#[verifier::external_body]
pub struct ExValue(serde_json::Value);

/// What `serde_json::from_str` makes of a text: the value that it parses to,
/// or the message of the error.
pub uninterp spec fn parsed(text: Seq<char>) -> Result<JsonTree, Seq<char>>;

/// The same value as a [`Json`]: one variant for each variant of
/// `serde_json::Value`, with what `Number::as_u64` and `Number::as_f64` give
/// for a number, and the entries of an object in the order of its map.
/// Nothing is stated of it on its own.
#[verifier::external_body]
fn from_value(value: serde_json::Value) -> (r: Json) {
    match value {
        serde_json::Value::Null => Json::Null,
        serde_json::Value::Bool(b) => Json::Bool(b),
        serde_json::Value::Number(n) => {
            Json::Number { unsigned: n.as_u64(), binary64: n.as_f64().map(|x| x.to_bits()) }
        },
        serde_json::Value::String(s) => Json::Text(s),
        serde_json::Value::Array(a) => Json::Array(a.into_iter().map(from_value).collect()),
        serde_json::Value::Object(m) => {
            Json::Object(m.into_iter().map(|(key, x)| (key, from_value(x))).collect())
        },
    }
}

/// `serde_json::from_str` on a JSON text. The value, or the text of the error
/// that it displays, depends on the text alone; which value or error that is
/// is left to the parser.
#[verifier::external_body]
fn from_str(text: &str) -> (r: Result<Json, String>)
    ensures
        match r {
            Ok(value) => parsed(text@) == Ok::<JsonTree, Seq<char>>(value@),
            Err(e) => parsed(text@) == Err::<JsonTree, Seq<char>>(e@),
        },
{
    serde_json::from_str::<serde_json::Value>(text).map(from_value).map_err(|e| e.to_string())
}

/// Parse a JSON text, or say what is wrong with it.
pub fn parse(text: &str) -> (r: Result<Json, String>)
    ensures
        match r {
            Ok(value) => parsed(text@) == Ok::<JsonTree, Seq<char>>(value@),
            Err(e) => parsed(text@) == Err::<JsonTree, Seq<char>>(e@),
        },
{
    from_str(text)
}

// ── Lookup ───────────────────────────────────────────────────────────

/// The last field with a name.
pub open spec fn field_named(fields: Seq<(Seq<char>, JsonTree)>, name: Seq<char>) -> Option<
    JsonTree,
>
    decreases fields.len(),
{
    if fields.len() == 0 {
        None
    } else if fields.last().0 == name {
        Some(fields.last().1)
    } else {
        field_named(fields.drop_last(), name)
    }
}

impl JsonTree {
    /// A field of an object; null where there is none.
    pub open spec fn field(self, name: Seq<char>) -> JsonTree {
        match self {
            JsonTree::Object(fields) => match field_named(fields, name) {
                Some(value) => value,
                None => JsonTree::Null,
            },
            _ => JsonTree::Null,
        }
    }

    /// The unsigned integer that a field holds.
    pub open spec fn unsigned(self, name: Seq<char>) -> Option<u64> {
        match self.field(name) {
            JsonTree::Number { unsigned, .. } => unsigned,
            _ => None,
        }
    }

    /// The bits of the number that a field holds.
    pub open spec fn binary64(self, name: Seq<char>) -> Option<u64> {
        match self.field(name) {
            JsonTree::Number { binary64, .. } => binary64,
            _ => None,
        }
    }

    /// The text that a field holds.
    pub open spec fn text(self, name: Seq<char>) -> Option<Seq<char>> {
        match self.field(name) {
            JsonTree::Text(s) => Some(s),
            _ => None,
        }
    }

    /// The size that a field holds, or a default.
    pub open spec fn size_or(self, name: Seq<char>, default: u64) -> usize {
        match self.unsigned(name) {
            Some(n) => n as usize,
            None => default as usize,
        }
    }
}

impl Json {
    /// A field of an object; `None` where the value is no object or has no
    /// such field.
    pub fn get(&self, name: &str) -> (r: Option<&Json>)
        ensures
            match r {
                Some(value) => self@ matches JsonTree::Object(fields) && field_named(fields, name@)
                    == Some(value@),
                None => self@ matches JsonTree::Object(fields) ==> field_named(fields, name@)
                    is None,
            },
    {
        match self {
            Json::Object(fields) => {
                let ghost all = self@->Object_0;
                let n = fields.len();
                assert(all.take(n as int) =~= all);
                for k in 0..n
                    invariant
                        n == fields@.len(),
                        all == self@->Object_0,
                        self@ is Object,
                        *self == Json::Object(*fields),
                        all.len() == n,
                        field_named(all, name@) == field_named(all.take(n - k), name@),
                {
                    let i = n - 1 - k;
                    let ghost head = all.take(n - k);
                    assert(head.last() == (fields@[i as int].0@, fields@[i as int].1@));
                    assert(head.drop_last() =~= all.take(i as int));
                    if str_eq(fields[i].0.as_str(), name) {
                        return Some(&fields[i].1);
                    }
                }
                None
            },
            _ => None,
        }
    }

    /// The unsigned integer that a field holds.
    pub fn unsigned(&self, name: &str) -> (r: Option<u64>)
        ensures
            r == self@.unsigned(name@),
    {
        match self.get(name) {
            Some(Json::Number { unsigned, .. }) => *unsigned,
            _ => None,
        }
    }

    /// The bits of the number that a field holds.
    pub fn binary64(&self, name: &str) -> (r: Option<u64>)
        ensures
            r == self@.binary64(name@),
    {
        match self.get(name) {
            Some(Json::Number { binary64, .. }) => *binary64,
            _ => None,
        }
    }

    /// The text that a field holds.
    pub fn text(&self, name: &str) -> (r: Option<&str>)
        ensures
            match r {
                Some(s) => self@.text(name@) == Some(s@),
                None => self@.text(name@) is None,
            },
    {
        match self.get(name) {
            Some(Json::Text(s)) => Some(s.as_str()),
            _ => None,
        }
    }

    /// The size that a field holds, or a default.
    pub fn size_or(&self, name: &str, default: u64) -> (r: usize)
        ensures
            r == self@.size_or(name@, default),
    {
        match self.unsigned(name) {
            Some(n) => n as usize,
            None => default as usize,
        }
    }
}

} // verus!
