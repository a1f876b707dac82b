//! Reading JSON documents with serde_json: whether a text parses, and the
//! string found at a path of object keys and array indices.
use vstd::prelude::*;
use crate::text::opt_chars;

verus! {

#[verifier::external_type_specification]
#[verifier::external_body]
pub struct ExJsonValue(serde_json::Value);

/// One step into a JSON value: an object member or an array element.
pub enum JsonStep {
    Key(Seq<char>),
    Index(nat),
}

/// Whether `serde_json::from_str::<serde_json::Value>` accepts `text`.
pub uninterp spec fn json_parses(text: Seq<char>) -> bool;

/// The string that indexing the document `text` along `path` reaches
/// (`value[step]...` with serde_json's `Index`, which gives `Null` for a
/// missing member, an index out of range or a type that does not match,
/// then `Value::as_str`).
pub uninterp spec fn json_str_at(text: Seq<char>, path: Seq<JsonStep>) -> Option<Seq<char>>;

/// The string member `key` of the document `text`.
pub open spec fn json_member_str(text: Seq<char>, key: Seq<char>) -> Option<Seq<char>> {
    json_str_at(text, seq![JsonStep::Key(key)])
}

/// A parsed JSON document, with the text it was parsed from.
pub struct JsonDoc {
    text: String,
    value: serde_json::Value,
}

impl View for JsonDoc {
    type V = Seq<char>;

    closed spec fn view(&self) -> Seq<char> {
        self.text@
    }
}

impl JsonDoc {
    /// `serde_json::from_str::<serde_json::Value>`: `Some` exactly when the
    /// text is JSON.
    #[verifier::external_body]
    pub(crate) fn parse(text: &str) -> (r: Option<JsonDoc>)
        ensures
            r is Some <==> json_parses(text@),
            r matches Some(d) ==> d@ == text@,
    {
        match serde_json::from_str::<serde_json::Value>(text) {
            Ok(value) => Some(JsonDoc { text: text.to_string(), value }),
            Err(_) => None,
        }
    }

    /// `value[key].as_str()`, owned.
    #[verifier::external_body]
    pub(crate) fn member_str(&self, key: &str) -> (r: Option<String>)
        ensures
            opt_chars(r) == json_str_at(self@, seq![JsonStep::Key(key@)]),
    {
        match self.value[key].as_str() {
            Some(s) => Some(s.to_string()),
            None => None,
        }
    }

    /// `value[first][index][second][third].as_str()`, owned.
    #[verifier::external_body]
    pub(crate) fn nested_str(&self, first: &str, index: usize, second: &str, third: &str) -> (r:
        Option<String>)
        ensures
            opt_chars(r) == json_str_at(
                self@,
                seq![
                    JsonStep::Key(first@),
                    JsonStep::Index(index as nat),
                    JsonStep::Key(second@),
                    JsonStep::Key(third@),
                ],
            ),
    {
        match self.value[first][index][second][third].as_str() {
            Some(s) => Some(s.to_string()),
            None => None,
        }
    }
}

} // verus!
