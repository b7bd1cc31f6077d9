//! JSON documents.

use crate::decimal::parsed_decimal;
use crate::decimal::Decimal;
use crate::text::parse_int;
use crate::text::parsed_int;
use crate::text::same_text;
use vstd::prelude::*;

verus! {

/// A number: its text, and its value where it is a whole number that fits.
#[derive(Debug, PartialEq, Eq)]
pub struct JsonNumber {
    pub text: String,
    pub whole: Option<i64>,
}

/// A JSON value.
#[derive(Debug, PartialEq, Eq)]
pub enum Json {
    Null,
    Bool(bool),
    Number(JsonNumber),
    Text(String),
    Array(Vec<Json>),
    Object(Vec<(String, Json)>),
}

/// The content of a [`Json`].
pub enum JsonView {
    Null,
    Bool(bool),
    Number(Seq<char>, Option<i64>),
    Text(Seq<char>),
    Array(Seq<JsonView>),
    Object(Seq<(Seq<char>, JsonView)>),
}

/// The content of a value.
pub open spec fn json_view(json: Json) -> JsonView
    decreases json,
{
    match json {
        Json::Null => JsonView::Null,
        Json::Bool(b) => JsonView::Bool(b),
        Json::Number(n) => JsonView::Number(n.text@, n.whole),
        Json::Text(t) => JsonView::Text(t@),
        Json::Array(items) => JsonView::Array(
            Seq::new(
                items@.len(),
                |i: int|
                    if 0 <= i < items@.len() {
                        json_view(items@[i])
                    } else {
                        JsonView::Null
                    },
            ),
        ),
        Json::Object(fields) => JsonView::Object(
            Seq::new(
                fields@.len(),
                |i: int|
                    if 0 <= i < fields@.len() {
                        (fields@[i].0@, json_view(fields@[i].1))
                    } else {
                        (Seq::empty(), JsonView::Null)
                    },
            ),
        ),
    }
}

impl View for Json {
    type V = JsonView;

    open spec fn view(&self) -> JsonView {
        json_view(*self)
    }
}

// ---------------------------------------------------------------------------
// Reading
// ---------------------------------------------------------------------------

/// `serde_json::Value`, as it comes out of `serde_json`.
#[verifier::external_type_specification]
#[verifier::external_body]
pub struct ExValue(serde_json::Value);

/// What `serde_json` reads a text as: `None` is its error.
pub uninterp spec fn parsed_json(raw: Seq<char>) -> Option<JsonView>;

/// `serde_json::from_str` into a `serde_json::Value`.
///
/// Claimed of it: it is a function of the text. Which texts it accepts, and what
/// it makes of them, is not stated.
#[verifier::external_body]
pub(crate) fn parse_json(raw: &str) -> (r: Option<Json>)
    ensures
        match r {
            Some(json) => parsed_json(raw@) == Some(json@),
            None => parsed_json(raw@) is None,
        },
{
    match serde_json::from_str::<serde_json::Value>(raw) {
        Ok(value) => Some(json_of(value)),
        Err(_) => None,
    }
}

/// A `serde_json::Value` as a [`Json`], variant for variant; a number with the
/// text of its `Display` and what its `as_i64` gives.
#[verifier::external_body]
fn json_of(value: serde_json::Value) -> (r: Json) {
    match value {
        serde_json::Value::Null => Json::Null,
        serde_json::Value::Bool(b) => Json::Bool(b),
        serde_json::Value::Number(n) => {
            Json::Number(JsonNumber { text: n.to_string(), whole: n.as_i64() })
        },
        serde_json::Value::String(text) => Json::Text(text),
        serde_json::Value::Array(items) => Json::Array(items.into_iter().map(json_of).collect()),
        serde_json::Value::Object(fields) => {
            Json::Object(fields.into_iter().map(|(name, value)| (name, json_of(value))).collect())
        },
    }
}

/// A text as a JSON string, with what `serde_json` escapes escaped.
pub uninterp spec fn quoted_text(text: Seq<char>) -> Seq<char>;

/// The `Display` of a `serde_json::Value::String`: the text between quotation
/// marks, escaped. It is a function of the text; which characters are escaped
/// and how is not stated.
#[verifier::external_body]
pub(crate) fn quote(text: &str) -> (r: String)
    ensures
        r@ == quoted_text(text@),
{
    serde_json::Value::from(text).to_string()
}

// ---------------------------------------------------------------------------
// Looking into a value
// ---------------------------------------------------------------------------

/// The first field with a name.
pub open spec fn field_named(fields: Seq<(Seq<char>, JsonView)>, name: Seq<char>) -> Option<JsonView>
    decreases fields.len(),
{
    if fields.len() == 0 {
        None
    } else if fields[0].0 == name {
        Some(fields[0].1)
    } else {
        field_named(fields.drop_first(), name)
    }
}

impl JsonView {
    /// The field of an object; nothing of any other value.
    pub open spec fn field(self, name: Seq<char>) -> Option<JsonView> {
        match self {
            JsonView::Object(fields) => field_named(fields, name),
            _ => None,
        }
    }

    /// The field under the first of two names that there is.
    pub open spec fn field2(self, a: Seq<char>, b: Seq<char>) -> Option<JsonView> {
        match self.field(a) {
            Some(found) => Some(found),
            None => self.field(b),
        }
    }

    /// The field under the first of three names that there is.
    pub open spec fn field3(self, a: Seq<char>, b: Seq<char>, c: Seq<char>) -> Option<JsonView> {
        match self.field2(a, b) {
            Some(found) => Some(found),
            None => self.field(c),
        }
    }

    /// The field under the first of four names that there is.
    pub open spec fn field4(
        self,
        a: Seq<char>,
        b: Seq<char>,
        c: Seq<char>,
        d: Seq<char>,
    ) -> Option<JsonView> {
        match self.field3(a, b, c) {
            Some(found) => Some(found),
            None => self.field(d),
        }
    }
}

/// The items of an array.
pub open spec fn array_in(json: Option<JsonView>) -> Option<Seq<JsonView>> {
    match json {
        Some(JsonView::Array(items)) => Some(items),
        _ => None,
    }
}

/// The truth value of a Boolean.
pub open spec fn bool_in(json: Option<JsonView>) -> Option<bool> {
    match json {
        Some(JsonView::Bool(b)) => Some(b),
        _ => None,
    }
}

/// The value of a whole number that fits.
pub open spec fn int_in(json: Option<JsonView>) -> Option<i64> {
    match json {
        Some(JsonView::Number(_, whole)) => whole,
        _ => None,
    }
}

/// The text of a string.
pub open spec fn str_in(json: Option<JsonView>) -> Option<Seq<char>> {
    match json {
        Some(JsonView::Text(text)) => Some(text),
        _ => None,
    }
}

/// The text of a string or of a number.
pub open spec fn text_in(json: Option<JsonView>) -> Option<Seq<char>> {
    match json {
        Some(JsonView::Text(text)) => Some(text),
        Some(JsonView::Number(text, _)) => Some(text),
        _ => None,
    }
}

/// The decimal that a string or a number stands for.
pub open spec fn decimal_in(json: Option<JsonView>) -> Option<Decimal> {
    match text_in(json) {
        Some(text) => parsed_decimal(text),
        None => None,
    }
}

/// The value of a whole number, or the integer that a string stands for.
pub open spec fn lenient_int_in(json: Option<JsonView>) -> Option<i64> {
    match int_in(json) {
        Some(n) => Some(n),
        None => match str_in(json) {
            Some(text) => parsed_int(text),
            None => None,
        },
    }
}

/// The content of a value that may be missing.
pub open spec fn view_in(json: Option<&Json>) -> Option<JsonView> {
    match json {
        Some(value) => Some(value@),
        None => None,
    }
}

impl Json {
    /// The field of an object.
    pub fn get(&self, name: &str) -> (r: Option<&Json>)
        ensures
            view_in(r) == self@.field(name@),
    {
        match self {
            Json::Object(fields) => {
                let ghost views = self@->Object_0;
                assert(views.skip(0) =~= views);
                let mut i: usize = 0;
                while i < fields.len()
                    invariant
                        i <= fields@.len(),
                        self@ == JsonView::Object(views),
                        views.len() == fields@.len(),
                        forall|j: int|
                            0 <= j < fields@.len() ==> #[trigger] views[j] == (
                                fields@[j].0@,
                                json_view(fields@[j].1),
                            ),
                        field_named(views, name@) == field_named(views.skip(i as int), name@),
                    decreases fields@.len() - i,
                {
                    assert(views.skip(i as int)[0] == views[i as int]);
                    assert(views.skip(i as int).drop_first() =~= views.skip(i + 1));
                    if same_text(fields[i].0.as_str(), name) {
                        return Some(&fields[i].1);
                    }
                    i += 1;
                }
                None
            },
            _ => None,
        }
    }

    /// The field under the first of two names that there is.
    pub fn get2(&self, a: &str, b: &str) -> (r: Option<&Json>)
        ensures
            view_in(r) == self@.field2(a@, b@),
    {
        match self.get(a) {
            Some(found) => Some(found),
            None => self.get(b),
        }
    }

    /// The field under the first of three names that there is.
    pub fn get3(&self, a: &str, b: &str, c: &str) -> (r: Option<&Json>)
        ensures
            view_in(r) == self@.field3(a@, b@, c@),
    {
        match self.get2(a, b) {
            Some(found) => Some(found),
            None => self.get(c),
        }
    }

    /// The field under the first of four names that there is.
    pub fn get4(&self, a: &str, b: &str, c: &str, d: &str) -> (r: Option<&Json>)
        ensures
            view_in(r) == self@.field4(a@, b@, c@, d@),
    {
        match self.get3(a, b, c) {
            Some(found) => Some(found),
            None => self.get(d),
        }
    }
}

/// The content of a list of values.
pub open spec fn views_of(items: Seq<Json>) -> Seq<JsonView> {
    Seq::new(items.len(), |i: int| json_view(items[i]))
}

/// The items of an array.
pub fn as_array<'a>(json: Option<&'a Json>) -> (r: Option<&'a Vec<Json>>)
    ensures
        match r {
            Some(items) => array_in(view_in(json)) == Some(views_of(items@)),
            None => array_in(view_in(json)) is None,
        },
{
    match json {
        Some(value) => match value {
            Json::Array(items) => {
                assert(value@->Array_0 =~= views_of(items@));
                Some(items)
            },
            _ => None,
        },
        None => None,
    }
}

/// The truth value of a Boolean.
pub fn as_bool(json: Option<&Json>) -> (r: Option<bool>)
    ensures
        r == bool_in(view_in(json)),
{
    match json {
        Some(Json::Bool(b)) => Some(*b),
        _ => None,
    }
}

/// The value of a whole number that fits.
pub fn as_int(json: Option<&Json>) -> (r: Option<i64>)
    ensures
        r == int_in(view_in(json)),
{
    match json {
        Some(Json::Number(n)) => n.whole,
        _ => None,
    }
}

/// The text of a string.
pub fn as_str<'a>(json: Option<&'a Json>) -> (r: Option<&'a str>)
    ensures
        match r {
            Some(text) => str_in(view_in(json)) == Some(text@),
            None => str_in(view_in(json)) is None,
        },
{
    match json {
        Some(Json::Text(text)) => Some(text.as_str()),
        _ => None,
    }
}

/// The text of a string or of a number.
pub fn as_text<'a>(json: Option<&'a Json>) -> (r: Option<&'a str>)
    ensures
        match r {
            Some(text) => text_in(view_in(json)) == Some(text@),
            None => text_in(view_in(json)) is None,
        },
{
    match json {
        Some(Json::Text(text)) => Some(text.as_str()),
        Some(Json::Number(n)) => Some(n.text.as_str()),
        _ => None,
    }
}

/// The decimal that a string or a number stands for.
pub fn as_decimal(json: Option<&Json>) -> (r: Option<Decimal>)
    ensures
        r == decimal_in(view_in(json)),
{
    match as_text(json) {
        Some(text) => Decimal::from_text(text),
        None => None,
    }
}

/// The value of a whole number, or the integer that a string stands for.
pub fn as_lenient_int(json: Option<&Json>) -> (r: Option<i64>)
    ensures
        r == lenient_int_in(view_in(json)),
{
    match as_int(json) {
        Some(n) => Some(n),
        None => match as_str(json) {
            Some(text) => parse_int(text),
            None => None,
        },
    }
}

} // verus!
