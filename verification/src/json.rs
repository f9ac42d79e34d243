//! JSON documents as `serde_json` holds them, and what the rest of the
//! library may take for granted about them.
//!
//! A document stays a `serde_json::Value` from the moment it is parsed to the
//! moment it is printed. The library looks into one through the few
//! functions below, and reasons about it through [`json_value`]: the
//! mathematical value that a `Value` holds.

use vstd::prelude::*;

verus! {

#[verifier::external_type_specification]
#[verifier::external_body]
pub struct ExValue(serde_json::Value);

#[verifier::external_type_specification]
#[verifier::external_body]
pub struct ExJsonError(serde_json::Error);

/// A JSON value, as a mathematical value.
pub enum Json {
    Null,
    Bool(bool),
    /// A number, by the text that stands for it.
    Number(Seq<char>),
    Text(Seq<char>),
    List(Seq<Json>),
    /// An object: its members, each a key and a value, in their order.
    Table(Seq<(Seq<char>, Json)>),
}

/// The JSON value that a `serde_json::Value` holds.
pub uninterp spec fn json_value(v: serde_json::Value) -> Json;

/// The JSON value that `serde_json::from_str` reads from a text, and `None`
/// where it reports an error.
pub uninterp spec fn json_parsed(text: Seq<char>) -> Option<Json>;

/// The text that `serde_json::to_string_pretty` writes for a JSON value, and
/// `None` where it reports an error.
pub uninterp spec fn json_printed(doc: Json) -> Option<Seq<char>>;

/// One member of a JSON object.
#[derive(Debug)]
pub struct Member {
    pub key: String,
    pub value: serde_json::Value,
}

impl View for Member {
    type V = (Seq<char>, Json);

    open spec fn view(&self) -> (Seq<char>, Json) {
        (self.key@, json_value(self.value))
    }
}

/// The values of a list of members.
pub open spec fn member_views(members: Seq<Member>) -> Seq<(Seq<char>, Json)> {
    members.map_values(|m: Member| m@)
}

/// Whether no key occurs twice.
pub open spec fn distinct_keys(members: Seq<(Seq<char>, Json)>) -> bool {
    forall|i: int, j: int|
        0 <= i < j < members.len() ==> (#[trigger] members[i]).0 != (#[trigger] members[j]).0
}

/// Calls `serde_json::from_str` for a `Value`. Nothing is claimed of what it
/// reads from a given text, only that the outcome depends on the text alone.
#[verifier::external_body]
pub(crate) fn parse_value(text: &str) -> (r: Result<serde_json::Value, serde_json::Error>)
    ensures
        r matches Ok(v) ==> json_parsed(text@) == Some(json_value(v)),
        r is Err ==> json_parsed(text@) is None,
{
    serde_json::from_str::<serde_json::Value>(text)
}

/// Calls `serde_json::to_string_pretty` on a `Value`. Nothing is claimed of
/// the text, only that it depends on the JSON value alone.
#[verifier::external_body]
pub(crate) fn print_value(v: &serde_json::Value) -> (r: Result<String, serde_json::Error>)
    ensures
        r matches Ok(text) ==> json_printed(json_value(*v)) == Some(text@),
        r is Err ==> json_printed(json_value(*v)) is None,
{
    serde_json::to_string_pretty(v)
}

/// Calls `Value::as_object` and copies the members that `Map::iter` hands
/// out. It returns them exactly when the value is an object, in the order of
/// the map, which holds no key twice.
#[verifier::external_body]
pub(crate) fn members_of(v: &serde_json::Value) -> (r: Option<Vec<Member>>)
    ensures
        r is Some <==> json_value(*v) is Table,
        r matches Some(members) ==> json_value(*v) == Json::Table(member_views(members@))
            && distinct_keys(member_views(members@)),
{
    v.as_object().map(
        |map| map.iter().map(|(k, x)| Member { key: k.clone(), value: x.clone() }).collect(),
    )
}

/// Calls `Value::as_str` and copies the string. It returns one exactly when
/// the value is a string.
#[verifier::external_body]
pub(crate) fn text_of(v: &serde_json::Value) -> (r: Option<String>)
    ensures
        r is Some <==> json_value(*v) is Text,
        r matches Some(text) ==> json_value(*v) == Json::Text(text@),
{
    v.as_str().map(|s| s.to_owned())
}

/// Collects members into a `serde_json::Map` and wraps it in `Value::Object`.
/// Built with `preserve_order`, the map keeps the order in which distinct
/// keys come in; of members that share a key nothing is claimed.
#[verifier::external_body]
pub(crate) fn table_value(members: Vec<Member>) -> (r: serde_json::Value)
    ensures
        distinct_keys(member_views(members@)) ==> json_value(r) == Json::Table(
            member_views(members@),
        ),
{
    serde_json::Value::Object(members.into_iter().map(|m| (m.key, m.value)).collect())
}

/// Calls `Value::from` on a `String`, which gives `Value::String`.
#[verifier::external_body]
pub(crate) fn text_value(text: String) -> (r: serde_json::Value)
    ensures
        json_value(r) == Json::Text(text@),
{
    serde_json::Value::from(text)
}

} // verus!
