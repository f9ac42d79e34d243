//! The registry client's decisions: where to ask for a package, and what an
//! answer says about its latest version. Sending the request is left to the
//! caller.

use crate::json::{
    json_parsed, json_value, member_views, members_of, parse_value, text_of, Json, Member,
};
use vstd::prelude::*;
use vstd::string::*;

verus! {

/// The host of the public registry.
pub const DEFAULT_REGISTRY: &'static str = "registry.npmjs.com";

/// Why one lookup gave no latest version.
#[derive(Debug, Clone, Copy, PartialEq, Eq, Structural)]
pub enum RegistryError {
    /// The request got no response: name resolution, timeout, reset connection.
    Transport,
    /// The registry answered with a status outside 200 to 299.
    Status(u16),
    /// The body is not JSON, or holds no string at `dist-tags.latest`.
    Body,
}

/// The address to ask for the package `name`.
pub open spec fn url_of(host: Seq<char>, name: Seq<char>) -> Seq<char> {
    "https://"@ + host + "/"@ + name
}

/// The value of the member `key` of an object: that of the last such member.
pub open spec fn member_value(members: Seq<(Seq<char>, Json)>, key: Seq<char>) -> Option<Json>
    decreases members.len(),
{
    if members.len() == 0 {
        None
    } else if members.last().0 == key {
        Some(members.last().1)
    } else {
        member_value(members.drop_last(), key)
    }
}

/// The string at `dist-tags.latest` of a registry document, if there is one.
pub open spec fn latest_in(doc: Json) -> Option<Seq<char>> {
    match doc {
        Json::Table(fields) => match member_value(fields, "dist-tags"@) {
            Some(Json::Table(tags)) => match member_value(tags, "latest"@) {
                Some(Json::Text(latest)) => Some(latest),
                _ => None,
            },
            _ => None,
        },
        _ => None,
    }
}

/// What a response says about the latest version, given what its body
/// parses to.
pub open spec fn answer_of(status: u16, parsed: Option<Json>) -> Result<Seq<char>, RegistryError> {
    if status < 200 || status >= 300 {
        Err(RegistryError::Status(status))
    } else {
        match parsed {
            Some(doc) => match latest_in(doc) {
                Some(latest) => Ok(latest),
                None => Err(RegistryError::Body),
            },
            None => Err(RegistryError::Body),
        }
    }
}

/// The value of a version or an error.
pub open spec fn answer_view(r: Result<String, RegistryError>) -> Result<
    Seq<char>,
    RegistryError,
> {
    match r {
        Ok(latest) => Ok(latest@),
        Err(e) => Err(e),
    }
}

/// The address to ask for the package `name` on the registry at `host`.
pub fn registry_url(host: &str, name: &str) -> (r: String)
    ensures
        r@ == url_of(host@, name@),
{
    let mut url = String::from_str("https://");
    url.append(host);
    url.append("/");
    url.append(name);
    url
}

/// The place of the last member with the key `key`.
pub fn find_member(members: &Vec<Member>, key: &str) -> (r: Option<usize>)
    ensures
        r matches Some(i) ==> i < members@.len() && member_value(member_views(members@), key@)
            == Some(json_value(members@[i as int].value)) && members@[i as int].key@ == key@,
        r matches Some(i) ==> forall|k: int|
            i < k < members@.len() ==> (#[trigger] members@[k]).key@ != key@,
        r is None ==> member_value(member_views(members@), key@) is None,
{
    let ghost all = member_views(members@);
    let wanted = String::from_str(key);
    let mut i: usize = members.len();
    proof {
        assert(all.take(i as int) =~= all);
    }
    while i > 0
        invariant
            0 <= i <= members.len(),
            all == member_views(members@),
            wanted@ == key@,
            member_value(all, key@) == member_value(all.take(i as int), key@),
            forall|k: int| i <= k < members@.len() ==> (#[trigger] members@[k]).key@ != key@,
        decreases i,
    {
        proof {
            assert(all.take(i as int).drop_last() =~= all.take(i - 1));
            assert(all.take(i as int).last() == members@[i - 1]@);
        }
        if members[i - 1].key == wanted {
            return Some(i - 1);
        }
        i -= 1;
    }
    None
}

/// The string at `dist-tags.latest` of a registry document.
pub fn latest_in_document(doc: &serde_json::Value) -> (r: Option<String>)
    ensures
        r is Some <==> latest_in(json_value(*doc)) is Some,
        r matches Some(latest) ==> latest_in(json_value(*doc)) == Some(latest@),
{
    let fields = match members_of(doc) {
        Some(fields) => fields,
        None => {
            return None;
        },
    };
    let tags = match find_member(&fields, "dist-tags") {
        Some(i) => match members_of(&fields[i].value) {
            Some(tags) => tags,
            None => {
                return None;
            },
        },
        None => {
            return None;
        },
    };
    match find_member(&tags, "latest") {
        Some(i) => text_of(&tags[i].value),
        None => None,
    }
}

/// Reads the latest version out of a response of the registry: the status
/// must be one of 200 to 299, and the body a JSON document with a string at
/// `dist-tags.latest`.
pub fn read_response(status: u16, body: &str) -> (r: Result<String, RegistryError>)
    ensures
        answer_view(r) == answer_of(status, json_parsed(body@)),
{
    if status < 200 || status >= 300 {
        return Err(RegistryError::Status(status));
    }
    let doc = match parse_value(body) {
        Ok(doc) => doc,
        Err(_) => {
            return Err(RegistryError::Body);
        },
    };
    match latest_in_document(&doc) {
        Some(latest) => Ok(latest),
        None => Err(RegistryError::Body),
    }
}

} // verus!
