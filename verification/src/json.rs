//! JSON texts, read and written by `serde_json`.

use vstd::prelude::*;

use crate::keyed::{distinct_keys, entries_map, KeyedMap};
use crate::text::texts;

verus! {

/// A member of a JSON object, as far as it matters here: its text where it is a string.
pub struct JsonMember {
    pub text: Option<String>,
}

impl View for JsonMember {
    type V = Option<Seq<char>>;

    open spec fn view(&self) -> Option<Seq<char>> {
        match self.text {
            Some(text) => Some(text@),
            None => None,
        }
    }
}

/// The members of a JSON object by name: the text of each one that is a string, `None` for
/// one that is something else.
pub type MembersView = Map<Seq<char>, Option<Seq<char>>>;

/// What `serde_json::from_str` makes of a text, read as any JSON value: the members where the
/// value is an object, `None` where it is something else, and the description of the error
/// where the text is no JSON.
pub uninterp spec fn json_outcome(text: Seq<char>) -> Result<Option<MembersView>, Seq<char>>;

/// The text that `serde_json` writes for an object with two members, both strings.
pub uninterp spec fn json_pair_text(
    first_name: Seq<char>,
    first: Seq<char>,
    second_name: Seq<char>,
    second: Seq<char>,
) -> Seq<char>;

/// What `serde_json::from_str` makes of a text, read as a map from strings to strings: the
/// map, or the description of the error.
pub uninterp spec fn json_map_outcome(text: Seq<char>) -> Result<
    Map<Seq<char>, Seq<char>>,
    Seq<char>,
>;

/// The text that `serde_json::to_string` writes for a map from strings to strings whose keys
/// are in order.
pub uninterp spec fn json_map_text(pairs: Map<Seq<char>, Seq<char>>) -> Seq<char>;

/// The text that `serde_json::to_string` writes for a list of strings.
pub uninterp spec fn json_list_text(list: Seq<Seq<char>>) -> Seq<char>;

/// Reads a text with `serde_json::from_str` as a `serde_json::Value`; the members are those of
/// `Value::as_object`, and the text of each one is what `Value::as_str` gives. The result is
/// `json_outcome` of the text; where the value is an object, its members have different
/// names.
#[verifier::external_body]
fn read_value(text: &str) -> (r: Result<Option<Vec<(String, JsonMember)>>, String>)
    ensures
        match r {
            Ok(Some(members)) => distinct_keys(members@) && json_outcome(text@) == Ok::<
                Option<MembersView>,
                Seq<char>,
            >(Some(entries_map(members@))),
            Ok(None) => json_outcome(text@) == Ok::<Option<MembersView>, Seq<char>>(None),
            Err(error) => json_outcome(text@) == Err::<Option<MembersView>, Seq<char>>(error@),
        },
{
    match serde_json::from_str::<serde_json::Value>(text) {
        Ok(value) => Ok(value.as_object().map(|members| members.iter().map(|(name, member)| {
            (name.clone(), JsonMember { text: member.as_str().map(str::to_owned) })
        }).collect())),
        Err(error) => Err(error.to_string()),
    }
}

/// Writes an object with two string members with the `Display` of `serde_json::Value`. The
/// result is `json_pair_text` of the names and texts, and reading it gives both members back.
#[verifier::external_body]
pub(crate) fn pair_text(
    first_name: &str,
    first: &str,
    second_name: &str,
    second: &str,
) -> (r: String)
    requires
        first_name@ != second_name@,
    ensures
        r@ == json_pair_text(first_name@, first@, second_name@, second@),
        json_outcome(r@) is Ok,
        json_outcome(r@)->Ok_0 == Some(
            map![first_name@ => Some(first@), second_name@ => Some(second@)],
        ),
{
    let mut members = serde_json::Map::new();
    members.insert(first_name.to_owned(), serde_json::Value::String(first.to_owned()));
    members.insert(second_name.to_owned(), serde_json::Value::String(second.to_owned()));
    serde_json::Value::Object(members).to_string()
}

/// Reads a text with `serde_json::from_str` as a map from strings to strings. The result is
/// `json_map_outcome` of the text; no key is there twice.
#[verifier::external_body]
fn read_map(text: &str) -> (r: Result<Vec<(String, String)>, String>)
    ensures
        match r {
            Ok(pairs) => distinct_keys(pairs@) && json_map_outcome(text@) == Ok::<
                Map<Seq<char>, Seq<char>>,
                Seq<char>,
            >(entries_map(pairs@)),
            Err(error) => json_map_outcome(text@) == Err::<Map<Seq<char>, Seq<char>>, Seq<char>>(
                error@,
            ),
        },
{
    match serde_json::from_str::<std::collections::HashMap<String, String>>(text) {
        Ok(pairs) => Ok(pairs.into_iter().collect()),
        Err(error) => Err(error.to_string()),
    }
}

/// Writes pairs as an object with `serde_json::to_string`, in the order of their keys. The
/// result is `json_map_text` of the pairs, and reading it gives the pairs back.
#[verifier::external_body]
fn write_map(pairs: &Vec<(String, String)>) -> (r: String)
    requires
        distinct_keys(pairs@),
    ensures
        r@ == json_map_text(entries_map(pairs@)),
        json_map_outcome(r@) is Ok,
        json_map_outcome(r@)->Ok_0 == entries_map(pairs@),
{
    let ordered: std::collections::BTreeMap<&String, &String> =
        pairs.iter().map(|pair| (&pair.0, &pair.1)).collect();
    serde_json::to_string(&ordered).unwrap()
}

/// Writes a list of strings with `serde_json::to_string`. The result is `json_list_text` of
/// the list.
#[verifier::external_body]
pub(crate) fn list_text(list: &Vec<String>) -> (r: String)
    ensures
        r@ == json_list_text(texts(list@)),
{
    serde_json::to_string(list).unwrap()
}

/// A JSON value: the members where it is an object.
pub struct JsonDocument {
    pub members: Option<KeyedMap<JsonMember>>,
}

impl View for JsonDocument {
    type V = Option<MembersView>;

    open spec fn view(&self) -> Option<MembersView> {
        match self.members {
            Some(members) => Some(members@),
            None => None,
        }
    }
}

/// The text of the member `name` of a JSON value: `None` where the value is no object, has no
/// such member, or where the member is not a string.
pub open spec fn string_member(document: Option<MembersView>, name: Seq<char>) -> Option<
    Seq<char>,
> {
    match document {
        Some(members) => if members.contains_key(name) {
            members[name]
        } else {
            None
        },
        None => None,
    }
}

impl JsonDocument {
    /// The text of the member `name`, where it is a string.
    pub fn string_member(&self, name: &str) -> (r: Option<&String>)
        ensures
            match r {
                Some(text) => string_member(self@, name@) == Some(text@),
                None => string_member(self@, name@) is None,
            },
    {
        match &self.members {
            Some(members) => match members.get(name) {
                Some(member) => match &member.text {
                    Some(text) => Some(text),
                    None => None,
                },
                None => None,
            },
            None => None,
        }
    }
}

/// What a reading gave: the value, or the description of the error.
pub open spec fn outcome_view(outcome: Result<JsonDocument, String>) -> Result<
    Option<MembersView>,
    Seq<char>,
> {
    match outcome {
        Ok(document) => Ok(document@),
        Err(error) => Err(error@),
    }
}

/// Reads a JSON text.
pub fn parse_document(text: &str) -> (r: Result<JsonDocument, String>)
    ensures
        outcome_view(r) == json_outcome(text@),
{
    match read_value(text) {
        Ok(Some(members)) => Ok(JsonDocument { members: Some(KeyedMap::from_entries(members)) }),
        Ok(None) => Ok(JsonDocument { members: None }),
        Err(error) => Err(error),
    }
}

/// What a reading of pairs gave: the pairs, or the description of the error.
pub open spec fn pairs_view(outcome: Result<KeyedMap<String>, String>) -> Result<
    Map<Seq<char>, Seq<char>>,
    Seq<char>,
> {
    match outcome {
        Ok(pairs) => Ok(pairs@),
        Err(error) => Err(error@),
    }
}

/// Reads pairs from a JSON object whose members are all strings.
pub fn parse_pairs(text: &str) -> (r: Result<KeyedMap<String>, String>)
    ensures
        pairs_view(r) == json_map_outcome(text@),
{
    match read_map(text) {
        Ok(pairs) => Ok(KeyedMap::from_entries(pairs)),
        Err(error) => Err(error),
    }
}

/// Pairs as a JSON object; reading it gives the pairs back.
pub fn pairs_text(pairs: &KeyedMap<String>) -> (r: String)
    ensures
        r@ == json_map_text(pairs@),
        json_map_outcome(r@) is Ok,
        json_map_outcome(r@)->Ok_0 == pairs@,
{
    write_map(pairs.entries())
}

/// What a reading gave is seen as it is: a value with its members, anything but an object
/// without, and an error with its description.
pub proof fn readings_are_seen_as_they_are(
    outcome: Result<JsonDocument, String>,
    pairs: Result<KeyedMap<String>, String>,
)
    ensures
        outcome_view(outcome) is Ok <==> outcome is Ok,
        outcome is Ok ==> {
            &&& outcome_view(outcome)->Ok_0 is Some <==> outcome->Ok_0.members is Some
            &&& outcome->Ok_0.members is Some ==> outcome_view(outcome)->Ok_0->0
                == outcome->Ok_0.members->0@
        },
        outcome is Err ==> outcome_view(outcome)->Err_0 == outcome->Err_0@,
        pairs_view(pairs) is Ok <==> pairs is Ok,
        pairs is Ok ==> pairs_view(pairs)->Ok_0 == pairs->Ok_0@,
        pairs is Err ==> pairs_view(pairs)->Err_0 == pairs->Err_0@,
{
}

/// A member counts where it is a string.
pub proof fn string_members_are_found(
    members: MembersView,
    name: Seq<char>,
    text: Seq<char>,
)
    ensures
        string_member(None, name) is None,
        !members.contains_key(name) ==> string_member(Some(members), name) is None,
        members.contains_key(name) ==> string_member(Some(members), name) == members[name],
        string_member(Some(members.insert(name, Some(text))), name) == Some(text),
        string_member(Some(members.insert(name, None)), name) is None,
{
}

} // verus!
