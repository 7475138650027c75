use vstd::prelude::*;

verus! {

/// `serde_json::Value`, a JSON document in memory. It is carried, never
/// looked into: what it holds is told by `json_texts` and `json_numbers`.
#[verifier::external_type_specification]
#[verifier::external_body]
pub struct ExJsonValue(serde_json::Value);

/// `serde_json::Error`, why a text was refused. It is carried, never looked
/// into.
#[verifier::external_type_specification]
#[verifier::external_body]
pub struct ExJsonError(serde_json::Error);

/// The texts that a JSON document holds: for each key under which the
/// document, being an object, has a string, that string.
pub uninterp spec fn json_texts(doc: serde_json::Value) -> Map<Seq<char>, Seq<char>>;

/// The numbers that a JSON document holds: for each key under which the
/// document, being an object, has a whole number from 0 through 2^64 - 1,
/// that number.
pub uninterp spec fn json_numbers(doc: serde_json::Value) -> Map<Seq<char>, u64>;

/// The texts and the numbers of the JSON document that a text spells, if it
/// spells one.
pub uninterp spec fn json_read(text: Seq<char>) -> Option<
    (Map<Seq<char>, Seq<char>>, Map<Seq<char>, u64>),
>;

/// What a map holds under a key, if anything.
pub open spec fn held<V>(fields: Map<Seq<char>, V>, key: Seq<char>) -> Option<V> {
    if fields.contains_key(key) {
        Some(fields[key])
    } else {
        None
    }
}

/// The text under a key of the document that a text spells, if the text
/// spells a document that has a string there.
pub open spec fn text_in(text: Seq<char>, key: Seq<char>) -> Option<Seq<char>> {
    match json_read(text) {
        Some((texts, _)) => held(texts, key),
        None => None,
    }
}

/// The number under a key of the document that a text spells, if the text
/// spells a document that has a whole number of 64 bits there.
pub open spec fn number_in(text: Seq<char>, key: Seq<char>) -> Option<u64> {
    match json_read(text) {
        Some((_, numbers)) => held(numbers, key),
        None => None,
    }
}

/// Reads a text as a JSON document with `serde_json::from_str`. The contract
/// claims only that the outcome is a function of the text: the text is
/// refused exactly where `json_read` names nothing, and what a document that
/// was read holds is what `json_read` names.
#[verifier::external_body]
pub(crate) fn parse_json(text: &str) -> (read: Result<serde_json::Value, serde_json::Error>)
    ensures
        match read {
            Ok(doc) => json_read(text@) == Some((json_texts(doc), json_numbers(doc))),
            Err(_) => json_read(text@) is None,
        },
{
    serde_json::from_str(text)
}

/// The string that a document holds under a key: the document indexed by the
/// key, which gives null where the document is no object or has no such
/// member, and then `serde_json::Value::as_str`, which gives nothing for
/// anything but a string. Neither call panics.
#[verifier::external_body]
pub(crate) fn text_at(doc: &serde_json::Value, key: &str) -> (text: Option<String>)
    ensures
        match text {
            Some(text) => held(json_texts(*doc), key@) == Some(text@),
            None => held(json_texts(*doc), key@) is None,
        },
{
    doc[key].as_str().map(str::to_owned)
}

/// The number that a document holds under a key: the document indexed by the
/// key, and then `serde_json::Value::as_u64`, which gives nothing for
/// anything but a whole number from 0 through 2^64 - 1. Neither call panics.
#[verifier::external_body]
pub(crate) fn number_at(doc: &serde_json::Value, key: &str) -> (number: Option<u64>)
    ensures
        number == held(json_numbers(*doc), key@),
{
    doc[key].as_u64()
}

} // verus!
