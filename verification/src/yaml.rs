//! The YAML that a template's header is written in, read by `serde_yaml`,
//! which also writes the sequences among the values. Nothing here is proved: the contracts say what the library
//! takes on trust from that crate.

use crate::value::{texts, Decoded, DecodedView};
use serde_yaml::Value as Node;
use std::collections::BTreeMap;
use vstd::prelude::*;

verus! {

/// The error of `serde_yaml`, which the library passes on as a message.
#[verifier::external_type_specification]
#[verifier::external_body]
pub struct ExYamlError(serde_yaml::Error);

/// What `serde_yaml::from_str` makes of `text`, read as a mapping from
/// strings to values: its entries in the order of their keys, or nothing
/// where it fails.
pub uninterp spec fn yaml_mapping(text: Seq<char>) -> Option<Seq<(Seq<char>, DecodedView)>>;

/// The text that `serde_yaml::to_string` writes for a sequence of the
/// strings `items`, or nothing where it fails.
pub uninterp spec fn yaml_rendering(items: Seq<Seq<char>>) -> Option<Seq<char>>;

/// The entries of a decoded mapping as contracts see them.
pub open spec fn entries_view(entries: Seq<(String, Decoded)>) -> Seq<(Seq<char>, DecodedView)> {
    Seq::new(entries.len(), |i: int| (entries[i].0@, entries[i].1@))
}

/// Calls `serde_yaml::from_str` on `text` for a `BTreeMap` from `String` to
/// `serde_yaml::Value` and hands out its entries in the map's order. A
/// value is handed out by its variant: null, a string with its text, a
/// sequence with the text of each item that is a string, and any other
/// variant as [`Decoded::Other`]. The contract claims only that the outcome
/// is the one named [`yaml_mapping`]: that the same text always decodes
/// alike.
#[verifier::external_body]
pub(crate) fn decode_mapping(text: &str) -> (decoded: Result<
    Vec<(String, Decoded)>,
    serde_yaml::Error,
>)
    ensures
        match decoded {
            Ok(entries) => yaml_mapping(text@) == Some(entries_view(entries@)),
            Err(_) => yaml_mapping(text@) is None,
        },
{
    let map: BTreeMap<String, Node> = serde_yaml::from_str(text)?;
    Ok(map.into_iter().map(|(key, value)| (key, match value {
        Node::Null => Decoded::Null,
        Node::String(text) => Decoded::Text(text),
        Node::Sequence(items) => Decoded::List(
            items.iter().map(|item| item.as_str().map(str::to_owned)).collect(),
        ),
        Node::Bool(_) => Decoded::Other,
        Node::Number(_) => Decoded::Other,
        Node::Mapping(_) => Decoded::Other,
        Node::Tagged(_) => Decoded::Other,
    })).collect())
}

/// Calls `serde_yaml::to_string` on `items`, a sequence of strings. The
/// contract claims only that the outcome is the one named
/// [`yaml_rendering`]: that the same strings are always written alike.
#[verifier::external_body]
pub(crate) fn render(items: &Vec<String>) -> (rendered: Result<String, serde_yaml::Error>)
    ensures
        match rendered {
            Ok(text) => yaml_rendering(texts(items@)) == Some(text@),
            Err(_) => yaml_rendering(texts(items@)) is None,
        },
{
    serde_yaml::to_string(items)
}

/// The message of a `serde_yaml` error: the text that the error displays
/// itself as.
pub(crate) fn error_message(error: &serde_yaml::Error) -> (message: String)
    ensures
        vstd::string::to_string_from_display_ensures::<serde_yaml::Error>(error, message),
{
    error.to_string()
}

} // verus!
