//! JSON objects whose members are texts.

use crate::table::{assoc, distinct_keys};
use vstd::prelude::*;

verus! {

/// Texts by texts, from rows of both.
pub open spec fn text_map(rows: Seq<(String, String)>) -> Map<Seq<char>, Seq<char>> {
    assoc(rows).map_values(|s: String| s@)
}

/// The JSON object that `serde_json::to_string` writes for a sorted map of strings.
pub uninterp spec fn json_object(members: Map<Seq<char>, Seq<char>>) -> Seq<char>;

/// Writes members as a JSON object with `serde_json::to_string`. Trusted: it does not fail on a
/// map of strings, and what it writes depends on the members alone. What the text looks like is
/// not stated.
#[verifier::external_body]
pub(crate) fn write_json_object(members: &Vec<(String, String)>) -> (r: String)
    requires
        distinct_keys(members@),
    ensures
        r@ == json_object(text_map(members@)),
{
    let members: std::collections::BTreeMap<&str, &str> = members
        .iter()
        .map(|m| (m.0.as_str(), m.1.as_str()))
        .collect();
    serde_json::to_string(&members).unwrap()
}

/// A JSON object with one member.
pub fn json_member(name: &str, value: &str) -> (r: String)
    ensures
        r@ == json_object(map![name@ => value@]),
{
    let mut members: Vec<(String, String)> = Vec::new();
    members.push((name.to_owned(), value.to_owned()));
    proof {
        assert(members@.drop_last() =~= Seq::<(String, String)>::empty());
        assert(assoc(members@.drop_last()) =~= Map::<Seq<char>, String>::empty());
        assert(text_map(members@) =~= map![name@ => value@]);
    }
    write_json_object(&members)
}

} // verus!
