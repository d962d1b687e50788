//! The part of `serde_json` that the adapter listings go through: reading a
//! text as a JSON array of objects.

use vstd::prelude::*;

verus! {

/// Name for what reading a text as a JSON array with `serde_json` gives
/// back, as plain values: `None` where the text is not a JSON array;
/// otherwise, for each element in order, the members of the element where
/// it is an object (none otherwise), each as its key, then the member as
/// `Value::as_str`, `Value::as_u64` and `Value::as_bool` read it.
pub uninterp spec fn json_array_members(text: Seq<char>) -> Option<
    Seq<Seq<(Seq<char>, Option<Seq<char>>, Option<u64>, Option<bool>)>>,
>;

/// Calls `serde_json::from_str::<Vec<serde_json::Value>>` and turns each
/// object member into plain values: a string gives its text, a number its
/// `u64` value where it has one (`Number::as_u64`), a boolean its value.
/// The contract claims that the outcome is a function of the text alone,
/// named `json_array_members`; the JSON grammar is not restated.
#[verifier::external_body]
pub(crate) fn parse_json_members(text: &str) -> (r: Option<
    Vec<Vec<(String, Option<String>, Option<u64>, Option<bool>)>>,
>)
    ensures
        r.deep_view() == json_array_members(text@),
{
    serde_json::from_str::<Vec<serde_json::Value>>(text).ok().map(|values| {
        values.into_iter().map(|value| match value {
            serde_json::Value::Object(members) => members.into_iter().map(|(key, member)| match member {
                serde_json::Value::String(s) => (key, Some(s), None, None),
                serde_json::Value::Number(n) => (key, None, n.as_u64(), None),
                serde_json::Value::Bool(b) => (key, None, None, Some(b)),
                _ => (key, None, None, None),
            }).collect(),
            _ => Vec::new(),
        }).collect()
    })
}

} // verus!
