//! Serialization of peer-list snapshots for the foreign-call boundary.
//!
//! A snapshot is handed to the host process as one JSON array of strings.
//! The array text is a function of the strings alone, so it is named by a
//! spec function and produced by the serializer behind a trusted wrapper.

use vstd::prelude::*;

verus! {

/// The JSON array whose elements are the given strings, in order.
pub uninterp spec fn json_string_array(items: Seq<Seq<char>>) -> Seq<char>;

/// Relies on `serde_json::to_string` on a `Vec<String>`: the output is a
/// function of the strings alone, and serializing a vector of strings cannot
/// fail (only maps with non-string keys or a failing `Serialize` impl can).
#[verifier::external_body]
pub(crate) fn to_json_string_array(items: &Vec<String>) -> (r: String)
    ensures
        r@ == json_string_array(items.deep_view()),
{
    match serde_json::to_string(items) {
        Ok(s) => s,
        Err(_) => String::new(),
    }
}

} // verus!
