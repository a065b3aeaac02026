//! Query strings: from the text after the `?` of a request to a reading.

use crate::reading::{decode_pairs, params_of, reading_from_pairs, DecodeError, SensorReading};
use vstd::prelude::*;

verus! {

/// The parameters of a query string: the pairs of name and value that
/// `form_urlencoded::parse` yields for the string's bytes, in the order in
/// which it yields them. That parser splits at `&`, passes over empty pieces,
/// splits each piece at its first `=`, and decodes `+` and percent escapes in
/// both halves. Nothing of this is assumed here: the parameters of a given
/// string are whatever the parser makes of it.
pub uninterp spec fn form_pairs(query: Seq<char>) -> Seq<(Seq<char>, Seq<char>)>;

/// Splits a query string into its parameters by a call of
/// `form_urlencoded::parse` on the string's bytes, and collects the pairs as
/// owned strings. Not verified: the contract gives the outcome its name,
/// `form_pairs`, and claims nothing else of it.
#[verifier::external_body]
fn split_query(query: &str) -> (pairs: Vec<(String, String)>)
    ensures
        params_of(pairs@) == form_pairs(query@),
{
    form_urlencoded::parse(query.as_bytes()).into_owned().collect()
}

/// Decodes the reading that a query string carries.
pub fn decode_query(query: &str) -> (r: Result<SensorReading, DecodeError>)
    ensures
        r == decode_pairs(form_pairs(query@)),
{
    let pairs = split_query(query);
    reading_from_pairs(&pairs)
}

} // verus!
