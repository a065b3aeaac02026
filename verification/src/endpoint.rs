//! The one endpoint: what a request for it is answered with.

use crate::decimal::{decimal_text, i8_of_text};
use crate::query::{decode_query, form_pairs};
use crate::reading::{
    carries, decode_pairs, lemma_in_range_values_decode, lemma_invalid_value_rejected,
    lemma_missing_field_rejected, lemma_out_of_range_value_rejected, names, present, DecodeError,
    Field, Params, SensorReading,
};
use vstd::prelude::*;

verus! {

/// The path of the endpoint.
pub const SUBMIT_PATH: &'static str = "/submit_data";

/// The status of a reply to a request that was accepted.
pub const STATUS_OK: u16 = 200;

/// The status of a reply to a request whose parameters are no reading.
pub const STATUS_BAD_REQUEST: u16 = 400;

/// The status of a reply to a request that was cut off.
pub const STATUS_REQUEST_TIMEOUT: u16 = 408;

/// What the caller is answered: a status and a body.
#[derive(Clone, Debug, PartialEq, Eq)]
pub struct Reply {
    pub status: u16,
    pub body: String,
}

/// Whether a status reports success.
pub open spec fn is_success(status: u16) -> bool {
    200 <= status < 300
}

/// Whether a status blames the caller.
pub open spec fn is_client_error(status: u16) -> bool {
    400 <= status < 500
}

/// The status for the outcome of decoding.
pub open spec fn status_for(decoded: Result<SensorReading, DecodeError>) -> u16 {
    match decoded {
        Ok(_) => STATUS_OK,
        Err(_) => STATUS_BAD_REQUEST,
    }
}

/// The body for the outcome of decoding: empty for a reading, else the
/// sentence that says what is wrong.
pub open spec fn body_for(decoded: Result<SensorReading, DecodeError>) -> Seq<char> {
    match decoded {
        Ok(_) => Seq::empty(),
        Err(e) => e.description(),
    }
}

/// Answers the outcome of decoding.
pub fn reply_for(decoded: Result<SensorReading, DecodeError>) -> (reply: Reply)
    ensures
        reply.status == status_for(decoded),
        reply.body@ == body_for(decoded),
{
    match decoded {
        Ok(_) => Reply { status: STATUS_OK, body: String::new() },
        Err(e) => Reply { status: STATUS_BAD_REQUEST, body: e.describe() },
    }
}

/// Answers a request for the endpoint from its query string. The reading
/// itself is not kept.
pub fn submit_data(query: &str) -> (reply: Reply)
    ensures
        reply.status == status_for(decode_pairs(form_pairs(query@))),
        reply.body@ == body_for(decode_pairs(form_pairs(query@))),
{
    reply_for(decode_query(query))
}

/// A request whose parameters carry each of the three names exactly once,
/// with the decimal writing of an integer from -128 to 127, succeeds.
pub proof fn lemma_in_range_request_succeeds(params: Params, a: int, h: int, g: int)
    requires
        -128 <= a <= 127,
        -128 <= h <= 127,
        -128 <= g <= 127,
        carries(params, Field::AirTemp, decimal_text(a)),
        carries(params, Field::Humidity, decimal_text(h)),
        carries(params, Field::GroundTemp, decimal_text(g)),
    ensures
        is_success(status_for(decode_pairs(params))),
        body_for(decode_pairs(params)) == Seq::<char>::empty(),
{
    lemma_in_range_values_decode(params, a, h, g);
}

/// A request with a parameter that carries a field's name and a value that
/// is no signed 8-bit integer fails with a client error.
pub proof fn lemma_invalid_value_is_client_error(params: Params, i: int, field: Field)
    requires
        names(params, i, field),
        i8_of_text(params[i].1) is Err,
    ensures
        is_client_error(status_for(decode_pairs(params))),
{
    lemma_invalid_value_rejected(params, i, field);
}

/// A request with a parameter that carries a field's name and the decimal
/// writing of an integer below -128 or above 127 fails with a client error.
pub proof fn lemma_out_of_range_value_is_client_error(
    params: Params,
    i: int,
    field: Field,
    n: int,
)
    requires
        names(params, i, field),
        params[i].1 == decimal_text(n),
        n < -128 || n > 127,
    ensures
        is_client_error(status_for(decode_pairs(params))),
{
    lemma_out_of_range_value_rejected(params, i, field, n);
}

/// A request without a parameter for one of the three fields fails with a
/// client error.
pub proof fn lemma_missing_parameter_is_client_error(params: Params, field: Field)
    requires
        !present(params, field),
    ensures
        is_client_error(status_for(decode_pairs(params))),
{
    lemma_missing_field_rejected(params, field);
}

} // verus!
