use sensor_gateway::endpoint::{
    reply_for, submit_data, STATUS_BAD_REQUEST, STATUS_OK, STATUS_REQUEST_TIMEOUT, SUBMIT_PATH,
};
use sensor_gateway::query::decode_query;
use sensor_gateway::reading::{DecodeError, Field, SensorReading};

#[test]
fn a_plain_query_decodes() {
    assert_eq!(
        decode_query("air_temp=21&humidity=65&ground_temp=-3"),
        Ok(SensorReading { air_temp: 21, humidity: 65, ground_temp: -3 })
    );
}

#[test]
fn every_in_range_value_decodes_from_a_query() {
    for v in i8::MIN..=i8::MAX {
        let w = v.wrapping_add(77);
        let u = v.wrapping_mul(3);
        let query = format!("air_temp={}&humidity={}&ground_temp={}", v, w, u);
        assert_eq!(
            decode_query(&query),
            Ok(SensorReading { air_temp: v, humidity: w, ground_temp: u })
        );
        assert_eq!(submit_data(&query).status, 200);
    }
}

#[test]
fn parameters_may_come_in_any_order_and_among_others() {
    assert_eq!(
        decode_query("station=north&ground_temp=3&humidity=2&x&air_temp=1&y=%zz"),
        Ok(SensorReading { air_temp: 1, humidity: 2, ground_temp: 3 })
    );
}

#[test]
fn empty_pieces_are_passed_over() {
    assert_eq!(
        decode_query("&&air_temp=1&&humidity=2&ground_temp=3&"),
        Ok(SensorReading { air_temp: 1, humidity: 2, ground_temp: 3 })
    );
}

#[test]
fn percent_escapes_are_decoded_in_names_and_values() {
    assert_eq!(
        decode_query("air%5Ftemp=%2D5&humidity=%31%32&ground_temp=%2B7"),
        Ok(SensorReading { air_temp: -5, humidity: 12, ground_temp: 7 })
    );
    assert_eq!(
        decode_query("%61ir_temp=1&humidity=2&ground_tem%70=3"),
        Ok(SensorReading { air_temp: 1, humidity: 2, ground_temp: 3 })
    );
}

#[test]
fn a_plus_in_a_query_stands_for_a_space() {
    assert_eq!(
        decode_query("air_temp=+5&humidity=2&ground_temp=3"),
        Err(DecodeError::Malformed(Field::AirTemp))
    );
    assert_eq!(
        decode_query("air+temp=5&air_temp=1&humidity=2&ground_temp=3"),
        Ok(SensorReading { air_temp: 1, humidity: 2, ground_temp: 3 })
    );
}

#[test]
fn a_value_ends_at_the_next_ampersand_and_starts_after_the_first_equals_sign() {
    assert_eq!(
        decode_query("air_temp=1=2&humidity=2&ground_temp=3"),
        Err(DecodeError::Malformed(Field::AirTemp))
    );
    assert_eq!(
        decode_query("air_temp&humidity=2&ground_temp=3"),
        Err(DecodeError::Malformed(Field::AirTemp))
    );
    assert_eq!(
        decode_query("air_temp=&humidity=2&ground_temp=3"),
        Err(DecodeError::Malformed(Field::AirTemp))
    );
}

#[test]
fn a_query_without_a_parameter_is_rejected() {
    assert_eq!(decode_query(""), Err(DecodeError::Missing(Field::AirTemp)));
    assert_eq!(
        decode_query("humidity=2&ground_temp=3"),
        Err(DecodeError::Missing(Field::AirTemp))
    );
    assert_eq!(
        decode_query("air_temp=1&ground_temp=3"),
        Err(DecodeError::Missing(Field::Humidity))
    );
    assert_eq!(
        decode_query("air_temp=1&humidity=2"),
        Err(DecodeError::Missing(Field::GroundTemp))
    );
}

#[test]
fn a_query_with_an_out_of_range_value_is_rejected() {
    assert_eq!(
        decode_query("air_temp=200&humidity=2&ground_temp=3"),
        Err(DecodeError::OutOfRange(Field::AirTemp))
    );
    assert_eq!(
        decode_query("air_temp=1&humidity=-129&ground_temp=3"),
        Err(DecodeError::OutOfRange(Field::Humidity))
    );
    assert_eq!(
        decode_query("air_temp=1&humidity=2&ground_temp=128"),
        Err(DecodeError::OutOfRange(Field::GroundTemp))
    );
}

#[test]
fn a_query_with_a_value_that_is_no_integer_is_rejected() {
    assert_eq!(
        decode_query("air_temp=abc&humidity=2&ground_temp=3"),
        Err(DecodeError::Malformed(Field::AirTemp))
    );
    assert_eq!(
        decode_query("air_temp=1&humidity=2.5&ground_temp=3"),
        Err(DecodeError::Malformed(Field::Humidity))
    );
    assert_eq!(
        decode_query("air_temp=1&humidity=2&ground_temp=%F0%9F%8C%A1"),
        Err(DecodeError::Malformed(Field::GroundTemp))
    );
}

#[test]
fn a_query_with_a_repeated_name_is_rejected() {
    assert_eq!(
        decode_query("air_temp=1&humidity=2&ground_temp=3&air_temp=1"),
        Err(DecodeError::Duplicate(Field::AirTemp))
    );
}

#[test]
fn an_accepted_request_is_answered_with_an_empty_success() {
    let reply = submit_data("air_temp=1&humidity=2&ground_temp=3");
    assert_eq!(reply.status, 200);
    assert_eq!(reply.body, "");
}

#[test]
fn a_rejected_request_is_answered_with_a_client_error_and_a_reason() {
    let reply = submit_data("air_temp=200&humidity=2&ground_temp=3");
    assert_eq!(reply.status, 400);
    assert_eq!(reply.body, "field `air_temp` is out of range");
    let reply = submit_data("air_temp=abc&humidity=2&ground_temp=3");
    assert_eq!(reply.status, 400);
    assert_eq!(reply.body, "field `air_temp` is not an integer");
    let reply = submit_data("air_temp=1&humidity=2");
    assert_eq!(reply.status, 400);
    assert_eq!(reply.body, "missing field `ground_temp`");
    let reply = submit_data("humidity=1&humidity=2");
    assert_eq!(reply.status, 400);
    assert_eq!(reply.body, "duplicate field `humidity`");
    let reply = submit_data("");
    assert_eq!(reply.status, 400);
    assert_eq!(reply.body, "missing field `air_temp`");
}

#[test]
fn a_rejected_request_leaves_later_requests_unharmed() {
    assert_eq!(submit_data("air_temp=200&humidity=2&ground_temp=3").status, 400);
    assert_eq!(submit_data("air_temp=abc").status, 400);
    assert_eq!(submit_data("air_temp=20&humidity=2&ground_temp=3").status, 200);
}

#[test]
fn replies_follow_the_outcome_of_decoding() {
    let ok = reply_for(Ok(SensorReading { air_temp: 1, humidity: 2, ground_temp: 3 }));
    assert_eq!(ok.status, STATUS_OK);
    assert!(ok.body.is_empty());
    let bad = reply_for(Err(DecodeError::Missing(Field::Humidity)));
    assert_eq!(bad.status, STATUS_BAD_REQUEST);
    assert_eq!(bad.body, "missing field `humidity`");
}

#[test]
fn the_endpoint_constants_have_their_values() {
    assert_eq!(SUBMIT_PATH, "/submit_data");
    assert_eq!(STATUS_OK, 200);
    assert_eq!(STATUS_BAD_REQUEST, 400);
    assert_eq!(STATUS_REQUEST_TIMEOUT, 408);
}
