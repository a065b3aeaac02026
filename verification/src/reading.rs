//! The sensor reading carried by one request, and its decoding from a list
//! of named parameters.
//!
//! Parameters are read from left to right. A parameter whose name is none of
//! the three field names is passed over. A field name may occur once; each
//! field's value is the decimal text of a signed 8-bit integer.

use crate::decimal::{decimal_text, i8_of_text, lemma_i8_out_of_range, lemma_i8_round_trip, parse_i8, NumberError};
use crate::text::same_text;
use vstd::prelude::*;
use vstd::string::*;

verus! {

/// One telemetry sample: air temperature, humidity and ground temperature.
#[derive(Clone, Copy, Debug, PartialEq, Eq, Structural)]
pub struct SensorReading {
    pub air_temp: i8,
    pub humidity: i8,
    pub ground_temp: i8,
}

/// The three components of a reading.
#[derive(Clone, Copy, Debug, PartialEq, Eq, Structural)]
pub enum Field {
    AirTemp,
    Humidity,
    GroundTemp,
}

/// Why a list of parameters is not a reading.
#[derive(Clone, Copy, Debug, PartialEq, Eq, Structural)]
pub enum DecodeError {
    /// No parameter carries the field's name.
    Missing(Field),
    /// A second parameter carries the field's name.
    Duplicate(Field),
    /// The field's value is not an optional sign followed by digits.
    Malformed(Field),
    /// The field's value is an integer below -128 or above 127.
    OutOfRange(Field),
}

/// A list of parameters as mathematics: pairs of a name and a value.
pub type Params = Seq<(Seq<char>, Seq<char>)>;

impl Field {
    /// The name under which the field travels.
    pub open spec fn name(self) -> Seq<char> {
        match self {
            Field::AirTemp => "air_temp"@,
            Field::Humidity => "humidity"@,
            Field::GroundTemp => "ground_temp"@,
        }
    }

    /// The field that travels under `name`, if there is one.
    pub open spec fn named(name: Seq<char>) -> Option<Field> {
        if name == Field::AirTemp.name() {
            Some(Field::AirTemp)
        } else if name == Field::Humidity.name() {
            Some(Field::Humidity)
        } else if name == Field::GroundTemp.name() {
            Some(Field::GroundTemp)
        } else {
            None
        }
    }

    /// The name under which the field travels.
    pub fn as_str(self) -> (s: &'static str)
        ensures
            s@ == self.name(),
    {
        match self {
            Field::AirTemp => "air_temp",
            Field::Humidity => "humidity",
            Field::GroundTemp => "ground_temp",
        }
    }

    /// Looks a field up by its name.
    pub fn from_name(name: &str) -> (r: Option<Field>)
        ensures
            r == Field::named(name@),
    {
        if same_text(name, "air_temp") {
            Some(Field::AirTemp)
        } else if same_text(name, "humidity") {
            Some(Field::Humidity)
        } else if same_text(name, "ground_temp") {
            Some(Field::GroundTemp)
        } else {
            None
        }
    }
}

impl SensorReading {
    /// Creates a reading from its three components.
    pub fn new(air_temp: i8, humidity: i8, ground_temp: i8) -> (r: SensorReading)
        ensures
            r == (SensorReading { air_temp, humidity, ground_temp }),
    {
        SensorReading { air_temp, humidity, ground_temp }
    }

    /// The component that `field` selects.
    pub open spec fn component(self, field: Field) -> i8 {
        match field {
            Field::AirTemp => self.air_temp,
            Field::Humidity => self.humidity,
            Field::GroundTemp => self.ground_temp,
        }
    }

    /// Reads the component that `field` selects.
    pub fn get(&self, field: Field) -> (v: i8)
        ensures
            v == self.component(field),
    {
        match field {
            Field::AirTemp => self.air_temp,
            Field::Humidity => self.humidity,
            Field::GroundTemp => self.ground_temp,
        }
    }
}

impl DecodeError {
    /// The field that the error is about.
    pub open spec fn subject(self) -> Field {
        match self {
            DecodeError::Missing(f) => f,
            DecodeError::Duplicate(f) => f,
            DecodeError::Malformed(f) => f,
            DecodeError::OutOfRange(f) => f,
        }
    }

    /// A sentence for the caller that says what is wrong.
    pub open spec fn description(self) -> Seq<char> {
        match self {
            DecodeError::Missing(f) => "missing field `"@ + f.name() + "`"@,
            DecodeError::Duplicate(f) => "duplicate field `"@ + f.name() + "`"@,
            DecodeError::Malformed(f) => "field `"@ + f.name() + "` is not an integer"@,
            DecodeError::OutOfRange(f) => "field `"@ + f.name() + "` is out of range"@,
        }
    }

    /// Reads the field that the error is about.
    pub fn field(&self) -> (f: Field)
        ensures
            f == self.subject(),
    {
        match self {
            DecodeError::Missing(f) => *f,
            DecodeError::Duplicate(f) => *f,
            DecodeError::Malformed(f) => *f,
            DecodeError::OutOfRange(f) => *f,
        }
    }

    /// Writes the sentence that says what is wrong.
    pub fn describe(&self) -> (s: String)
        ensures
            s@ == self.description(),
    {
        match self {
            DecodeError::Missing(f) => {
                let mut s = "missing field `".to_owned();
                s.append(f.as_str());
                s.append("`");
                s
            },
            DecodeError::Duplicate(f) => {
                let mut s = "duplicate field `".to_owned();
                s.append(f.as_str());
                s.append("`");
                s
            },
            DecodeError::Malformed(f) => {
                let mut s = "field `".to_owned();
                s.append(f.as_str());
                s.append("` is not an integer");
                s
            },
            DecodeError::OutOfRange(f) => {
                let mut s = "field `".to_owned();
                s.append(f.as_str());
                s.append("` is out of range");
                s
            },
        }
    }
}

/// The three field names differ, so a name belongs to one field at most.
pub proof fn lemma_field_of_its_name(field: Field)
    ensures
        Field::named(field.name()) == Some(field),
{
    reveal_strlit("air_temp");
    reveal_strlit("humidity");
    reveal_strlit("ground_temp");
    assert("air_temp"@[0] != "humidity"@[0]);
    assert("air_temp"@.len() != "ground_temp"@.len());
    assert("humidity"@.len() != "ground_temp"@.len());
}

/// The parameters that a list of owned pairs stands for.
pub open spec fn params_of(pairs: Seq<(String, String)>) -> Params {
    Seq::new(pairs.len(), |i: int| (pairs[i].0@, pairs[i].1@))
}

/// Whether parameter `i` carries the name of `field`.
pub open spec fn names(params: Params, i: int, field: Field) -> bool {
    0 <= i < params.len() && params[i].0 == field.name()
}

/// Whether some parameter carries the name of `field`.
pub open spec fn present(params: Params, field: Field) -> bool {
    exists|i: int| names(params, i, field)
}

/// Whether a parameter before position `i` carries the name of `field`.
pub open spec fn seen_before(params: Params, i: int, field: Field) -> bool {
    exists|j: int| j < i && names(params, j, field)
}

/// What is wrong with parameter `i`, given those before it: it repeats a
/// field's name, or it carries a field's name with a value that is no signed
/// 8-bit integer. Parameters under other names are never wrong.
pub open spec fn fault_at(params: Params, i: int) -> Option<DecodeError> {
    match Field::named(params[i].0) {
        None => None,
        Some(field) => if seen_before(params, i, field) {
            Some(DecodeError::Duplicate(field))
        } else {
            match i8_of_text(params[i].1) {
                Ok(_) => None,
                Err(NumberError::Malformed) => Some(DecodeError::Malformed(field)),
                Err(NumberError::OutOfRange) => Some(DecodeError::OutOfRange(field)),
            }
        },
    }
}

/// Whether parameter `i` is wrong and none before it is.
pub open spec fn first_fault_at(params: Params, i: int) -> bool {
    &&& 0 <= i < params.len()
    &&& fault_at(params, i) is Some
    &&& forall|j: int| 0 <= j < i ==> #[trigger] fault_at(params, j) is None
}

/// Whether some parameter is wrong.
pub open spec fn has_fault(params: Params) -> bool {
    exists|i: int| 0 <= i < params.len() && #[trigger] fault_at(params, i) is Some
}

/// The integer that the parameters carry for `field`, where exactly one
/// parameter has its name and that one holds an integer.
pub open spec fn value_of(params: Params, field: Field) -> i8 {
    let i = choose|i: int| names(params, i, field);
    match i8_of_text(params[i].1) {
        Ok(v) => v,
        Err(_) => 0,
    }
}

/// The reading that a list of parameters denotes, or what keeps it from
/// denoting one: the fault of the leftmost wrong parameter; where no
/// parameter is wrong, the first field, in the order air temperature,
/// humidity, ground temperature, that no parameter names.
pub open spec fn decode_pairs(params: Params) -> Result<SensorReading, DecodeError> {
    if has_fault(params) {
        let i = choose|i: int| first_fault_at(params, i);
        Err(fault_at(params, i)->0)
    } else if !present(params, Field::AirTemp) {
        Err(DecodeError::Missing(Field::AirTemp))
    } else if !present(params, Field::Humidity) {
        Err(DecodeError::Missing(Field::Humidity))
    } else if !present(params, Field::GroundTemp) {
        Err(DecodeError::Missing(Field::GroundTemp))
    } else {
        Ok(
            SensorReading {
                air_temp: value_of(params, Field::AirTemp),
                humidity: value_of(params, Field::Humidity),
                ground_temp: value_of(params, Field::GroundTemp),
            },
        )
    }
}

/// The values read so far, one slot for each field.
struct Partial {
    air_temp: Option<i8>,
    humidity: Option<i8>,
    ground_temp: Option<i8>,
}

impl Partial {
    spec fn slot(self, field: Field) -> Option<i8> {
        match field {
            Field::AirTemp => self.air_temp,
            Field::Humidity => self.humidity,
            Field::GroundTemp => self.ground_temp,
        }
    }

    fn empty() -> (p: Partial)
        ensures
            forall|f: Field| p.slot(f) is None,
    {
        Partial { air_temp: None, humidity: None, ground_temp: None }
    }

    fn get(&self, field: Field) -> (v: Option<i8>)
        ensures
            v == self.slot(field),
    {
        match field {
            Field::AirTemp => self.air_temp,
            Field::Humidity => self.humidity,
            Field::GroundTemp => self.ground_temp,
        }
    }

    fn put(&mut self, field: Field, value: i8)
        ensures
            final(self).slot(field) == Some(value),
            forall|f: Field| f != field ==> final(self).slot(f) == old(self).slot(f),
    {
        match field {
            Field::AirTemp => {
                self.air_temp = Some(value);
            },
            Field::Humidity => {
                self.humidity = Some(value);
            },
            Field::GroundTemp => {
                self.ground_temp = Some(value);
            },
        }
    }
}

/// Whether parameter `j` carries the name of `field` and the text of `v`.
spec fn reads(params: Params, j: int, field: Field, v: i8) -> bool {
    names(params, j, field) && i8_of_text(params[j].1) == Ok::<i8, NumberError>(v)
}

/// Whether `slot` is what the parameters before position `upto` hold for
/// `field`: nothing where none of them names it, else the integer of the
/// parameter at position `at`.
spec fn holds(params: Params, upto: int, field: Field, slot: Option<i8>, at: int) -> bool {
    match slot {
        None => !seen_before(params, upto, field),
        Some(v) => at < upto && reads(params, at, field, v),
    }
}

/// The leftmost wrong parameter decides the result.
proof fn lemma_first_fault_decides(params: Params, i: int)
    requires
        first_fault_at(params, i),
    ensures
        decode_pairs(params) == Err::<SensorReading, DecodeError>(fault_at(params, i)->0),
{
    let c = choose|c: int| first_fault_at(params, c);
    if c < i {
        assert(fault_at(params, c) is None);
    }
    if i < c {
        assert(fault_at(params, i) is None);
    }
}

/// Where no parameter is wrong, a field's name occurs once at most.
proof fn lemma_single_occurrence(params: Params, field: Field, a: int, b: int)
    requires
        !has_fault(params),
        names(params, a, field),
        names(params, b, field),
    ensures
        a == b,
{
    lemma_field_of_its_name(field);
    if a < b {
        assert(seen_before(params, b, field));
        assert(fault_at(params, b) is Some);
    }
    if b < a {
        assert(seen_before(params, a, field));
        assert(fault_at(params, a) is Some);
    }
}

/// Where no parameter is wrong, the value of a field is the integer of the
/// one parameter that names it.
proof fn lemma_value_of_occurrence(params: Params, field: Field, i: int, v: i8)
    requires
        !has_fault(params),
        reads(params, i, field, v),
    ensures
        value_of(params, field) == v,
{
    let c = choose|c: int| names(params, c, field);
    lemma_single_occurrence(params, field, c, i);
}

/// A parameter under another name leaves what is held for `field` as it was.
proof fn lemma_holds_extends(params: Params, upto: int, field: Field, slot: Option<i8>, at: int)
    requires
        holds(params, upto, field, slot, at),
        !names(params, upto, field),
    ensures
        holds(params, upto + 1, field, slot, at),
{
    if slot is None && seen_before(params, upto + 1, field) {
        let j = choose|j: int| j < upto + 1 && names(params, j, field);
        assert(j < upto && names(params, j, field));
    }
}

/// What is held for a field once all parameters are read, in a list without
/// a wrong parameter: nothing where the field is absent, else its value.
proof fn lemma_holds_at_end(params: Params, field: Field, slot: Option<i8>, at: int)
    requires
        !has_fault(params),
        holds(params, params.len() as int, field, slot, at),
    ensures
        slot is None <==> !present(params, field),
        slot matches Some(v) ==> value_of(params, field) == v,
{
    match slot {
        None => {
            if present(params, field) {
                let j = choose|j: int| names(params, j, field);
                assert(j < params.len() && names(params, j, field));
            }
        },
        Some(v) => {
            lemma_value_of_occurrence(params, field, at, v);
        },
    }
}

/// Decodes a reading from a list of parameters.
pub fn reading_from_pairs(pairs: &Vec<(String, String)>) -> (r: Result<SensorReading, DecodeError>)
    ensures
        r == decode_pairs(params_of(pairs@)),
{
    let ghost params = params_of(pairs@);
    let ghost mut found: spec_fn(Field) -> int = |f: Field| 0int;
    let mut partial = Partial::empty();
    let mut i: usize = 0;
    while i < pairs.len()
        invariant
            i <= pairs.len(),
            params == params_of(pairs@),
            forall|j: int| 0 <= j < i ==> #[trigger] fault_at(params, j) is None,
            forall|f: Field| holds(params, i as int, f, #[trigger] partial.slot(f), found(f)),
        decreases pairs.len() - i,
    {
        let name = pairs[i].0.as_str();
        let value = pairs[i].1.as_str();
        assert(params[i as int] == (name@, value@));
        let ghost before = partial;
        let ghost found_before = found;
        match Field::from_name(name) {
            None => {
                assert forall|f: Field|
                    holds(params, i + 1, f, #[trigger] partial.slot(f), found(f)) by {
                    lemma_field_of_its_name(f);
                    lemma_holds_extends(params, i as int, f, partial.slot(f), found(f));
                }
            },
            Some(field) => {
                assert(holds(params, i as int, field, partial.slot(field), found(field)));
                assert(names(params, i as int, field));
                if partial.get(field).is_some() {
                    proof {
                        assert(seen_before(params, i as int, field));
                        lemma_first_fault_decides(params, i as int);
                    }
                    return Err(DecodeError::Duplicate(field));
                }
                match parse_i8(value) {
                    Err(NumberError::Malformed) => {
                        proof {
                            lemma_first_fault_decides(params, i as int);
                        }
                        return Err(DecodeError::Malformed(field));
                    },
                    Err(NumberError::OutOfRange) => {
                        proof {
                            lemma_first_fault_decides(params, i as int);
                        }
                        return Err(DecodeError::OutOfRange(field));
                    },
                    Ok(v) => {
                        partial.put(field, v);
                        proof {
                            found =
                            |f: Field|
                                if f == field {
                                    i as int
                                } else {
                                    found_before(f)
                                };
                        }
                        assert forall|f: Field|
                            holds(params, i + 1, f, #[trigger] partial.slot(f), found(f)) by {
                            if f != field {
                                assert(holds(
                                    params,
                                    i as int,
                                    f,
                                    before.slot(f),
                                    found_before(f),
                                ));
                                lemma_field_of_its_name(f);
                                lemma_field_of_its_name(field);
                                lemma_holds_extends(
                                    params,
                                    i as int,
                                    f,
                                    before.slot(f),
                                    found_before(f),
                                );
                            }
                        }
                    },
                }
            },
        }
        i += 1;
    }
    proof {
        assert(!has_fault(params));
        lemma_holds_at_end(
            params,
            Field::AirTemp,
            partial.slot(Field::AirTemp),
            found(Field::AirTemp),
        );
        lemma_holds_at_end(
            params,
            Field::Humidity,
            partial.slot(Field::Humidity),
            found(Field::Humidity),
        );
        lemma_holds_at_end(
            params,
            Field::GroundTemp,
            partial.slot(Field::GroundTemp),
            found(Field::GroundTemp),
        );
    }
    match (partial.air_temp, partial.humidity, partial.ground_temp) {
        (None, _, _) => Err(DecodeError::Missing(Field::AirTemp)),
        (Some(_), None, _) => Err(DecodeError::Missing(Field::Humidity)),
        (Some(_), Some(_), None) => Err(DecodeError::Missing(Field::GroundTemp)),
        (Some(air_temp), Some(humidity), Some(ground_temp)) => Ok(
            SensorReading { air_temp, humidity, ground_temp },
        ),
    }
}

/// Whether exactly one parameter carries the name of `field`, and `text` is
/// its value.
pub open spec fn carries(params: Params, field: Field, text: Seq<char>) -> bool {
    exists|i: int|
        names(params, i, field) && params[i].1 == text && forall|j: int|
            names(params, j, field) ==> j == i
}

/// Whether exactly one parameter carries the name of `field`, and its value
/// is the text of a signed 8-bit integer.
pub open spec fn settles(params: Params, field: Field) -> bool {
    exists|i: int|
        names(params, i, field) && i8_of_text(params[i].1) is Ok && forall|j: int|
            names(params, j, field) ==> j == i
}

/// Whether the parameters are a reading: each of the three names occurs
/// exactly once, with the text of a signed 8-bit integer.
pub open spec fn acceptable(params: Params) -> bool {
    &&& settles(params, Field::AirTemp)
    &&& settles(params, Field::Humidity)
    &&& settles(params, Field::GroundTemp)
}

/// Parameters in which each of the three names occurs exactly once, with the
/// decimal writing of an integer from -128 to 127, decode to the reading of
/// those three integers. The order of the parameters does not matter, nor do
/// parameters under other names.
pub proof fn lemma_in_range_values_decode(params: Params, a: int, h: int, g: int)
    requires
        -128 <= a <= 127,
        -128 <= h <= 127,
        -128 <= g <= 127,
        carries(params, Field::AirTemp, decimal_text(a)),
        carries(params, Field::Humidity, decimal_text(h)),
        carries(params, Field::GroundTemp, decimal_text(g)),
    ensures
        decode_pairs(params) == Ok::<SensorReading, DecodeError>(
            SensorReading { air_temp: a as i8, humidity: h as i8, ground_temp: g as i8 },
        ),
{
    lemma_i8_round_trip(a as i8);
    lemma_i8_round_trip(h as i8);
    lemma_i8_round_trip(g as i8);
    let text = |f: Field|
        match f {
            Field::AirTemp => decimal_text(a),
            Field::Humidity => decimal_text(h),
            Field::GroundTemp => decimal_text(g),
        };
    assert forall|k: int| 0 <= k < params.len() implies #[trigger] fault_at(params, k) is None by {
        match Field::named(params[k].0) {
            None => {},
            Some(f) => {
                assert(carries(params, f, text(f)));
                assert(names(params, k, f));
                if seen_before(params, k, f) {
                    let j = choose|j: int| j < k && names(params, j, f);
                    assert(names(params, j, f));
                }
            },
        }
    }
    assert(!has_fault(params));
    let ia = choose|i: int|
        names(params, i, Field::AirTemp) && params[i].1 == decimal_text(a) && forall|j: int|
            names(params, j, Field::AirTemp) ==> j == i;
    let ih = choose|i: int|
        names(params, i, Field::Humidity) && params[i].1 == decimal_text(h) && forall|j: int|
            names(params, j, Field::Humidity) ==> j == i;
    let ig = choose|i: int|
        names(params, i, Field::GroundTemp) && params[i].1 == decimal_text(g) && forall|j: int|
            names(params, j, Field::GroundTemp) ==> j == i;
    lemma_value_of_occurrence(params, Field::AirTemp, ia, a as i8);
    lemma_value_of_occurrence(params, Field::Humidity, ih, h as i8);
    lemma_value_of_occurrence(params, Field::GroundTemp, ig, g as i8);
}

/// Parameters are rejected where one of them carries a field's name with a
/// value that is no signed 8-bit integer, be it malformed or out of range.
pub proof fn lemma_invalid_value_rejected(params: Params, i: int, field: Field)
    requires
        names(params, i, field),
        i8_of_text(params[i].1) is Err,
    ensures
        decode_pairs(params) is Err,
{
    lemma_field_of_its_name(field);
    assert(fault_at(params, i) is Some);
}

/// Parameters are rejected where one of them carries a field's name with the
/// decimal writing of an integer below -128 or above 127.
pub proof fn lemma_out_of_range_value_rejected(params: Params, i: int, field: Field, n: int)
    requires
        names(params, i, field),
        params[i].1 == decimal_text(n),
        n < -128 || n > 127,
    ensures
        decode_pairs(params) is Err,
{
    lemma_i8_out_of_range(n);
    lemma_invalid_value_rejected(params, i, field);
}

/// Parameters are rejected where none of them carries the name of one of the
/// three fields.
pub proof fn lemma_missing_field_rejected(params: Params, field: Field)
    requires
        !present(params, field),
    ensures
        decode_pairs(params) is Err,
{
}

/// Parameters are rejected where two of them carry the name of one field.
pub proof fn lemma_repeated_field_rejected(params: Params, i: int, j: int, field: Field)
    requires
        names(params, i, field),
        names(params, j, field),
        i != j,
    ensures
        decode_pairs(params) is Err,
{
    if !has_fault(params) {
        lemma_single_occurrence(params, field, i, j);
    }
}

/// In parameters without a wrong one, a field that is present is settled.
proof fn lemma_present_settles(params: Params, field: Field)
    requires
        !has_fault(params),
        present(params, field),
    ensures
        settles(params, field),
{
    let i = choose|i: int| names(params, i, field);
    lemma_field_of_its_name(field);
    assert(fault_at(params, i) is None);
    assert forall|j: int| names(params, j, field) implies j == i by {
        lemma_single_occurrence(params, field, i, j);
    }
}

/// Parameters decode to a reading exactly where they are acceptable.
pub proof fn lemma_accepted_iff_acceptable(params: Params)
    ensures
        decode_pairs(params) is Ok <==> acceptable(params),
{
    if acceptable(params) {
        assert forall|k: int| 0 <= k < params.len() implies #[trigger] fault_at(params, k) is None by {
            match Field::named(params[k].0) {
                None => {},
                Some(f) => {
                    assert(settles(params, f));
                    assert(names(params, k, f));
                    if seen_before(params, k, f) {
                        let j = choose|j: int| j < k && names(params, j, f);
                        assert(names(params, j, f));
                    }
                },
            }
        }
    }
    if decode_pairs(params) is Ok {
        lemma_present_settles(params, Field::AirTemp);
        lemma_present_settles(params, Field::Humidity);
        lemma_present_settles(params, Field::GroundTemp);
    }
}

} // verus!
