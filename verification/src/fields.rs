//! From the text fields of a table row to a service.

use vstd::prelude::*;
use crate::clock::ClockTime;
use crate::clock::parse_time;
use crate::clock::parsed_clock;
use crate::flow::TrainService;

verus! {

/// The least number of fields of a row that holds a service.
pub const SERVICE_FIELDS: usize = 23;

/// Whether every character is a decimal digit.
pub open spec fn all_digits(text: Seq<char>) -> bool {
    forall|i: int| 0 <= i < text.len() ==> '0' <= #[trigger] text[i] <= '9'
}

/// The number that a run of decimal digits writes.
pub open spec fn digits_value(text: Seq<char>) -> nat
    decreases text.len(),
{
    if text.len() == 0 {
        0
    } else {
        digits_value(text.drop_last()) * 10 + (text.last() as nat - '0' as nat) as nat
    }
}

/// The count that a text writes: an optional `+`, then at least one decimal
/// digit and nothing else, the number fitting 32 bits.
pub open spec fn count_of_text(text: Seq<char>) -> Option<u32> {
    let digits = if text.len() > 0 && text[0] == '+' {
        text.skip(1)
    } else {
        text
    };
    if digits.len() > 0 && all_digits(digits) && digits_value(digits) <= u32::MAX {
        Some(digits_value(digits) as u32)
    } else {
        None
    }
}

/// The count that a text writes, zero where it writes none.
pub open spec fn count_or_zero(text: Seq<char>) -> u32 {
    match count_of_text(text) {
        Some(n) => n,
        None => 0,
    }
}

/// The service that the fields of a row describe, if both of its times
/// read: the train number in field 4, the station in field 9, arrival and
/// departure in fields 14 and 15, boardings, alightings, arrival load and
/// departure load in fields 19 to 22.
pub open spec fn service_of_fields(fields: Seq<String>) -> Option<TrainService> {
    match (parsed_clock(fields[14]@), parsed_clock(fields[15]@)) {
        (Some(arrival), Some(departure)) => Some(
            TrainService {
                train_number: count_or_zero(fields[4]@),
                station_name: fields[9],
                arrival_time: arrival,
                departure_time: departure,
                boardings: count_or_zero(fields[19]@),
                alightings: count_or_zero(fields[20]@),
                arrival_load: count_or_zero(fields[21]@),
                departure_load: count_or_zero(fields[22]@),
            },
        ),
        _ => None,
    }
}

/// Reads a count with std's `str::parse::<u32>`. Trusted: as std documents
/// it, the text is an optional `+` sign followed by decimal digits only, at
/// least one of them, and a number that does not fit is an error.
#[verifier::external_body]
fn read_count(text: &str) -> (r: Option<u32>)
    ensures
        r == count_of_text(text@),
{
    match text.parse::<u32>() {
        Ok(n) => Some(n),
        Err(_) => None,
    }
}

/// Reads a count, taking zero for a text that writes none.
pub fn parse_count(text: &str) -> (r: u32)
    ensures
        r == count_or_zero(text@),
{
    match read_count(text) {
        Some(n) => n,
        None => 0,
    }
}

/// Builds the service of a row from its text fields. A row whose arrival or
/// departure time does not read gives no service; a count that does not
/// read is taken as zero.
pub fn service_from_fields(fields: &Vec<String>) -> (r: Option<TrainService>)
    requires
        fields@.len() >= SERVICE_FIELDS,
    ensures
        r == service_of_fields(fields@),
        r matches Some(service) ==> service.wf(),
{
    let arrival: Option<ClockTime> = parse_time(fields[14].as_str());
    let departure: Option<ClockTime> = parse_time(fields[15].as_str());
    match (arrival, departure) {
        (Some(arrival_time), Some(departure_time)) => Some(
            TrainService {
                train_number: parse_count(fields[4].as_str()),
                station_name: fields[9].clone(),
                arrival_time,
                departure_time,
                boardings: parse_count(fields[19].as_str()),
                alightings: parse_count(fields[20].as_str()),
                arrival_load: parse_count(fields[21].as_str()),
                departure_load: parse_count(fields[22].as_str()),
            },
        ),
        _ => None,
    }
}

} // verus!
