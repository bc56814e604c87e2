use transit_histogram::aggregate::Event;
use transit_histogram::bucket::{bucket_index, ConfigurationError};
use transit_histogram::fields::{parse_count, service_from_fields};
use transit_histogram::histogram::{HistogramKey, LineHistogram};
use transit_histogram::series::{
    axis_top, bucket_start, cumulative, get_color_palette, peak, series_color, table_peak, Rgb,
};
use transit_histogram::summary::{line_totals, ALIGHTINGS, BOARDINGS, COLUMNS, MOVEMENTS, SERVICES};

fn event(line: &str, boardings: u32, alightings: u32) -> Event {
    Event {
        business_date: "2022-09-12".to_string(),
        line_name: line.to_string(),
        scheduled_departure_time: "not a time".to_string(),
        boardings,
        alightings,
    }
}

fn row(line: &str, counts: Vec<u128>) -> LineHistogram {
    LineHistogram { key: HistogramKey { date: None, line: line.to_string() }, counts }
}

#[test]
fn cumulative_is_the_running_total() {
    assert_eq!(cumulative(&vec![1, 0, 4, 2]), Some(vec![1, 1, 5, 7]));
    assert_eq!(cumulative(&Vec::new()), Some(Vec::new()));
    assert_eq!(cumulative(&vec![u128::MAX, 0]), Some(vec![u128::MAX, u128::MAX]));
}

#[test]
fn cumulative_refuses_a_total_that_does_not_fit() {
    assert_eq!(cumulative(&vec![u128::MAX, 1]), None);
    assert_eq!(cumulative(&vec![1, u128::MAX, 0]), None);
}

#[test]
fn peak_is_the_greatest_count() {
    assert_eq!(peak(&vec![1, 9, 4]), 9);
    assert_eq!(peak(&vec![0, 0]), 0);
    assert_eq!(peak(&Vec::new()), 0);
    assert_eq!(peak(&vec![7]), 7);
}

#[test]
fn table_peak_is_the_greatest_count_of_all_rows() {
    let rows = vec![row("a", vec![1, 2]), row("b", vec![8, 0]), row("c", vec![])];
    assert_eq!(table_peak(&rows), 8);
    assert_eq!(table_peak(&Vec::new()), 0);
    assert_eq!(table_peak(&vec![row("c", vec![])]), 0);
}

#[test]
fn axis_top_leaves_a_tenth_of_head_room() {
    assert_eq!(axis_top(0), Some(1));
    assert_eq!(axis_top(9), Some(10));
    assert_eq!(axis_top(100), Some(111));
    assert_eq!(axis_top(u128::MAX), None);
}

#[test]
fn palette_has_twenty_colours_and_starts_over() {
    let palette = get_color_palette();
    assert_eq!(palette.len(), 20);
    assert_eq!(palette[0], Rgb { red: 255, green: 0, blue: 0 });
    assert_eq!(palette[3], Rgb { red: 255, green: 165, blue: 0 });
    assert_eq!(palette[19], Rgb { red: 255, green: 99, blue: 71 });
    assert_eq!(series_color(0), palette[0]);
    assert_eq!(series_color(20), palette[0]);
    assert_eq!(series_color(39), palette[19]);
}

#[test]
fn bucket_start_inverts_bucket_index() {
    assert_eq!(bucket_start(0, 96).unwrap().millis(), 0);
    assert_eq!(bucket_start(1, 96).unwrap().millis(), 900_000);
    assert_eq!(bucket_start(95, 96).unwrap().millis(), 85_500_000);
    assert_eq!(bucket_start(1, 7).unwrap().millis(), 12_342_857);
    for g in [1usize, 7, 24, 96, 288, 1440] {
        for b in 0..g {
            assert_eq!(bucket_index(bucket_start(b, g).unwrap(), g), Ok(b));
        }
    }
}

#[test]
fn bucket_start_refuses_a_bucket_that_is_not_there() {
    assert_eq!(bucket_start(96, 96), Err(ConfigurationError::NoBuckets));
    assert_eq!(bucket_start(0, 0), Err(ConfigurationError::NoBuckets));
}

#[test]
fn line_totals_sum_every_event_of_a_line() {
    let events = vec![event("A", 1, 2), event("B", 10, 0), event("A", 5, 5), event("a", 0, 0)];
    let totals = line_totals(&events);
    assert_eq!(totals.buckets, COLUMNS);
    assert_eq!(totals.len(), 3);
    let a = totals.get(&None, &"A".to_string()).unwrap();
    assert_eq!((a[BOARDINGS], a[ALIGHTINGS], a[MOVEMENTS], a[SERVICES]), (6, 7, 13, 2));
    let b = totals.get(&None, &"B".to_string()).unwrap();
    assert_eq!(b, &vec![10, 0, 10, 1]);
    assert_eq!(totals.get(&None, &"a".to_string()), Some(&vec![0, 0, 0, 1]));
    assert_eq!(totals.get(&None, &"C".to_string()), None);
    assert_eq!(line_totals(&Vec::new()).len(), 0);
}

#[test]
fn counts_read_as_decimal_digits_or_zero() {
    assert_eq!(parse_count("42"), 42);
    assert_eq!(parse_count("+42"), 42);
    assert_eq!(parse_count("007"), 7);
    assert_eq!(parse_count("4294967295"), u32::MAX);
    assert_eq!(parse_count("4294967296"), 0);
    assert_eq!(parse_count(""), 0);
    assert_eq!(parse_count("+"), 0);
    assert_eq!(parse_count("-1"), 0);
    assert_eq!(parse_count(" 1"), 0);
    assert_eq!(parse_count("1.5"), 0);
    assert_eq!(parse_count("++1"), 0);
}

#[test]
fn service_is_built_from_the_fields_of_a_row() {
    let mut fields: Vec<String> = (0..23).map(|_| String::new()).collect();
    fields[4] = "1234".to_string();
    fields[9] = "Flinders Street".to_string();
    fields[14] = "08:00:00".to_string();
    fields[15] = "08:10:00".to_string();
    fields[19] = "10".to_string();
    fields[20] = "x".to_string();
    fields[21] = "40".to_string();
    fields[22] = "50".to_string();
    let service = service_from_fields(&fields).unwrap();
    assert_eq!(service.train_number, 1234);
    assert_eq!(service.station_name, "Flinders Street");
    assert_eq!(service.arrival_time.num_seconds_from_midnight(), 28_800);
    assert_eq!(service.departure_time.num_seconds_from_midnight(), 29_400);
    assert_eq!(
        (service.boardings, service.alightings, service.arrival_load, service.departure_load),
        (10, 0, 40, 50)
    );
    fields[15] = "late".to_string();
    assert!(service_from_fields(&fields).is_none());
    fields[15] = "08:10:00".to_string();
    fields[14] = "".to_string();
    assert!(service_from_fields(&fields).is_none());
}
