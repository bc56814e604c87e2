use transit_histogram::aggregate::{
    aggregate, aggregate_resolved, resolve, selected_date, DateMode, Event, Options, Resolved,
};
use transit_histogram::bucket::ConfigurationError;
use transit_histogram::clock::ClockTime;
use transit_histogram::histogram::HistogramTable;

fn event(date: &str, line: &str, time: &str, boardings: u32, alightings: u32) -> Event {
    Event {
        business_date: date.to_string(),
        line_name: line.to_string(),
        scheduled_departure_time: time.to_string(),
        boardings,
        alightings,
    }
}

fn options(granularity: usize, filter: Option<&str>, date_mode: DateMode) -> Options {
    Options { granularity, line_filter: filter.map(|s| s.to_string()), date_mode }
}

fn counts(table: &HistogramTable, date: Option<&str>, line: &str) -> Option<Vec<u128>> {
    table.get(&date.map(|d| d.to_string()), &line.to_string()).cloned()
}

fn keys(table: &HistogramTable) -> Vec<(Option<String>, String)> {
    let mut keys: Vec<(Option<String>, String)> =
        table.entries.iter().map(|e| (e.key.date.clone(), e.key.line.clone())).collect();
    keys.sort();
    keys
}

fn one_hot(len: usize, at: usize, value: u128) -> Vec<u128> {
    let mut v = vec![0u128; len];
    v[at] = value;
    v
}

#[test]
fn first_seen_date_hourly_scenario() {
    let events = vec![
        event("2022-09-12", "X", "03:00:00", 5, 0),
        event("2022-09-12", "X", "03:10:00", 3, 2),
        event("2022-09-13", "X", "04:00:00", 1, 1),
    ];
    let table = aggregate(&events, &options(24, None, DateMode::FirstSeenOnly)).unwrap();
    assert_eq!(table.len(), 1);
    assert_eq!(counts(&table, None, "X"), Some(one_hot(24, 0, 10)));
}

#[test]
fn malformed_time_is_dropped() {
    let events = vec![
        event("2022-09-12", "X", "25:61:00", 7, 7),
        event("2022-09-12", "Y", "", 1, 1),
        event("2022-09-12", "Z", "05:00:00", 2, 1),
    ];
    let table = aggregate(&events, &options(24, None, DateMode::FirstSeenOnly)).unwrap();
    assert_eq!(keys(&table), vec![(None, "Z".to_string())]);
    assert_eq!(counts(&table, None, "Z"), Some(one_hot(24, 2, 3)));
    assert_eq!(counts(&table, None, "X"), None);
}

#[test]
fn only_malformed_times_give_an_empty_table() {
    let events = vec![event("2022-09-12", "X", "25:61:00", 7, 7)];
    let table = aggregate(&events, &options(96, None, DateMode::AllDates)).unwrap();
    assert_eq!(table.len(), 0);
}

#[test]
fn empty_input_gives_an_empty_table() {
    let events: Vec<Event> = Vec::new();
    for mode in [DateMode::FirstSeenOnly, DateMode::AllDates] {
        let table = aggregate(&events, &options(96, None, mode)).unwrap();
        assert_eq!(table.len(), 0);
        let table = aggregate(&events, &options(96, Some("pakenham"), mode)).unwrap();
        assert_eq!(table.len(), 0);
    }
}

#[test]
fn zero_granularity_is_refused() {
    let events = vec![event("2022-09-12", "X", "03:00:00", 5, 0)];
    let r = aggregate(&events, &options(0, None, DateMode::AllDates));
    assert_eq!(r.err(), Some(ConfigurationError::NoBuckets));
    let none: Vec<Event> = Vec::new();
    let r = aggregate(&none, &options(0, None, DateMode::AllDates));
    assert_eq!(r.err(), Some(ConfigurationError::NoBuckets));
}

#[test]
fn filter_keeps_one_line_under_its_folded_name() {
    let events = vec![
        event("2022-09-12", "Pakenham", "03:00:00", 5, 0),
        event("2022-09-12", "Frankston", "03:00:00", 9, 9),
        event("2022-09-12", "PAKENHAM", "03:20:00", 1, 2),
        event("2022-09-12", "pakenham", "12:00:00", 4, 4),
    ];
    let table = aggregate(&events, &options(96, Some("pakenham"), DateMode::FirstSeenOnly)).unwrap();
    assert_eq!(keys(&table), vec![(None, "pakenham".to_string())]);
    let mut expected = vec![0u128; 96];
    expected[0] = 5;
    expected[1] = 3;
    expected[36] = 8;
    assert_eq!(counts(&table, None, "pakenham"), Some(expected));
}

#[test]
fn filter_is_case_insensitive_on_both_sides() {
    let events = vec![event("2022-09-12", "pakenham", "03:00:00", 5, 0)];
    let table = aggregate(&events, &options(24, Some("PaKenHam"), DateMode::AllDates)).unwrap();
    assert_eq!(keys(&table), vec![(Some("2022-09-12".to_string()), "pakenham".to_string())]);
}

#[test]
fn filter_that_matches_no_line_is_refused() {
    let events = vec![event("2022-09-12", "Frankston", "03:00:00", 9, 9)];
    let r = aggregate(&events, &options(96, Some("pakenham"), DateMode::AllDates));
    assert_eq!(r.err(), Some(ConfigurationError::FilterMatchesNoLine));
}

#[test]
fn filter_matching_a_line_with_no_usable_time_gives_an_empty_table() {
    let events = vec![event("2022-09-12", "Pakenham", "nope", 9, 9)];
    let table = aggregate(&events, &options(96, Some("pakenham"), DateMode::AllDates)).unwrap();
    assert_eq!(table.len(), 0);
}

#[test]
fn without_filter_line_names_keep_their_case() {
    let events = vec![
        event("2022-09-12", "Pakenham", "03:00:00", 1, 0),
        event("2022-09-12", "pakenham", "03:00:00", 2, 0),
    ];
    let table = aggregate(&events, &options(24, None, DateMode::FirstSeenOnly)).unwrap();
    assert_eq!(table.len(), 2);
    assert_eq!(counts(&table, None, "Pakenham"), Some(one_hot(24, 0, 1)));
    assert_eq!(counts(&table, None, "pakenham"), Some(one_hot(24, 0, 2)));
}

#[test]
fn all_dates_keys_by_date_and_line() {
    let events = vec![
        event("2022-09-12", "X", "03:00:00", 5, 0),
        event("2022-09-13", "X", "04:00:00", 1, 1),
        event("2022-09-12", "Y", "02:59:00", 2, 0),
        event("2022-09-13", "X", "04:07:00", 1, 0),
    ];
    let table = aggregate(&events, &options(96, None, DateMode::AllDates)).unwrap();
    assert_eq!(table.len(), 3);
    assert_eq!(counts(&table, Some("2022-09-12"), "X"), Some(one_hot(96, 0, 5)));
    assert_eq!(counts(&table, Some("2022-09-13"), "X"), Some(one_hot(96, 4, 3)));
    assert_eq!(counts(&table, Some("2022-09-12"), "Y"), Some(one_hot(96, 95, 2)));
    assert_eq!(counts(&table, None, "X"), None);
}

#[test]
fn all_dates_result_does_not_depend_on_order() {
    let base = vec![
        event("2022-09-12", "X", "03:00:00", 5, 0),
        event("2022-09-13", "X", "04:00:00", 1, 1),
        event("2022-09-12", "Y", "02:59:00", 2, 0),
        event("2022-09-13", "X", "04:07:00", 1, 0),
        event("2022-09-12", "X", "03:05:00", 0, 4),
        event("2022-09-14", "Y", "bad", 3, 3),
    ];
    let opts = options(96, None, DateMode::AllDates);
    let reference = aggregate(&base, &opts).unwrap();
    let orders: [[usize; 6]; 4] =
        [[5, 4, 3, 2, 1, 0], [2, 0, 1, 5, 3, 4], [1, 3, 5, 0, 2, 4], [4, 0, 5, 1, 2, 3]];
    for order in orders {
        let shuffled: Vec<Event> = order.iter().map(|&i| base[i].clone()).collect();
        let table = aggregate(&shuffled, &opts).unwrap();
        assert_eq!(keys(&table), keys(&reference));
        for (date, line) in keys(&reference) {
            assert_eq!(table.get(&date, &line), reference.get(&date, &line));
        }
    }
}

#[test]
fn first_seen_date_is_the_first_of_the_input_not_the_earliest() {
    let events = vec![
        event("2022-09-13", "X", "03:00:00", 1, 0),
        event("2022-09-12", "X", "03:00:00", 5, 0),
    ];
    let table = aggregate(&events, &options(24, None, DateMode::FirstSeenOnly)).unwrap();
    assert_eq!(counts(&table, None, "X"), Some(one_hot(24, 0, 1)));
}

#[test]
fn first_seen_date_is_taken_even_from_an_event_that_is_left_out() {
    let events = vec![
        event("2022-09-13", "X", "bad", 1, 0),
        event("2022-09-12", "X", "03:00:00", 5, 0),
        event("2022-09-13", "X", "05:30:00", 2, 2),
    ];
    let table = aggregate(&events, &options(24, None, DateMode::FirstSeenOnly)).unwrap();
    assert_eq!(counts(&table, None, "X"), Some(one_hot(24, 2, 4)));
}

#[test]
fn hourly_granularity_drops_minutes() {
    let events = vec![
        event("2022-09-12", "X", "03:59:00", 1, 0),
        event("2022-09-12", "X", "00:30:00", 0, 2),
    ];
    let table = aggregate(&events, &options(24, None, DateMode::FirstSeenOnly)).unwrap();
    let mut expected = vec![0u128; 24];
    expected[0] = 1;
    expected[21] = 2;
    assert_eq!(counts(&table, None, "X"), Some(expected));
}

#[test]
fn large_counts_do_not_overflow() {
    let events = vec![
        event("d", "X", "03:00:00", u32::MAX, u32::MAX),
        event("d", "X", "03:00:00", u32::MAX, u32::MAX),
    ];
    let table = aggregate(&events, &options(24, None, DateMode::AllDates)).unwrap();
    assert_eq!(counts(&table, Some("d"), "X"), Some(one_hot(24, 0, 4 * (u32::MAX as u128))));
}

#[test]
fn resolve_folds_the_line_and_reads_the_time() {
    let r = resolve(&event("2022-09-12", "Pakenham", "08:00:00", 1, 2));
    assert_eq!(r.line, "Pakenham");
    assert_eq!(r.folded_line, "pakenham");
    assert_eq!(r.time, ClockTime::from_seconds(28_800));
    assert_eq!((r.boardings, r.alightings), (1, 2));
    let r = resolve(&event("2022-09-12", "Pakenham", "8 o'clock", 1, 2));
    assert_eq!(r.time, None);
}

#[test]
fn aggregate_resolved_counts_what_it_is_given() {
    let events = vec![
        Resolved {
            date: "d".to_string(),
            line: "A".to_string(),
            folded_line: "a".to_string(),
            time: ClockTime::from_hms(3, 8, 0),
            boardings: 2,
            alightings: 3,
        },
        Resolved {
            date: "d".to_string(),
            line: "B".to_string(),
            folded_line: "b".to_string(),
            time: None,
            boardings: 2,
            alightings: 3,
        },
    ];
    let table =
        aggregate_resolved(&events, 96, &Some("a".to_string()), DateMode::FirstSeenOnly).unwrap();
    assert_eq!(keys(&table), vec![(None, "a".to_string())]);
    assert_eq!(counts(&table, None, "a"), Some(one_hot(96, 1, 5)));
    let r = aggregate_resolved(&events, 96, &Some("c".to_string()), DateMode::FirstSeenOnly);
    assert_eq!(r.err(), Some(ConfigurationError::FilterMatchesNoLine));
}

#[test]
fn selected_date_is_that_of_the_first_event() {
    let events = vec![
        event("2022-09-13", "X", "bad", 1, 0),
        event("2022-09-12", "X", "03:00:00", 5, 0),
    ];
    assert_eq!(selected_date(&events, DateMode::FirstSeenOnly), Some("2022-09-13".to_string()));
    assert_eq!(selected_date(&events, DateMode::AllDates), None);
    assert_eq!(selected_date(&Vec::new(), DateMode::FirstSeenOnly), None);
}
