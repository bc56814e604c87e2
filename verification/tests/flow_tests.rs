use transit_histogram::clock::parse_time;
use transit_histogram::flow::{
    calculate_passenger_flow, estimate_flow, DegenerateInterval, FlowSample, TrainService,
};

fn service(arrival: &str, departure: &str, boardings: u32, alightings: u32, load: u32) -> TrainService {
    TrainService {
        train_number: 1,
        station_name: "Pakenham".to_string(),
        arrival_time: parse_time(arrival).unwrap(),
        departure_time: parse_time(departure).unwrap(),
        boardings,
        alightings,
        arrival_load: 0,
        departure_load: load,
    }
}

fn minutes(sample: &FlowSample) -> f64 {
    sample.time_centis as f64 / 6000.0
}

fn load(sample: &FlowSample) -> f64 {
    sample.load_hundredths as f64 / 100.0
}

#[test]
fn ten_minute_dwell_scenario() {
    let samples = estimate_flow(&service("08:00:00", "08:10:00", 10, 0, 50)).unwrap();
    assert_eq!(samples.len(), 100);
    assert_eq!(samples[0], FlowSample { time_centis: 2_880_000, load_hundredths: 5_000 });
    assert_eq!(minutes(&samples[0]), 480.0);
    assert_eq!(load(&samples[0]), 50.0);
    // the rate is (10 - 0) / (490 - 480) = 1 passenger a minute
    assert_eq!(minutes(&samples[50]), 485.0);
    assert_eq!(load(&samples[50]), 55.0);
    assert_eq!(samples[99], FlowSample { time_centis: 2_939_400, load_hundredths: 5_990 });
    assert!((minutes(&samples[99]) - 489.9).abs() < 1e-9);
    for pair in samples.windows(2) {
        assert_eq!(pair[1].time_centis - pair[0].time_centis, 600);
        assert_eq!(pair[1].load_hundredths - pair[0].load_hundredths, 10);
    }
}

#[test]
fn net_alightings_lower_the_load() {
    let samples = estimate_flow(&service("08:00:00", "08:01:40", 0, 20, 5)).unwrap();
    assert_eq!(samples[0].load_hundredths, 500);
    assert_eq!(samples[25].load_hundredths, 0);
    assert_eq!(samples[99].load_hundredths, 500 - 20 * 99);
    assert_eq!(samples[99].time_centis, 2_880_000 + 99 * 100);
}

#[test]
fn departure_before_arrival_runs_backwards() {
    let samples = estimate_flow(&service("00:00:10", "00:00:00", 1, 0, 0)).unwrap();
    assert_eq!(samples[0].time_centis, 1_000);
    assert_eq!(samples[99].time_centis, 10);
    assert_eq!(samples[99].load_hundredths, 99);
}

#[test]
fn zero_dwell_is_degenerate() {
    let r = estimate_flow(&service("08:00:00", "08:00:00", 10, 0, 50));
    assert_eq!(r, Err(DegenerateInterval));
}

#[test]
fn flows_are_concatenated_and_degenerate_services_skipped() {
    let services = vec![
        service("08:00:00", "08:10:00", 10, 0, 50),
        service("09:00:00", "09:00:00", 10, 0, 50),
        service("10:00:00", "10:00:01", 0, 0, 7),
    ];
    let first = estimate_flow(&services[0]).unwrap();
    let third = estimate_flow(&services[2]).unwrap();
    let all = calculate_passenger_flow(services);
    assert_eq!(all.len(), 200);
    assert_eq!(&all[..100], &first[..]);
    assert_eq!(&all[100..], &third[..]);
    assert_eq!(all[199], FlowSample { time_centis: 3_600_099, load_hundredths: 700 });
    assert_eq!(calculate_passenger_flow(Vec::new()), Vec::new());
}
