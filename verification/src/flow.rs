//! The passenger load of a service across its dwell at a station.

use vstd::prelude::*;
use crate::clock::ClockTime;

verus! {

/// Samples per service: the anchor and 99 interpolated points.
pub const SAMPLES_PER_SERVICE: usize = 100;

/// One train's visit to one station.
#[derive(Clone, Debug)]
pub struct TrainService {
    pub train_number: u32,
    pub station_name: String,
    pub arrival_time: ClockTime,
    pub departure_time: ClockTime,
    pub boardings: u32,
    pub alightings: u32,
    pub arrival_load: u32,
    pub departure_load: u32,
}

/// A point of a load curve, in fixed point: the time in hundredths of a
/// second since midnight (6000 to the minute), the load in hundredths of a
/// passenger.
#[derive(Clone, Copy, Debug, PartialEq, Eq, Structural)]
pub struct FlowSample {
    pub time_centis: u32,
    pub load_hundredths: i64,
}

/// A service that arrives and departs in the same second: its rate of
/// change is undefined.
#[derive(Clone, Copy, Debug, PartialEq, Eq, Structural)]
pub struct DegenerateInterval;

impl TrainService {
    pub open spec fn wf(self) -> bool {
        self.arrival_time.wf() && self.departure_time.wf()
    }

    /// Whether arrival and departure coincide.
    pub open spec fn degenerate(self) -> bool {
        self.arrival_time.seconds == self.departure_time.seconds
    }

    /// The time of sample `i`, a hundredth of the dwell after the one
    /// before, in hundredths of a second since midnight.
    pub open spec fn sample_time(self, i: int) -> int {
        self.arrival_time.seconds * 100 + (self.departure_time.seconds - self.arrival_time.seconds)
            * i
    }

    /// The load at sample `i` in hundredths of a passenger: the departure
    /// load plus the net boardings of `i` hundredths of the dwell.
    pub open spec fn sample_load(self, i: int) -> int {
        self.departure_load * 100 + (self.boardings - self.alightings) * i
    }

    /// Sample `i` of the service's curve.
    pub open spec fn sample(self, i: int) -> FlowSample {
        FlowSample {
            time_centis: self.sample_time(i) as u32,
            load_hundredths: self.sample_load(i) as i64,
        }
    }

    /// The curve of the service: 100 samples from the arrival on.
    pub open spec fn flow(self) -> Seq<FlowSample> {
        Seq::new(100, |i: int| self.sample(i))
    }
}

/// The curves of the services that have one, one after the other.
pub open spec fn flow_of_all(services: Seq<TrainService>) -> Seq<FlowSample>
    decreases services.len(),
{
    if services.len() == 0 {
        Seq::empty()
    } else if services.last().degenerate() {
        flow_of_all(services.drop_last())
    } else {
        flow_of_all(services.drop_last()) + services.last().flow()
    }
}

/// Every sample lies between arrival and departure and fits its fields.
pub proof fn lemma_sample_in_range(service: TrainService, i: int)
    requires
        service.wf(),
        0 <= i < 100,
    ensures
        0 <= service.sample_time(i) < 8_640_000,
        service.arrival_time.seconds <= service.departure_time.seconds ==> service.arrival_time.seconds
            * 100 <= service.sample_time(i) <= service.departure_time.seconds * 100,
        service.departure_time.seconds <= service.arrival_time.seconds ==> service.departure_time.seconds
            * 100 <= service.sample_time(i) <= service.arrival_time.seconds * 100,
        -0x64_0000_0000 < service.sample_load(i) < 0xc8_0000_0000,
{
    let a = service.arrival_time.seconds as int;
    let d = service.departure_time.seconds as int;
    let net = service.boardings as int - service.alightings as int;
    assert(a <= d ==> 0 <= (d - a) * i <= (d - a) * 100) by (nonlinear_arith)
        requires
            0 <= i < 100,
    ;
    assert(d <= a ==> (d - a) * 100 <= (d - a) * i <= 0) by (nonlinear_arith)
        requires
            0 <= i < 100,
    ;
    assert(-0x1_0000_0000 * 100 < net * i < 0x1_0000_0000 * 100) by (nonlinear_arith)
        requires
            0 <= i < 100,
            -0x1_0000_0000 < net < 0x1_0000_0000,
    ;
}

/// The curve is a straight line through the anchor whose slope is the net
/// boardings over the dwell: between the anchor and any sample, the change
/// in load times the dwell equals the net boardings times the elapsed time.
pub proof fn lemma_flow_is_linear(service: TrainService, i: int)
    requires
        service.wf(),
        0 <= i < 100,
    ensures
        service.sample_time(0) == service.arrival_time.seconds * 100,
        service.sample_load(0) == service.departure_load * 100,
        (service.sample_load(i) - service.sample_load(0)) * (service.departure_time.seconds
            - service.arrival_time.seconds) == (service.boardings - service.alightings) * (
        service.sample_time(i) - service.sample_time(0)),
{
    let dwell = service.departure_time.seconds as int - service.arrival_time.seconds as int;
    let net = service.boardings as int - service.alightings as int;
    assert((net * i) * dwell == net * (dwell * i)) by (nonlinear_arith);
}

/// The load curve of one service: the departure load at the arrival time,
/// then 99 points a hundredth of the dwell apart, the load changing at the
/// constant rate of net boardings over the dwell. A service that arrives
/// and departs in the same second has no curve.
pub fn estimate_flow(service: &TrainService) -> (r: Result<Vec<FlowSample>, DegenerateInterval>)
    requires
        service.wf(),
    ensures
        service.degenerate() ==> r == Err::<Vec<FlowSample>, DegenerateInterval>(DegenerateInterval),
        !service.degenerate() ==> (r matches Ok(samples) && samples@ == service.flow()),
{
    let arrival: i64 = service.arrival_time.seconds as i64;
    let departure: i64 = service.departure_time.seconds as i64;
    if arrival == departure {
        return Err(DegenerateInterval);
    }
    let dwell: i64 = departure - arrival;
    let net: i64 = service.boardings as i64 - service.alightings as i64;
    let anchor: i64 = service.departure_load as i64 * 100;
    let mut samples: Vec<FlowSample> = Vec::new();
    let mut i: i64 = 0;
    while i < 100
        invariant
            0 <= i <= 100,
            service.wf(),
            arrival == service.arrival_time.seconds,
            dwell == service.departure_time.seconds - service.arrival_time.seconds,
            net == service.boardings - service.alightings,
            anchor == service.departure_load * 100,
            samples@.len() == i,
            forall|k: int| 0 <= k < i ==> #[trigger] samples@[k] == service.sample(k),
        decreases 100 - i,
    {
        proof {
            lemma_sample_in_range(*service, i as int);
        }
        let time: i64 = arrival * 100 + dwell * i;
        let load: i64 = anchor + net * i;
        samples.push(FlowSample { time_centis: time as u32, load_hundredths: load });
        i += 1;
    }
    proof {
        assert(samples@ =~= service.flow());
    }
    Ok(samples)
}

/// The load curves of all services, in order, one after the other; a
/// service without a curve is skipped.
pub fn calculate_passenger_flow(train_services: Vec<TrainService>) -> (r: Vec<FlowSample>)
    requires
        forall|i: int| 0 <= i < train_services@.len() ==> (#[trigger] train_services@[i]).wf(),
    ensures
        r@ == flow_of_all(train_services@),
{
    let mut passenger_flow: Vec<FlowSample> = Vec::new();
    let mut i: usize = 0;
    while i < train_services.len()
        invariant
            i <= train_services@.len(),
            forall|k: int| 0 <= k < train_services@.len() ==> (#[trigger] train_services@[k]).wf(),
            passenger_flow@ == flow_of_all(train_services@.take(i as int)),
        decreases train_services@.len() - i,
    {
        proof {
            let next = train_services@.take(i + 1);
            assert(next.drop_last() =~= train_services@.take(i as int));
            assert(next.last() == train_services@[i as int]);
        }
        match estimate_flow(&train_services[i]) {
            Ok(mut samples) => {
                passenger_flow.append(&mut samples);
            },
            Err(_) => {},
        }
        i += 1;
    }
    proof {
        assert(train_services@.take(i as int) =~= train_services@);
    }
    passenger_flow
}

} // verus!
