//! The aggregation engine: folds stop events into histograms.

use vstd::prelude::*;
use crate::bucket::ConfigurationError;
use crate::bucket::bucket_index;
use crate::bucket::bucket_of;
use crate::bucket::hourly_bucket;
use crate::clock::ClockTime;
use crate::clock::business_hour;
use crate::clock::normalize_clock;
use crate::clock::parse_time;
use crate::clock::parsed_clock;
use crate::histogram::HistogramKey;
use crate::histogram::HistogramTable;
use crate::histogram::KeyModel;
use crate::histogram::LineHistogram;
use crate::histogram::count_at;
use crate::histogram::credit;
use crate::histogram::has_row;
use crate::histogram::row_of;
use crate::histogram::rows_wf;

verus! {

/// One train-at-station visit, as read from the input table.
#[derive(Clone, Debug)]
pub struct Event {
    pub business_date: String,
    pub line_name: String,
    pub scheduled_departure_time: String,
    pub boardings: u32,
    pub alightings: u32,
}

/// Which dates a run keeps.
#[derive(Clone, Copy, Debug, PartialEq, Eq, Structural)]
pub enum DateMode {
    /// Only the date of the first event of the input; histograms are keyed
    /// by line.
    FirstSeenOnly,
    /// Every date on its own; histograms are keyed by date and line.
    AllDates,
}

/// The settings of a run.
#[derive(Clone, Debug)]
pub struct Options {
    /// Buckets per business day.
    pub granularity: usize,
    /// Keep only this line, compared without regard to case.
    pub line_filter: Option<String>,
    pub date_mode: DateMode,
}

/// An event whose line name has been case-folded and whose departure time
/// has been read.
#[derive(Clone, Debug)]
pub struct Resolved {
    pub date: String,
    /// The line name as given.
    pub line: String,
    /// The line name in lower case.
    pub folded_line: String,
    /// The scheduled departure, absent where the field did not parse.
    pub time: Option<ClockTime>,
    pub boardings: u32,
    pub alightings: u32,
}

/// A resolved event as a mathematical value.
pub struct ResolvedModel {
    pub date: Seq<char>,
    pub line: Seq<char>,
    pub folded_line: Seq<char>,
    pub time: Option<ClockTime>,
    pub movement: nat,
}

/// What a run does, once the input's first date is known.
pub struct Plan {
    /// Buckets per business day.
    pub buckets: int,
    /// The lower-case line that is kept, where one is.
    pub filter: Option<Seq<char>>,
    /// The one date that is kept; `None` where every date is kept and keys
    /// carry the date.
    pub selected: Option<Seq<char>>,
}

/// The lower-case form that std's `str::to_lowercase` gives a text.
pub uninterp spec fn lowercase(text: Seq<char>) -> Seq<char>;

/// std's `str::to_lowercase`: the result is a function of the text alone,
/// named `lowercase`.
pub assume_specification[ str::to_lowercase ](text: &str) -> (r: String)
    ensures
        r@ == lowercase(text@),
;

impl Resolved {
    pub open spec fn wf(self) -> bool {
        self.time matches Some(t) ==> t.wf()
    }

    pub open spec fn model(self) -> ResolvedModel {
        ResolvedModel {
            date: self.date@,
            line: self.line@,
            folded_line: self.folded_line@,
            time: self.time,
            movement: (self.boardings + self.alightings) as nat,
        }
    }
}

/// The resolved form of an event: its line folded to lower case, its
/// departure time parsed.
pub open spec fn resolved_model(event: Event) -> ResolvedModel {
    ResolvedModel {
        date: event.business_date@,
        line: event.line_name@,
        folded_line: lowercase(event.line_name@),
        time: parsed_clock(event.scheduled_departure_time@),
        movement: (event.boardings + event.alightings) as nat,
    }
}

/// The models of a sequence of resolved events.
pub open spec fn models(events: Seq<Resolved>) -> Seq<ResolvedModel> {
    Seq::new(events.len(), |i: int| events[i].model())
}

/// The resolved models of a sequence of events.
pub open spec fn resolved_models(events: Seq<Event>) -> Seq<ResolvedModel> {
    Seq::new(events.len(), |i: int| resolved_model(events[i]))
}

/// The plan of a run over `events`.
pub open spec fn plan_of(
    events: Seq<ResolvedModel>,
    buckets: int,
    filter: Option<Seq<char>>,
    mode: DateMode,
) -> Plan {
    Plan {
        buckets,
        filter,
        selected: match mode {
            DateMode::AllDates => None,
            DateMode::FirstSeenOnly => Some(
                if events.len() > 0 {
                    events[0].date
                } else {
                    Seq::empty()
                },
            ),
        },
    }
}

/// Whether an event passes the line filter.
pub open spec fn on_line(e: ResolvedModel, filter: Option<Seq<char>>) -> bool {
    filter matches Some(f) ==> e.folded_line == f
}

/// Whether an event contributes: it passes the line filter, is of the
/// selected date where one is selected, and its departure time parsed.
pub open spec fn accepted(e: ResolvedModel, plan: Plan) -> bool {
    &&& on_line(e, plan.filter)
    &&& plan.selected matches Some(d) ==> e.date == d
    &&& e.time.is_some()
}

/// The key under which an event is counted: the line, folded where a filter
/// is set, and the date where every date is kept.
pub open spec fn key_of(e: ResolvedModel, plan: Plan) -> KeyModel {
    (
        if plan.selected.is_some() {
            None
        } else {
            Some(e.date)
        },
        if plan.filter.is_some() {
            e.folded_line
        } else {
            e.line
        },
    )
}

/// The bucket of a departure time: at 24 buckets the hour of the business
/// day, minutes dropped; otherwise the rounded position of the offset.
pub open spec fn bucket_for(time: ClockTime, buckets: int) -> int {
    if buckets == 24 {
        business_hour(time.spec_hour())
    } else {
        bucket_of(time.spec_offset().millis as int, buckets)
    }
}

/// What one event adds to the accumulator of `key` at `bucket`.
pub open spec fn amount_at(e: ResolvedModel, plan: Plan, key: KeyModel, bucket: int) -> nat {
    if accepted(e, plan) && key_of(e, plan) == key && bucket_for(e.time.unwrap(), plan.buckets)
        == bucket {
        e.movement
    } else {
        0
    }
}

/// The sum of what the events add to the accumulator of `key` at `bucket`.
pub open spec fn bucket_total(events: Seq<ResolvedModel>, plan: Plan, key: KeyModel, bucket: int) -> nat
    decreases events.len(),
{
    if events.len() == 0 {
        0
    } else {
        bucket_total(events.drop_last(), plan, key, bucket) + amount_at(
            events.last(),
            plan,
            key,
            bucket,
        )
    }
}

/// Whether at least one event is counted under `key`.
pub open spec fn contributes(events: Seq<ResolvedModel>, plan: Plan, key: KeyModel) -> bool {
    exists|i: int|
        0 <= i < events.len() && accepted(#[trigger] events[i], plan) && key_of(events[i], plan)
            == key
}

/// Whether a filter is set, the input is not empty, and no event is on the
/// filtered line.
pub open spec fn filter_unmatched(events: Seq<ResolvedModel>, filter: Option<Seq<char>>) -> bool {
    &&& filter.is_some()
    &&& events.len() > 0
    &&& forall|i: int| 0 <= i < events.len() ==> !on_line(#[trigger] events[i], filter)
}

/// The histograms of a run: one per key that at least one event is counted
/// under, each bucket holding the sum of the movements counted there.
pub open spec fn histograms(events: Seq<ResolvedModel>, plan: Plan) -> Map<KeyModel, Seq<u128>> {
    Map::new(
        |key: KeyModel| contributes(events, plan, key),
        |key: KeyModel|
            Seq::new(
                plan.buckets as nat,
                |b: int| bucket_total(events, plan, key, b) as u128,
            ),
    )
}

/// Whether every accumulator of `table` holds its bucket total in full:
/// no sum was cut to fit.
pub open spec fn holds_totals(
    table: Map<KeyModel, Seq<u128>>,
    events: Seq<ResolvedModel>,
    plan: Plan,
) -> bool {
    forall|key: KeyModel, b: int|
        table.contains_key(key) && 0 <= b < plan.buckets ==> #[trigger] table[key][b]
            == bucket_total(events, plan, key, b)
}

/// The outcome of a run: the histograms, or the setting at fault.
pub open spec fn aggregate_outcome(
    events: Seq<ResolvedModel>,
    buckets: int,
    filter: Option<Seq<char>>,
    mode: DateMode,
) -> Result<Map<KeyModel, Seq<u128>>, ConfigurationError> {
    if buckets <= 0 {
        Err(ConfigurationError::NoBuckets)
    } else if filter_unmatched(events, filter) {
        Err(ConfigurationError::FilterMatchesNoLine)
    } else {
        Ok(histograms(events, plan_of(events, buckets, filter, mode)))
    }
}

/// A result with its table taken as a mapping.
pub open spec fn outcome_view(r: Result<HistogramTable, ConfigurationError>) -> Result<
    Map<KeyModel, Seq<u128>>,
    ConfigurationError,
> {
    match r {
        Ok(table) => Ok(table@),
        Err(e) => Err(e),
    }
}

/// The text of an optional string.
pub open spec fn text_of(s: Option<String>) -> Option<Seq<char>> {
    match s {
        Some(t) => Some(t@),
        None => None,
    }
}

/// The lower-case form of an optional text.
pub open spec fn folded(s: Option<Seq<char>>) -> Option<Seq<char>> {
    match s {
        Some(t) => Some(lowercase(t)),
        None => None,
    }
}

/// One more event changes whether a key is counted only through itself.
pub proof fn lemma_contributes_step(events: Seq<ResolvedModel>, plan: Plan, key: KeyModel)
    requires
        events.len() > 0,
    ensures
        contributes(events, plan, key) <==> (contributes(events.drop_last(), plan, key) || (
        accepted(events.last(), plan) && key_of(events.last(), plan) == key)),
{
    let front = events.drop_last();
    if contributes(events, plan, key) {
        let i = choose|i: int|
            0 <= i < events.len() && accepted(#[trigger] events[i], plan) && key_of(
                events[i],
                plan,
            ) == key;
        if i < front.len() {
            assert(front[i] == events[i]);
        }
    }
    if contributes(front, plan, key) {
        let i = choose|i: int|
            0 <= i < front.len() && accepted(#[trigger] front[i], plan) && key_of(front[i], plan)
                == key;
        assert(events[i] == front[i]);
    }
    if accepted(events.last(), plan) && key_of(events.last(), plan) == key {
        assert(events[events.len() - 1] == events.last());
    }
}

/// No accumulator exceeds what the events so far can have brought.
pub proof fn lemma_total_bound(events: Seq<ResolvedModel>, plan: Plan, key: KeyModel, bucket: int, cap: nat)
    requires
        forall|i: int| 0 <= i < events.len() ==> (#[trigger] events[i]).movement <= cap,
    ensures
        bucket_total(events, plan, key, bucket) <= events.len() * cap,
    decreases events.len(),
{
    if events.len() > 0 {
        let front = events.drop_last();
        assert forall|i: int| 0 <= i < front.len() implies (#[trigger] front[i]).movement
            <= cap by {
            assert(front[i] == events[i]);
        }
        lemma_total_bound(front, plan, key, bucket, cap);
        assert(events.last() == events[events.len() - 1]);
        assert((events.len() - 1) * cap + cap == events.len() * cap) by (nonlinear_arith);
    }
}

/// A key without a counted event has empty buckets.
pub proof fn lemma_total_zero(events: Seq<ResolvedModel>, plan: Plan, key: KeyModel, bucket: int)
    requires
        !contributes(events, plan, key),
    ensures
        bucket_total(events, plan, key, bucket) == 0,
    decreases events.len(),
{
    if events.len() > 0 {
        lemma_contributes_step(events, plan, key);
        lemma_total_zero(events.drop_last(), plan, key, bucket);
    }
}

/// The date that a run is pinned to: in `FirstSeenOnly` mode the date of
/// the first event of the input, whatever else that event holds; none in
/// `AllDates` mode or for empty input.
pub fn selected_date(events: &Vec<Event>, mode: DateMode) -> (r: Option<String>)
    ensures
        r.is_some() <==> (mode == DateMode::FirstSeenOnly && events@.len() > 0),
        r matches Some(date) ==> date@ == events@[0].business_date@,
{
    match mode {
        DateMode::FirstSeenOnly => {
            if events.len() > 0 {
                Some(events[0].business_date.clone())
            } else {
                None
            }
        },
        DateMode::AllDates => None,
    }
}

/// Folds the line name of an event and reads its departure time.
pub fn resolve(event: &Event) -> (r: Resolved)
    ensures
        r.model() == resolved_model(*event),
        r.wf(),
{
    Resolved {
        date: event.business_date.clone(),
        line: event.line_name.clone(),
        folded_line: event.line_name.as_str().to_lowercase(),
        time: parse_time(event.scheduled_departure_time.as_str()),
        boardings: event.boardings,
        alightings: event.alightings,
    }
}

/// The bucket of a departure time among `buckets` parts of the day.
fn event_bucket(time: ClockTime, buckets: usize) -> (r: usize)
    requires
        time.wf(),
        buckets > 0,
    ensures
        r == bucket_for(time, buckets as int),
        r < buckets,
{
    if buckets == 24 {
        hourly_bucket(time)
    } else {
        match bucket_index(normalize_clock(time), buckets) {
            Ok(index) => index,
            Err(_) => 0,
        }
    }
}

/// Folds resolved events, in input order, into histograms.
///
/// `filter` is the lower-case name of the one line to keep, if any. With a
/// filter, an event whose folded line differs is left out and keys carry the
/// folded line. In `FirstSeenOnly` mode the date of the first event of the
/// input is selected and events of other dates are left out. An event whose
/// departure time is absent is left out. Every other event adds its
/// boardings and alightings to its key's histogram at its bucket.
///
/// At 24 buckets the bucket is the hour of the business day, minutes
/// dropped; at any other granularity it is the rounded position of the
/// offset, minutes included, clamped to the last bucket.
///
/// Zero buckets are refused, and so is a filter that no event of a
/// non-empty input passes. Empty input gives an empty table.
pub fn aggregate_resolved(
    events: &Vec<Resolved>,
    buckets: usize,
    filter: &Option<String>,
    mode: DateMode,
) -> (r: Result<HistogramTable, ConfigurationError>)
    requires
        forall|i: int| 0 <= i < events@.len() ==> (#[trigger] events@[i]).wf(),
    ensures
        outcome_view(r) == aggregate_outcome(models(events@), buckets as int, text_of(*filter), mode),
        r matches Ok(table) ==> table.wf() && table.buckets == buckets && holds_totals(
            table@,
            models(events@),
            plan_of(models(events@), buckets as int, text_of(*filter), mode),
        ),
{
    if buckets == 0 {
        return Err(ConfigurationError::NoBuckets);
    }
    let ghost all = models(events@);
    let ghost plan = plan_of(all, buckets as int, text_of(*filter), mode);
    let first_only: bool = match mode {
        DateMode::FirstSeenOnly => true,
        DateMode::AllDates => false,
    };
    let mut rows: Vec<LineHistogram> = Vec::new();
    let mut matched: bool = false;
    let mut i: usize = 0;
    while i < events.len()
        invariant
            i <= events@.len(),
            buckets > 0,
            all == models(events@),
            plan == plan_of(all, buckets as int, text_of(*filter), mode),
            first_only == (mode == DateMode::FirstSeenOnly),
            forall|k: int| 0 <= k < events@.len() ==> (#[trigger] events@[k]).wf(),
            rows_wf(rows@, buckets as int),
            matched <==> exists|k: int| 0 <= k < i && on_line(#[trigger] all[k], plan.filter),
            forall|key: KeyModel| has_row(rows@, key) <==> contributes(all.take(i as int), plan, key),
            forall|key: KeyModel, b: int|
                0 <= b < buckets ==> #[trigger] count_at(rows@, key, b) == bucket_total(
                    all.take(i as int),
                    plan,
                    key,
                    b,
                ),
        decreases events@.len() - i,
    {
        let event = &events[i];
        let ghost e = all[i as int];
        let ghost seen = all.take(i as int);
        let ghost next = all.take(i + 1);
        proof {
            assert(e == event.model());
            assert(next.drop_last() =~= seen);
            assert(next.last() == e);
            assert forall|key: KeyModel|
                contributes(next, plan, key) <==> (contributes(seen, plan, key) || (accepted(
                    e,
                    plan,
                ) && key_of(e, plan) == key)) by {
                lemma_contributes_step(next, plan, key);
            }
        }
        let line_ok: bool = match filter {
            Some(f) => event.folded_line == *f,
            None => true,
        };
        assert(line_ok == on_line(e, plan.filter));
        if line_ok {
            matched = true;
        }
        let date_ok: bool = !first_only || event.date == events[0].date;
        assert(date_ok == (plan.selected matches Some(d) ==> e.date == d)) by {
            assert(all[0] == events@[0].model());
        }
        let mut counted: bool = false;
        if line_ok && date_ok {
            if let Some(time) = event.time {
                let bucket: usize = event_bucket(time, buckets);
                let key = HistogramKey {
                    date: if first_only {
                        None
                    } else {
                        Some(event.date.clone())
                    },
                    line: if filter.is_some() {
                        event.folded_line.clone()
                    } else {
                        event.line.clone()
                    },
                };
                let amount: u128 = event.boardings as u128 + event.alightings as u128;
                proof {
                    assert(key.model() == key_of(e, plan));
                    assert(accepted(e, plan));
                    assert forall|k: int| 0 <= k < seen.len() implies (#[trigger] seen[k]).movement
                        <= 0x2_0000_0000 by {
                        assert(seen[k] == events@[k].model());
                    }
                    lemma_total_bound(seen, plan, key.model(), bucket as int, 0x2_0000_0000);
                    assert(seen.len() * 0x2_0000_0000 <= 0x1_0000_0000_0000_0000
                        * 0x2_0000_0000) by (nonlinear_arith)
                        requires
                            seen.len() <= 0x1_0000_0000_0000_0000,
                    ;
                }
                credit(&mut rows, key, bucket, amount, buckets);
                counted = true;
            }
        }
        proof {
            assert(counted == accepted(e, plan));
            assert(matched <==> exists|k: int| 0 <= k < i + 1 && on_line(#[trigger] all[k], plan.filter)) by {
                if line_ok {
                    assert(on_line(all[i as int], plan.filter));
                }
            }
        }
        i += 1;
    }
    proof {
        assert(all.take(i as int) =~= all);
    }
    if filter.is_some() && events.len() > 0 && !matched {
        return Err(ConfigurationError::FilterMatchesNoLine);
    }
    let table = HistogramTable { entries: rows, buckets };
    proof {
        assert(!filter_unmatched(all, plan.filter)) by {
            if filter.is_some() && events@.len() > 0 {
                let k = choose|k: int| 0 <= k < i && on_line(#[trigger] all[k], plan.filter);
                assert(on_line(all[k], plan.filter));
            }
        }
        let expected = histograms(all, plan);
        assert forall|key: KeyModel| table@.dom().contains(key) implies #[trigger] table@[key]
            =~= expected[key] by {
            let j = row_of(rows@, key);
            assert(table@[key] == rows@[j].counts@);
            assert forall|b: int| 0 <= b < buckets implies table@[key][b] == expected[key][b] by {
                assert(count_at(rows@, key, b) == bucket_total(all, plan, key, b));
            }
        }
        assert(table@ =~= expected);
        assert forall|key: KeyModel, b: int|
            table@.contains_key(key) && 0 <= b < buckets implies #[trigger] table@[key][b]
            == bucket_total(all, plan, key, b) by {
            assert(count_at(rows@, key, b) == bucket_total(all, plan, key, b));
        }
    }
    Ok(table)
}

/// Folds events, in input order, into histograms under `options`: each
/// event's line is folded to lower case and its departure time parsed, and
/// the resolved events are aggregated with the folded filter.
pub fn aggregate(events: &Vec<Event>, options: &Options) -> (r: Result<
    HistogramTable,
    ConfigurationError,
>)
    ensures
        outcome_view(r) == aggregate_outcome(
            resolved_models(events@),
            options.granularity as int,
            folded(text_of(options.line_filter)),
            options.date_mode,
        ),
        r matches Ok(table) ==> table.wf() && table.buckets == options.granularity
            && holds_totals(
            table@,
            resolved_models(events@),
            plan_of(
                resolved_models(events@),
                options.granularity as int,
                folded(text_of(options.line_filter)),
                options.date_mode,
            ),
        ),
{
    let mut resolved: Vec<Resolved> = Vec::new();
    let mut i: usize = 0;
    while i < events.len()
        invariant
            i <= events@.len(),
            resolved@.len() == i,
            forall|k: int|
                0 <= k < i ==> (#[trigger] resolved@[k]).wf() && resolved@[k].model()
                    == resolved_model(events@[k]),
        decreases events@.len() - i,
    {
        resolved.push(resolve(&events[i]));
        i += 1;
    }
    let filter: Option<String> = match &options.line_filter {
        Some(line) => Some(line.as_str().to_lowercase()),
        None => None,
    };
    proof {
        assert(models(resolved@) =~= resolved_models(events@));
    }
    aggregate_resolved(&resolved, options.granularity, &filter, options.date_mode)
}

} // verus!
