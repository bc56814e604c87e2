//! What holds of aggregation whatever the input: order does not matter
//! where every date is kept, and a line filter leaves one line.

use vstd::prelude::*;
use crate::aggregate::DateMode;
use crate::aggregate::Event;
use crate::aggregate::Plan;
use crate::aggregate::ResolvedModel;
use crate::aggregate::accepted;
use crate::aggregate::aggregate_outcome;
use crate::aggregate::amount_at;
use crate::aggregate::bucket_total;
use crate::aggregate::contributes;
use crate::aggregate::filter_unmatched;
use crate::aggregate::histograms;
use crate::aggregate::key_of;
use crate::aggregate::on_line;
use crate::aggregate::plan_of;
use crate::aggregate::resolved_model;
use crate::aggregate::resolved_models;
use crate::histogram::KeyModel;

verus! {

/// Taking one event out lowers a bucket total by what that event added.
pub proof fn lemma_total_remove(
    events: Seq<ResolvedModel>,
    j: int,
    plan: Plan,
    key: KeyModel,
    bucket: int,
)
    requires
        0 <= j < events.len(),
    ensures
        bucket_total(events, plan, key, bucket) == bucket_total(
            events.remove(j),
            plan,
            key,
            bucket,
        ) + amount_at(events[j], plan, key, bucket),
    decreases events.len(),
{
    if j == events.len() - 1 {
        assert(events.remove(j) =~= events.drop_last());
    } else {
        let shorter = events.remove(j);
        assert(shorter.drop_last() =~= events.drop_last().remove(j));
        assert(shorter.last() == events.last());
        lemma_total_remove(events.drop_last(), j, plan, key, bucket);
    }
}

/// The last element of a sequence occurs in every rearrangement of it, and
/// what is left on both sides are rearrangements of each other.
pub proof fn lemma_split_last<A>(a: Seq<A>, b: Seq<A>) -> (j: int)
    requires
        a.len() > 0,
        a.to_multiset() =~= b.to_multiset(),
    ensures
        0 <= j < b.len(),
        b[j] == a.last(),
        a.drop_last().to_multiset() =~= b.remove(j).to_multiset(),
{
    broadcast use vstd::seq_lib::to_multiset_remove, vstd::seq_lib::to_multiset_contains;

    let x = a.last();
    assert(a[a.len() - 1] == x);
    assert(a.contains(x));
    assert(a.to_multiset().count(x) > 0);
    assert(b.to_multiset().count(x) > 0);
    assert(b.contains(x));
    let j = choose|j: int| 0 <= j < b.len() && b[j] == x;
    assert(a.drop_last() =~= a.remove(a.len() - 1));
    assert(a.remove(a.len() - 1).to_multiset() == a.to_multiset().remove(x));
    assert(b.remove(j).to_multiset() == b.to_multiset().remove(x));
    j
}

/// A bucket total is the same for every rearrangement of the events.
pub proof fn lemma_total_rearranged(
    a: Seq<ResolvedModel>,
    b: Seq<ResolvedModel>,
    plan: Plan,
    key: KeyModel,
    bucket: int,
)
    requires
        a.to_multiset() =~= b.to_multiset(),
    ensures
        bucket_total(a, plan, key, bucket) == bucket_total(b, plan, key, bucket),
    decreases a.len(),
{
    broadcast use vstd::seq_lib::to_multiset_len;

    assert(a.len() == a.to_multiset().len());
    assert(b.len() == b.to_multiset().len());
    if a.len() > 0 {
        let j = lemma_split_last(a, b);
        lemma_total_rearranged(a.drop_last(), b.remove(j), plan, key, bucket);
        lemma_total_remove(b, j, plan, key, bucket);
    }
}

/// What one sequence of events holds, each of its rearrangements holds.
pub proof fn lemma_same_members(a: Seq<ResolvedModel>, b: Seq<ResolvedModel>, i: int) -> (j: int)
    requires
        a.to_multiset() =~= b.to_multiset(),
        0 <= i < a.len(),
    ensures
        0 <= j < b.len(),
        b[j] == a[i],
{
    broadcast use vstd::seq_lib::to_multiset_contains;

    assert(a.contains(a[i]));
    assert(a.to_multiset().count(a[i]) > 0);
    assert(b.to_multiset().count(a[i]) > 0);
    assert(b.contains(a[i]));
    choose|j: int| 0 <= j < b.len() && b[j] == a[i]
}

/// Where every date is kept, the outcome of aggregation is the same for
/// every rearrangement of the resolved events: the same error, or the same
/// keys with the same accumulators.
pub proof fn lemma_order_does_not_matter(
    a: Seq<ResolvedModel>,
    b: Seq<ResolvedModel>,
    buckets: int,
    filter: Option<Seq<char>>,
)
    requires
        a.to_multiset() =~= b.to_multiset(),
    ensures
        aggregate_outcome(a, buckets, filter, DateMode::AllDates) == aggregate_outcome(
            b,
            buckets,
            filter,
            DateMode::AllDates,
        ),
{
    broadcast use vstd::seq_lib::to_multiset_len;

    assert(a.len() == a.to_multiset().len());
    assert(b.len() == b.to_multiset().len());
    let plan = plan_of(a, buckets, filter, DateMode::AllDates);
    assert(plan == plan_of(b, buckets, filter, DateMode::AllDates));
    if buckets > 0 {
        if filter_unmatched(a, filter) {
            assert forall|j: int| 0 <= j < b.len() implies !on_line(#[trigger] b[j], filter) by {
                let i = lemma_same_members(b, a, j);
                assert(!on_line(a[i], filter));
            }
        }
        if filter_unmatched(b, filter) {
            assert forall|i: int| 0 <= i < a.len() implies !on_line(#[trigger] a[i], filter) by {
                let j = lemma_same_members(a, b, i);
                assert(!on_line(b[j], filter));
            }
        }
        assert(filter_unmatched(a, filter) == filter_unmatched(b, filter));
        assert forall|key: KeyModel| contributes(a, plan, key) == contributes(b, plan, key) by {
            if contributes(a, plan, key) {
                let i = choose|i: int|
                    0 <= i < a.len() && accepted(#[trigger] a[i], plan) && key_of(a[i], plan)
                        == key;
                let j = lemma_same_members(a, b, i);
                assert(accepted(b[j], plan) && key_of(b[j], plan) == key);
            }
            if contributes(b, plan, key) {
                let j = choose|j: int|
                    0 <= j < b.len() && accepted(#[trigger] b[j], plan) && key_of(b[j], plan)
                        == key;
                let i = lemma_same_members(b, a, j);
                assert(accepted(a[i], plan) && key_of(a[i], plan) == key);
            }
        }
        assert forall|key: KeyModel| #[trigger]
            histograms(a, plan).dom().contains(key) implies histograms(a, plan)[key]
            =~= histograms(b, plan)[key] by {
            assert forall|bucket: int| 0 <= bucket < buckets implies bucket_total(
                a,
                plan,
                key,
                bucket,
            ) == bucket_total(b, plan, key, bucket) by {
                lemma_total_rearranged(a, b, plan, key, bucket);
            }
        }
        assert(histograms(a, plan) =~= histograms(b, plan));
    }
}

/// Rearranged events resolve to rearranged resolved events.
pub proof fn lemma_resolution_keeps_rearrangement(a: Seq<Event>, b: Seq<Event>)
    requires
        a.to_multiset() =~= b.to_multiset(),
    ensures
        resolved_models(a).to_multiset() =~= resolved_models(b).to_multiset(),
    decreases a.len(),
{
    broadcast use
        vstd::seq_lib::to_multiset_len,
        vstd::seq_lib::to_multiset_remove,
        vstd::seq_lib::to_multiset_build,
    ;

    assert(a.len() == a.to_multiset().len());
    assert(b.len() == b.to_multiset().len());
    let ra = resolved_models(a);
    let rb = resolved_models(b);
    if a.len() == 0 {
        assert(ra =~= rb);
    } else {
        let j = lemma_split_last(a, b);
        lemma_resolution_keeps_rearrangement(a.drop_last(), b.remove(j));
        let x = resolved_model(a.last());
        let front = resolved_models(a.drop_last());
        let rest = resolved_models(b.remove(j));
        assert(ra =~= front.push(x));
        assert(rb.remove(j) =~= rest);
        assert(rb[j] == x);
        assert(ra.to_multiset() =~= front.to_multiset().insert(x));
        assert(rb.remove(j).to_multiset() == rb.to_multiset().remove(x));
        assert(rb =~= rb.remove(j).insert(j, x));
        vstd::seq_lib::to_multiset_insert(rb.remove(j), j, x);
    }
}

/// Where every date is kept, aggregating the events in any order gives the
/// same outcome: the same error, or the same keys with the same
/// accumulators.
pub proof fn lemma_event_order_does_not_matter(
    a: Seq<Event>,
    b: Seq<Event>,
    buckets: int,
    filter: Option<Seq<char>>,
)
    requires
        a.to_multiset() =~= b.to_multiset(),
    ensures
        aggregate_outcome(resolved_models(a), buckets, filter, DateMode::AllDates)
            == aggregate_outcome(resolved_models(b), buckets, filter, DateMode::AllDates),
{
    lemma_resolution_keeps_rearrangement(a, b);
    lemma_order_does_not_matter(resolved_models(a), resolved_models(b), buckets, filter);
}

/// Under one plan, the events of two inputs put together are counted under
/// a key exactly when one of the inputs counts under it, and each bucket
/// holds the sum of what the two inputs hold there: partial histograms merge
/// by addition, bucket by bucket.
pub proof fn lemma_parts_add_up(
    a: Seq<ResolvedModel>,
    b: Seq<ResolvedModel>,
    plan: Plan,
    key: KeyModel,
    bucket: int,
)
    ensures
        contributes(a + b, plan, key) <==> (contributes(a, plan, key) || contributes(b, plan, key)),
        bucket_total(a + b, plan, key, bucket) == bucket_total(a, plan, key, bucket)
            + bucket_total(b, plan, key, bucket),
    decreases b.len(),
{
    if b.len() == 0 {
        assert(a + b =~= a);
    } else {
        let whole = a + b;
        assert(whole.drop_last() =~= a + b.drop_last());
        assert(whole.last() == b.last());
        lemma_parts_add_up(a, b.drop_last(), plan, key, bucket);
        crate::aggregate::lemma_contributes_step(whole, plan, key);
        crate::aggregate::lemma_contributes_step(b, plan, key);
    }
}

/// With a line filter every histogram is keyed by the filtered line in
/// lower case; where one date is selected, that line alone is the key.
pub proof fn lemma_filter_leaves_one_line(
    events: Seq<ResolvedModel>,
    buckets: int,
    line: Seq<char>,
    mode: DateMode,
    key: KeyModel,
)
    requires
        histograms(events, plan_of(events, buckets, Some(line), mode)).contains_key(key),
    ensures
        key.1 == line,
        mode == DateMode::FirstSeenOnly ==> key == (None::<Seq<char>>, line),
{
    let plan = plan_of(events, buckets, Some(line), mode);
    let i = choose|i: int|
        0 <= i < events.len() && accepted(#[trigger] events[i], plan) && key_of(events[i], plan)
            == key;
    assert(on_line(events[i], plan.filter));
}

/// A key has a histogram exactly when some event is counted under it, and a
/// key without one has nothing in any bucket.
pub proof fn lemma_keys_are_the_contributors(
    events: Seq<ResolvedModel>,
    plan: Plan,
    key: KeyModel,
    bucket: int,
)
    ensures
        histograms(events, plan).contains_key(key) <==> exists|i: int|
            0 <= i < events.len() && accepted(#[trigger] events[i], plan) && key_of(
                events[i],
                plan,
            ) == key,
        !histograms(events, plan).contains_key(key) ==> bucket_total(events, plan, key, bucket)
            == 0,
{
    if !contributes(events, plan, key) {
        crate::aggregate::lemma_total_zero(events, plan, key, bucket);
    }
}

} // verus!
