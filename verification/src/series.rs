//! Derived series for presentation: running totals, peaks, axis ranges,
//! bucket start times and the colour of each series.

use vstd::prelude::*;
use crate::clock::BusinessOffset;
use crate::bucket::ConfigurationError;
use crate::bucket::bucket_of;
use crate::histogram::LineHistogram;

verus! {

/// A colour by its red, green and blue parts.
#[derive(Clone, Copy, Debug, PartialEq, Eq, Structural)]
pub struct Rgb {
    pub red: u8,
    pub green: u8,
    pub blue: u8,
}

/// The sum of the first `n` accumulators.
pub open spec fn prefix_sum(counts: Seq<u128>, n: int) -> int
    decreases n,
{
    if n <= 0 {
        0
    } else {
        prefix_sum(counts, n - 1) + counts[n - 1]
    }
}

/// The running totals of a histogram: at each bucket the sum up to and
/// including it.
pub open spec fn running_totals(counts: Seq<u128>) -> Seq<u128> {
    Seq::new(counts.len(), |i: int| prefix_sum(counts, i + 1) as u128)
}

/// Whether `peak` is the greatest of the accumulators, or zero for none.
pub open spec fn is_peak(counts: Seq<u128>, peak: u128) -> bool {
    &&& forall|i: int| 0 <= i < counts.len() ==> #[trigger] counts[i] <= peak
    &&& if counts.len() == 0 {
        peak == 0
    } else {
        exists|i: int| 0 <= i < counts.len() && #[trigger] counts[i] == peak
    }
}

/// Whether `peak` is the greatest accumulator of all rows, or zero for none.
pub open spec fn is_table_peak(rows: Seq<LineHistogram>, peak: u128) -> bool {
    &&& forall|j: int, i: int|
        0 <= j < rows.len() && 0 <= i < rows[j].counts@.len() ==> #[trigger] rows[j].counts@[i]
            <= peak
    &&& peak == 0 || exists|j: int, i: int|
        0 <= j < rows.len() && 0 <= i < rows[j].counts@.len() && #[trigger] rows[j].counts@[i]
            == peak
}

/// The colours that series are drawn in, in order.
pub open spec fn palette() -> Seq<Rgb> {
    seq![
        Rgb { red: 255, green: 0, blue: 0 },
        Rgb { red: 0, green: 0, blue: 255 },
        Rgb { red: 0, green: 128, blue: 0 },
        Rgb { red: 255, green: 165, blue: 0 },
        Rgb { red: 128, green: 0, blue: 128 },
        Rgb { red: 0, green: 128, blue: 128 },
        Rgb { red: 255, green: 192, blue: 203 },
        Rgb { red: 128, green: 128, blue: 0 },
        Rgb { red: 0, green: 0, blue: 0 },
        Rgb { red: 165, green: 42, blue: 42 },
        Rgb { red: 0, green: 255, blue: 255 },
        Rgb { red: 255, green: 215, blue: 0 },
        Rgb { red: 75, green: 0, blue: 130 },
        Rgb { red: 139, green: 69, blue: 19 },
        Rgb { red: 60, green: 179, blue: 113 },
        Rgb { red: 218, green: 112, blue: 214 },
        Rgb { red: 255, green: 140, blue: 0 },
        Rgb { red: 47, green: 79, blue: 79 },
        Rgb { red: 123, green: 104, blue: 238 },
        Rgb { red: 255, green: 99, blue: 71 },
    ]
}

/// Twenty distinct colours: red, blue, green, orange, purple, teal, pink,
/// olive, black, brown, cyan, gold, indigo, saddle brown, medium sea green,
/// orchid, dark orange, dark slate gray, medium slate blue, tomato.
pub fn get_color_palette() -> (r: Vec<Rgb>)
    ensures
        r@ == palette(),
        r@.len() == 20,
{
    let colors = vec![
        Rgb { red: 255, green: 0, blue: 0 },
        Rgb { red: 0, green: 0, blue: 255 },
        Rgb { red: 0, green: 128, blue: 0 },
        Rgb { red: 255, green: 165, blue: 0 },
        Rgb { red: 128, green: 0, blue: 128 },
        Rgb { red: 0, green: 128, blue: 128 },
        Rgb { red: 255, green: 192, blue: 203 },
        Rgb { red: 128, green: 128, blue: 0 },
        Rgb { red: 0, green: 0, blue: 0 },
        Rgb { red: 165, green: 42, blue: 42 },
        Rgb { red: 0, green: 255, blue: 255 },
        Rgb { red: 255, green: 215, blue: 0 },
        Rgb { red: 75, green: 0, blue: 130 },
        Rgb { red: 139, green: 69, blue: 19 },
        Rgb { red: 60, green: 179, blue: 113 },
        Rgb { red: 218, green: 112, blue: 214 },
        Rgb { red: 255, green: 140, blue: 0 },
        Rgb { red: 47, green: 79, blue: 79 },
        Rgb { red: 123, green: 104, blue: 238 },
        Rgb { red: 255, green: 99, blue: 71 },
    ];
    proof {
        assert(colors@ =~= palette());
    }
    colors
}

/// The colour of the series at `position`: the palette in order, starting
/// over after its last colour.
pub fn series_color(position: usize) -> (r: Rgb)
    ensures
        r == palette()[position as int % 20],
{
    let colors = get_color_palette();
    colors[position % 20]
}

/// The running totals of a histogram, or `None` where the grand total does
/// not fit an accumulator.
pub fn cumulative(counts: &Vec<u128>) -> (r: Option<Vec<u128>>)
    ensures
        prefix_sum(counts@, counts@.len() as int) <= u128::MAX ==> (r matches Some(totals)
            && totals@ == running_totals(counts@)),
        prefix_sum(counts@, counts@.len() as int) > u128::MAX ==> r.is_none(),
{
    let mut totals: Vec<u128> = Vec::new();
    let mut sum: u128 = 0;
    let mut i: usize = 0;
    while i < counts.len()
        invariant
            i <= counts@.len(),
            sum == prefix_sum(counts@, i as int),
            totals@.len() == i,
            forall|k: int| 0 <= k < i ==> #[trigger] totals@[k] == prefix_sum(counts@, k + 1),
        decreases counts@.len() - i,
    {
        if counts[i] > u128::MAX - sum {
            proof {
                lemma_prefix_sum_grows(counts@, i + 1, counts@.len() as int);
            }
            return None;
        }
        sum = sum + counts[i];
        totals.push(sum);
        i += 1;
    }
    proof {
        assert(totals@ =~= running_totals(counts@));
    }
    Some(totals)
}

/// Running totals never fall.
pub proof fn lemma_prefix_sum_grows(counts: Seq<u128>, m: int, n: int)
    requires
        m <= n,
    ensures
        prefix_sum(counts, m) <= prefix_sum(counts, n),
    decreases n - m,
{
    if m < n {
        lemma_prefix_sum_grows(counts, m, n - 1);
        if n <= 0 {
            assert(prefix_sum(counts, n) == 0);
            assert(prefix_sum(counts, m) == 0);
        }
    }
}

/// The greatest accumulator of a histogram; zero for an empty one.
pub fn peak(counts: &Vec<u128>) -> (r: u128)
    ensures
        is_peak(counts@, r),
{
    let mut best: u128 = 0;
    let mut i: usize = 0;
    while i < counts.len()
        invariant
            i <= counts@.len(),
            is_peak(counts@.take(i as int), best),
        decreases counts@.len() - i,
    {
        let ghost seen = counts@.take(i as int);
        let ghost next = counts@.take(i + 1);
        let ghost before = best;
        if counts[i] > best || i == 0 {
            best = counts[i];
        }
        proof {
            assert(next[i as int] == counts@[i as int]);
            assert forall|k: int| 0 <= k < next.len() implies #[trigger] next[k] <= best by {
                if k < i {
                    assert(seen[k] == next[k]);
                }
            }
            if best != counts@[i as int] {
                let w = choose|w: int| 0 <= w < seen.len() && #[trigger] seen[w] == before;
                assert(next[w] == best);
            }
        }
        i += 1;
    }
    proof {
        assert(counts@.take(i as int) =~= counts@);
    }
    best
}

/// The greatest accumulator of all histograms; zero where there is none.
pub fn table_peak(rows: &Vec<LineHistogram>) -> (r: u128)
    ensures
        is_table_peak(rows@, r),
{
    let mut best: u128 = 0;
    let mut j: usize = 0;
    while j < rows.len()
        invariant
            j <= rows@.len(),
            is_table_peak(rows@.take(j as int), best),
        decreases rows@.len() - j,
    {
        let ghost seen = rows@.take(j as int);
        let ghost next = rows@.take(j + 1);
        let ghost before = best;
        let row_peak: u128 = peak(&rows[j].counts);
        if row_peak > best {
            best = row_peak;
        }
        proof {
            assert(next[j as int] == rows@[j as int]);
            assert forall|a: int, i: int|
                0 <= a < next.len() && 0 <= i < next[a].counts@.len() implies #[trigger] next[a].counts@[i]
                <= best by {
                if a < j {
                    assert(seen[a] == next[a]);
                    assert(seen[a].counts@[i] <= before);
                }
            }
            if best != 0 {
                if best == before {
                    let (a, i) = choose|a: int, i: int|
                        0 <= a < seen.len() && 0 <= i < seen[a].counts@.len()
                            && #[trigger] seen[a].counts@[i] == before;
                    assert(next[a] == seen[a]);
                    assert(next[a].counts@[i] == best);
                } else {
                    let i = choose|i: int|
                        0 <= i < rows@[j as int].counts@.len() && #[trigger] rows@[j as int].counts@[i]
                            == row_peak;
                    assert(next[j as int].counts@[i] == best);
                }
            }
        }
        j += 1;
    }
    proof {
        assert(rows@.take(j as int) =~= rows@);
    }
    best
}

/// The top of a value axis that leaves a tenth of head room above the peak:
/// `peak + peak / 10 + 1`, or `None` where that does not fit.
pub fn axis_top(peak: u128) -> (r: Option<u128>)
    ensures
        r == (if peak + peak / 10 + 1 <= u128::MAX {
            Some((peak + peak / 10 + 1) as u128)
        } else {
            None
        }),
{
    let tenth: u128 = peak / 10;
    if peak > u128::MAX - 1 - tenth {
        None
    } else {
        Some(peak + tenth + 1)
    }
}

/// The offset at which a bucket starts, in milliseconds since 03:00:
/// `bucket * 86_400_000 / buckets`, rounded down.
pub open spec fn start_of(bucket: int, buckets: int) -> int {
    bucket * 86_400_000 / buckets
}

/// The offset at which `bucket` of `buckets` starts: what a label of the
/// bucket shows. Zero buckets are refused; so is a bucket past the last.
pub fn bucket_start(bucket: usize, buckets: usize) -> (r: Result<BusinessOffset, ConfigurationError>)
    ensures
        bucket < buckets ==> r == Ok::<BusinessOffset, ConfigurationError>(
            BusinessOffset { millis: start_of(bucket as int, buckets as int) as u32 },
        ),
        bucket >= buckets ==> r == Err::<BusinessOffset, ConfigurationError>(
            ConfigurationError::NoBuckets,
        ),
        r matches Ok(offset) ==> offset.wf(),
{
    if bucket >= buckets {
        return Err(ConfigurationError::NoBuckets);
    }
    assert(bucket * 86_400_000 <= 0xffff_ffff_ffff_ffff * 86_400_000) by (nonlinear_arith)
        requires
            bucket <= 0xffff_ffff_ffff_ffff,
    ;
    let scaled: u128 = bucket as u128 * 86_400_000;
    let millis: u128 = scaled / (buckets as u128);
    assert(millis < 86_400_000) by (nonlinear_arith)
        requires
            millis == scaled / (buckets as u128),
            scaled == bucket * 86_400_000,
            bucket < buckets,
    ;
    Ok(BusinessOffset { millis: millis as u32 })
}

/// Up to 1440 buckets a day, a bucket's start lies in that bucket: mapping
/// the start back to a bucket gives the bucket.
pub proof fn lemma_start_maps_back(bucket: int, buckets: int)
    requires
        0 <= bucket < buckets <= 1440,
    ensures
        0 <= start_of(bucket, buckets) < 86_400_000,
        bucket_of(start_of(bucket, buckets), buckets) == bucket,
{
    let s = start_of(bucket, buckets);
    assert(s * buckets <= bucket * 86_400_000 < s * buckets + buckets && 0 <= s < 86_400_000)
        by (nonlinear_arith)
        requires
            s == bucket * 86_400_000 / buckets,
            0 <= bucket < buckets,
    ;
    assert(2 * s * buckets == 2 * (s * buckets)) by (nonlinear_arith);
}

} // verus!
