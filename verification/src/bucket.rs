//! From a business offset to a bucket of the day.

use vstd::prelude::*;
use crate::clock::BusinessOffset;
use crate::clock::ClockTime;
use crate::clock::business_hour;

verus! {

/// Buckets per day at hourly granularity.
pub const HOURLY: usize = 24;

/// Buckets per day at quarter-hour granularity.
pub const QUARTER_HOURLY: usize = 96;

/// A setting that no run can work with.
#[derive(Clone, Copy, Debug, PartialEq, Eq, Structural)]
pub enum ConfigurationError {
    /// The number of buckets per day is zero.
    NoBuckets,
    /// A line filter is set and no event of the input is on that line.
    FilterMatchesNoLine,
}

/// `millis * buckets / 86_400_000` rounded to the nearest integer, halves up.
pub open spec fn rounded_bucket(millis: int, buckets: int) -> int {
    (2 * millis * buckets + 86_400_000) / 172_800_000
}

/// The bucket of an offset: the rounded position, folded into the last
/// bucket where rounding reaches the bucket count.
pub open spec fn bucket_of(millis: int, buckets: int) -> int {
    if rounded_bucket(millis, buckets) >= buckets {
        buckets - 1
    } else {
        rounded_bucket(millis, buckets)
    }
}

/// The number of buckets per day for blocks of `block_minutes` minutes,
/// `1440 / block_minutes`. A block of zero minutes, or one longer than a
/// day, leaves no bucket and is refused.
pub fn buckets_for_block(block_minutes: u32) -> (r: Result<usize, ConfigurationError>)
    ensures
        r == (if 1 <= block_minutes <= 1440 {
            Ok::<usize, ConfigurationError>((1440int / block_minutes as int) as usize)
        } else {
            Err(ConfigurationError::NoBuckets)
        }),
        r matches Ok(n) ==> 1 <= n <= 1440,
{
    if block_minutes == 0 || block_minutes > 1440 {
        Err(ConfigurationError::NoBuckets)
    } else {
        let n: u32 = 1440 / block_minutes;
        assert(1 <= n <= 1440) by (nonlinear_arith)
            requires
                1 <= block_minutes <= 1440,
                n == 1440int / block_minutes as int,
        ;
        Ok(n as usize)
    }
}

/// Maps an offset to its bucket among `buckets` equal parts of the day:
/// the nearest bucket boundary, clamped to the last bucket.
pub fn bucket_index(offset: BusinessOffset, buckets: usize) -> (r: Result<usize, ConfigurationError>)
    requires
        offset.wf(),
    ensures
        buckets == 0 ==> r == Err::<usize, ConfigurationError>(ConfigurationError::NoBuckets),
        buckets > 0 ==> r == Ok::<usize, ConfigurationError>(
            bucket_of(offset.millis as int, buckets as int) as usize,
        ),
        r matches Ok(i) ==> i < buckets,
{
    if buckets == 0 {
        return Err(ConfigurationError::NoBuckets);
    }
    let doubled: u128 = 2 * (offset.millis as u128);
    assert(doubled * buckets <= 172_800_000 * 0x1_0000_0000_0000_0000) by (nonlinear_arith)
        requires
            doubled <= 172_800_000,
            buckets <= 0xffff_ffff_ffff_ffff,
    ;
    let scaled: u128 = doubled * (buckets as u128) + 86_400_000;
    let rounded: u128 = scaled / 172_800_000;
    assert(2 * (offset.millis as int) * (buckets as int) == doubled * buckets) by (nonlinear_arith)
        requires
            doubled == 2 * (offset.millis as int),
    ;
    assert(rounded == rounded_bucket(offset.millis as int, buckets as int));
    if rounded >= buckets as u128 {
        Ok(buckets - 1)
    } else {
        Ok(rounded as usize)
    }
}

/// The bucket of a clock time at hourly granularity: the hour of the
/// business day, by integer arithmetic on the clock hour alone.
pub fn hourly_bucket(time: ClockTime) -> (r: usize)
    requires
        time.wf(),
    ensures
        r == business_hour(time.spec_hour()),
        r < 24,
{
    let hour: u32 = time.hour();
    if hour < 3 {
        (hour + 21) as usize
    } else {
        (hour - 3) as usize
    }
}

/// Every offset of the day lands in a bucket that exists.
pub proof fn lemma_bucket_in_range(offset: BusinessOffset, buckets: int)
    requires
        offset.wf(),
        buckets >= 1,
    ensures
        0 <= bucket_of(offset.millis as int, buckets) <= buckets - 1,
{
    assert(0 <= 2 * (offset.millis as int) * buckets) by (nonlinear_arith)
        requires
            offset.millis >= 0,
            buckets >= 1,
    ;
}

/// Where no clamping takes place, the bucket is the integer nearest to
/// `millis * buckets / 86_400_000`: at most half a bucket away, a tie going
/// to the higher one.
pub proof fn lemma_bucket_is_nearest(offset: BusinessOffset, buckets: int)
    requires
        offset.wf(),
        buckets >= 1,
        rounded_bucket(offset.millis as int, buckets) < buckets,
    ensures
        ({
            let b = bucket_of(offset.millis as int, buckets);
            let exact = 2 * (offset.millis as int) * buckets;
            exact - 86_400_000 < 2 * b * 86_400_000 <= exact + 86_400_000
        }),
{
}

/// Clamping only ever happens in the last half bucket of the day.
pub proof fn lemma_clamp_only_at_day_end(offset: BusinessOffset, buckets: int)
    requires
        offset.wf(),
        buckets >= 1,
        rounded_bucket(offset.millis as int, buckets) >= buckets,
    ensures
        rounded_bucket(offset.millis as int, buckets) == buckets,
        2 * (offset.millis as int) * buckets >= (2 * buckets - 1) * 86_400_000,
{
    let m = offset.millis as int;
    assert(2 * m * buckets <= 2 * 86_399_999 * buckets) by (nonlinear_arith)
        requires
            m <= 86_399_999,
            buckets >= 1,
    ;
    assert(2 * 86_399_999 * buckets + 86_400_000 < (buckets + 1) * 172_800_000) by (nonlinear_arith)
        requires
            buckets >= 1,
    ;
}

/// At hourly granularity the rounding rule and the integer-hour rule agree
/// on whole-hour offsets.
pub proof fn lemma_hourly_agrees(time: ClockTime)
    requires
        time.wf(),
    ensures
        bucket_of(time.spec_hour_offset().millis as int, 24) == business_hour(time.spec_hour()),
{
}

} // verus!
