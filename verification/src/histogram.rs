//! Histograms keyed by line, or by date and line.

use vstd::prelude::*;

verus! {

/// The mathematical key of a histogram: the date, where histograms are kept
/// per date, and the line.
pub type KeyModel = (Option<Seq<char>>, Seq<char>);

/// The key of a histogram.
#[derive(Debug)]
pub struct HistogramKey {
    /// The business date, present where every date has its own histograms.
    pub date: Option<String>,
    /// The line name.
    pub line: String,
}

/// One histogram: a key and one accumulator per bucket of the day.
#[derive(Debug)]
pub struct LineHistogram {
    pub key: HistogramKey,
    pub counts: Vec<u128>,
}

/// The histograms of one run: at most one per key, all of one length.
#[derive(Debug)]
pub struct HistogramTable {
    pub entries: Vec<LineHistogram>,
    pub buckets: usize,
}

/// The date that an optional date string stands for.
pub open spec fn date_model(date: Option<String>) -> Option<Seq<char>> {
    match date {
        Some(d) => Some(d@),
        None => None,
    }
}

/// The key that a date and a line stand for.
pub open spec fn key_model(date: Option<String>, line: String) -> KeyModel {
    (date_model(date), line@)
}

impl HistogramKey {
    pub open spec fn model(self) -> KeyModel {
        key_model(self.date, self.line)
    }
}

/// Rows of `buckets` accumulators each, no key twice.
pub open spec fn rows_wf(rows: Seq<LineHistogram>, buckets: int) -> bool {
    &&& forall|j: int| 0 <= j < rows.len() ==> (#[trigger] rows[j]).counts@.len() == buckets
    &&& forall|j: int, k: int|
        0 <= j < rows.len() && 0 <= k < rows.len() && j != k ==> (#[trigger] rows[j]).key.model()
            != (#[trigger] rows[k]).key.model()
}

/// Whether some row carries `key`.
pub open spec fn has_row(rows: Seq<LineHistogram>, key: KeyModel) -> bool {
    exists|j: int| 0 <= j < rows.len() && (#[trigger] rows[j]).key.model() == key
}

/// The position of the row that carries `key`.
pub open spec fn row_of(rows: Seq<LineHistogram>, key: KeyModel) -> int {
    choose|j: int| 0 <= j < rows.len() && (#[trigger] rows[j]).key.model() == key
}

/// The accumulator of `key` at `bucket`; zero for a key without a row.
pub open spec fn count_at(rows: Seq<LineHistogram>, key: KeyModel, bucket: int) -> int {
    if has_row(rows, key) {
        rows[row_of(rows, key)].counts@[bucket] as int
    } else {
        0
    }
}

/// In well-formed rows a key names its row.
pub proof fn lemma_row_of(rows: Seq<LineHistogram>, buckets: int, j: int)
    requires
        rows_wf(rows, buckets),
        0 <= j < rows.len(),
    ensures
        has_row(rows, rows[j].key.model()),
        row_of(rows, rows[j].key.model()) == j,
{
    let key = rows[j].key.model();
    let found = row_of(rows, key);
    assert(0 <= found < rows.len() && rows[found].key.model() == key);
}

impl View for HistogramTable {
    type V = Map<KeyModel, Seq<u128>>;

    /// The table as a mapping from key to accumulators.
    open spec fn view(&self) -> Map<KeyModel, Seq<u128>> {
        Map::new(
            |key: KeyModel| has_row(self.entries@, key),
            |key: KeyModel| self.entries@[row_of(self.entries@, key)].counts@,
        )
    }
}

impl HistogramTable {
    pub open spec fn wf(self) -> bool {
        rows_wf(self.entries@, self.buckets as int)
    }

    /// The number of histograms.
    pub fn len(&self) -> (r: usize)
        ensures
            r == self.entries@.len(),
            r == 0 <==> self@.dom() =~= Set::<KeyModel>::empty(),
    {
        proof {
            if self.entries@.len() > 0 {
                assert(has_row(self.entries@, self.entries@[0].key.model()));
                assert(self@.dom().contains(self.entries@[0].key.model()));
            }
        }
        self.entries.len()
    }

    /// The accumulators of the histogram with this date and line, if there
    /// is one.
    pub fn get(&self, date: &Option<String>, line: &String) -> (r: Option<&Vec<u128>>)
        requires
            self.wf(),
        ensures
            r.is_some() <==> self@.contains_key(key_model(*date, *line)),
            r matches Some(counts) ==> counts@ == self@[key_model(*date, *line)]
                && counts@.len() == self.buckets,
    {
        match position(&self.entries, date, line) {
            Some(j) => {
                proof {
                    lemma_row_of(self.entries@, self.buckets as int, j as int);
                }
                Some(&self.entries[j].counts)
            },
            None => None,
        }
    }
}

/// Whether two optional dates are the same.
pub fn same_date(a: &Option<String>, b: &Option<String>) -> (r: bool)
    ensures
        r == (date_model(*a) == date_model(*b)),
{
    match (a, b) {
        (Some(x), Some(y)) => *x == *y,
        (None, None) => true,
        _ => false,
    }
}

/// The position of the row with this date and line.
pub fn position(rows: &Vec<LineHistogram>, date: &Option<String>, line: &String) -> (r: Option<
    usize,
>)
    ensures
        r matches Some(j) ==> j < rows@.len() && rows@[j as int].key.model() == key_model(
            *date,
            *line,
        ),
        r.is_none() ==> !has_row(rows@, key_model(*date, *line)),
        r.is_some() ==> has_row(rows@, key_model(*date, *line)),
{
    let mut j: usize = 0;
    while j < rows.len()
        invariant
            j <= rows@.len(),
            forall|k: int| 0 <= k < j ==> (#[trigger] rows@[k]).key.model() != key_model(*date, *line),
        decreases rows@.len() - j,
    {
        if rows[j].key.line == *line && same_date(&rows[j].key.date, date) {
            return Some(j);
        }
        j += 1;
    }
    None
}

/// A histogram of `buckets` zeroes.
pub fn zeroes(buckets: usize) -> (r: Vec<u128>)
    ensures
        r@.len() == buckets,
        forall|b: int| 0 <= b < buckets ==> r@[b] == 0,
{
    let mut counts: Vec<u128> = Vec::new();
    let mut b: usize = 0;
    while b < buckets
        invariant
            b <= buckets,
            counts@.len() == b,
            forall|k: int| 0 <= k < b ==> counts@[k] == 0,
        decreases buckets - b,
    {
        counts.push(0);
        b += 1;
    }
    counts
}

/// Adds `amount` to the accumulator of `key` at `bucket`, with a fresh row
/// of zeroes where the key has none yet. Every other accumulator stays.
pub fn credit(
    rows: &mut Vec<LineHistogram>,
    key: HistogramKey,
    bucket: usize,
    amount: u128,
    buckets: usize,
)
    requires
        rows_wf(old(rows)@, buckets as int),
        bucket < buckets,
        count_at(old(rows)@, key.model(), bucket as int) + amount <= u128::MAX,
    ensures
        rows_wf(final(rows)@, buckets as int),
        forall|k: KeyModel|
            has_row(final(rows)@, k) <==> (has_row(old(rows)@, k) || k == key.model()),
        forall|k: KeyModel, b: int|
            0 <= b < buckets ==> #[trigger] count_at(final(rows)@, k, b) == count_at(
                old(rows)@,
                k,
                b,
            ) + (if k == key.model() && b == bucket {
                amount as int
            } else {
                0
            }),
{
    let ghost before = rows@;
    let ghost target = key.model();
    match position(rows, &key.date, &key.line) {
        Some(j) => {
            proof {
                lemma_row_of(before, buckets as int, j as int);
            }
            let sum: u128 = rows[j].counts[bucket] + amount;
            rows[j].counts[bucket] = sum;
            proof {
                let after = rows@;
                assert(after.len() == before.len());
                assert forall|i: int| 0 <= i < after.len() implies (#[trigger] after[i]).key
                    == before[i].key by {}
                assert(rows_wf(after, buckets as int));
                assert forall|k: KeyModel| has_row(after, k) <==> (has_row(before, k) || k
                    == target) by {
                    if has_row(after, k) {
                        let i = row_of(after, k);
                        assert(before[i].key.model() == k);
                    }
                    if has_row(before, k) {
                        let i = row_of(before, k);
                        assert(after[i].key.model() == k);
                    }
                    if k == target {
                        assert(after[j as int].key.model() == k);
                    }
                }
                assert forall|k: KeyModel, b: int| 0 <= b < buckets implies #[trigger] count_at(
                    after,
                    k,
                    b,
                ) == count_at(before, k, b) + (if k == target && b == bucket {
                    amount as int
                } else {
                    0
                }) by {
                    if has_row(before, k) {
                        let i = row_of(before, k);
                        assert(after[i].key.model() == k);
                        lemma_row_of(after, buckets as int, i);
                        lemma_row_of(before, buckets as int, i);
                    }
                }
            }
        },
        None => {
            let counts = zeroes(buckets);
            rows.push(LineHistogram { key, counts });
            let last: usize = rows.len() - 1;
            rows[last].counts[bucket] = amount;
            proof {
                let after = rows@;
                assert(after.len() == before.len() + 1);
                assert forall|i: int| 0 <= i < before.len() implies (#[trigger] after[i])
                    == before[i] by {}
                assert(after[last as int].key.model() == target);
                assert forall|i: int| 0 <= i < before.len() implies (#[trigger] before[i]).key.model()
                    != target by {}
                assert(rows_wf(after, buckets as int));
                assert forall|k: KeyModel| has_row(after, k) <==> (has_row(before, k) || k
                    == target) by {
                    if has_row(after, k) {
                        let i = row_of(after, k);
                        if i < before.len() {
                            assert(before[i].key.model() == k);
                        }
                    }
                    if has_row(before, k) {
                        let i = row_of(before, k);
                        assert(after[i].key.model() == k);
                    }
                    if k == target {
                        assert(after[last as int].key.model() == k);
                    }
                }
                assert forall|k: KeyModel, b: int| 0 <= b < buckets implies #[trigger] count_at(
                    after,
                    k,
                    b,
                ) == count_at(before, k, b) + (if k == target && b == bucket {
                    amount as int
                } else {
                    0
                }) by {
                    if k == target {
                        lemma_row_of(after, buckets as int, last as int);
                    } else if has_row(before, k) {
                        let i = row_of(before, k);
                        assert(after[i].key.model() == k);
                        lemma_row_of(after, buckets as int, i);
                        lemma_row_of(before, buckets as int, i);
                    }
                }
            }
        },
    }
}

} // verus!
