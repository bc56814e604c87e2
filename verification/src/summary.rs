//! Whole-of-input totals per line, whatever the date and the time.

use vstd::prelude::*;
use crate::aggregate::Event;
use crate::histogram::HistogramKey;
use crate::histogram::HistogramTable;
use crate::histogram::KeyModel;
use crate::histogram::LineHistogram;
use crate::histogram::count_at;
use crate::histogram::credit;
use crate::histogram::has_row;
use crate::histogram::row_of;
use crate::histogram::rows_wf;

verus! {

/// The column of a line's boardings.
pub const BOARDINGS: usize = 0;

/// The column of a line's alightings.
pub const ALIGHTINGS: usize = 1;

/// The column of a line's movements: boardings and alightings together.
pub const MOVEMENTS: usize = 2;

/// The column of the number of events on a line.
pub const SERVICES: usize = 3;

/// The number of columns of a totals table.
pub const COLUMNS: usize = 4;

/// What one event adds to a column.
pub open spec fn column_value(e: Event, column: int) -> nat {
    if column == 0 {
        e.boardings as nat
    } else if column == 1 {
        e.alightings as nat
    } else if column == 2 {
        (e.boardings + e.alightings) as nat
    } else {
        1
    }
}

/// The sum of a column over the events of one line.
pub open spec fn line_sum(events: Seq<Event>, line: Seq<char>, column: int) -> nat
    decreases events.len(),
{
    if events.len() == 0 {
        0
    } else {
        line_sum(events.drop_last(), line, column) + (if events.last().line_name@ == line {
            column_value(events.last(), column)
        } else {
            0
        })
    }
}

/// Whether some event is on `line`.
pub open spec fn mentions(events: Seq<Event>, line: Seq<char>) -> bool {
    exists|i: int| 0 <= i < events.len() && (#[trigger] events[i]).line_name@ == line
}

/// The totals of an input: one row per line that occurs, keyed by the line
/// name as given, with the four columns summed over the line's events.
pub open spec fn totals(events: Seq<Event>) -> Map<KeyModel, Seq<u128>> {
    Map::new(
        |key: KeyModel| key.0.is_none() && mentions(events, key.1),
        |key: KeyModel| Seq::new(4, |c: int| line_sum(events, key.1, c) as u128),
    )
}

/// One more event changes whether a line occurs only through itself.
pub proof fn lemma_mentions_step(events: Seq<Event>, line: Seq<char>)
    requires
        events.len() > 0,
    ensures
        mentions(events, line) <==> (mentions(events.drop_last(), line)
            || events.last().line_name@ == line),
{
    let front = events.drop_last();
    if mentions(events, line) {
        let i = choose|i: int| 0 <= i < events.len() && (#[trigger] events[i]).line_name@ == line;
        if i < front.len() {
            assert(front[i] == events[i]);
        }
    }
    if mentions(front, line) {
        let i = choose|i: int| 0 <= i < front.len() && (#[trigger] front[i]).line_name@ == line;
        assert(events[i] == front[i]);
    }
    if events.last().line_name@ == line {
        assert(events[events.len() - 1] == events.last());
    }
}

/// No column sum exceeds what the events can have brought.
pub proof fn lemma_line_sum_bound(events: Seq<Event>, line: Seq<char>, column: int)
    ensures
        line_sum(events, line, column) <= events.len() * 0x2_0000_0000,
    decreases events.len(),
{
    if events.len() > 0 {
        lemma_line_sum_bound(events.drop_last(), line, column);
        assert((events.len() - 1) * 0x2_0000_0000 + 0x2_0000_0000 == events.len()
            * 0x2_0000_0000) by (nonlinear_arith);
    }
}

/// Sums boardings, alightings and movements, and counts the events, for
/// each line of the input. Every event counts: no filter, no date, no time
/// is looked at.
pub fn line_totals(events: &Vec<Event>) -> (r: HistogramTable)
    ensures
        r.wf(),
        r.buckets == COLUMNS,
        r@ == totals(events@),
        forall|key: KeyModel, c: int|
            r@.contains_key(key) && 0 <= c < 4 ==> #[trigger] r@[key][c] == line_sum(
                events@,
                key.1,
                c,
            ),
{
    let mut rows: Vec<LineHistogram> = Vec::new();
    let mut i: usize = 0;
    while i < events.len()
        invariant
            i <= events@.len(),
            rows_wf(rows@, 4),
            forall|key: KeyModel|
                has_row(rows@, key) <==> (key.0.is_none() && mentions(
                    events@.take(i as int),
                    key.1,
                )),
            forall|key: KeyModel, c: int|
                0 <= c < 4 ==> #[trigger] count_at(rows@, key, c) == (if key.0.is_none() {
                    line_sum(events@.take(i as int), key.1, c) as int
                } else {
                    0
                }),
        decreases events@.len() - i,
    {
        let event = &events[i];
        let ghost seen = events@.take(i as int);
        let ghost next = events@.take(i + 1);
        let ghost target: KeyModel = (None, event.line_name@);
        proof {
            assert(next.drop_last() =~= seen);
            assert(next.last() == *event);
            assert forall|line: Seq<char>|
                mentions(next, line) <==> (mentions(seen, line) || event.line_name@ == line) by {
                lemma_mentions_step(next, line);
            }
            assert forall|c: int| 0 <= c < 4 implies #[trigger] line_sum(
                seen,
                event.line_name@,
                c,
            ) + 0x2_0000_0000 <= u128::MAX by {
                lemma_line_sum_bound(seen, event.line_name@, c);
                assert(seen.len() * 0x2_0000_0000 <= 0x1_0000_0000_0000_0000 * 0x2_0000_0000)
                    by (nonlinear_arith)
                    requires
                        seen.len() <= 0x1_0000_0000_0000_0000,
                ;
            }
            assert(count_at(rows@, target, 0) == line_sum(seen, event.line_name@, 0));
            assert(count_at(rows@, target, 1) == line_sum(seen, event.line_name@, 1));
            assert(count_at(rows@, target, 2) == line_sum(seen, event.line_name@, 2));
            assert(count_at(rows@, target, 3) == line_sum(seen, event.line_name@, 3));
        }
        let ghost start = rows@;
        let boardings: u128 = event.boardings as u128;
        let alightings: u128 = event.alightings as u128;
        credit(&mut rows, HistogramKey { date: None, line: event.line_name.clone() }, BOARDINGS, boardings, COLUMNS);
        credit(&mut rows, HistogramKey { date: None, line: event.line_name.clone() }, ALIGHTINGS, alightings, COLUMNS);
        credit(&mut rows, HistogramKey { date: None, line: event.line_name.clone() }, MOVEMENTS, boardings + alightings, COLUMNS);
        credit(&mut rows, HistogramKey { date: None, line: event.line_name.clone() }, SERVICES, 1, COLUMNS);
        proof {
            assert forall|key: KeyModel, c: int| 0 <= c < 4 implies #[trigger] count_at(
                rows@,
                key,
                c,
            ) == count_at(start, key, c) + (if key == target {
                column_value(*event, c) as int
            } else {
                0
            }) by {}
            assert forall|key: KeyModel| key == target <==> (key.0.is_none() && key.1
                == event.line_name@) by {}
        }
        i += 1;
    }
    let table = HistogramTable { entries: rows, buckets: COLUMNS };
    proof {
        assert(events@.take(i as int) =~= events@);
        let expected = totals(events@);
        assert forall|key: KeyModel| table@.dom().contains(key) implies #[trigger] table@[key]
            =~= expected[key] by {
            let j = row_of(rows@, key);
            assert(table@[key] == rows@[j].counts@);
            assert forall|c: int| 0 <= c < 4 implies table@[key][c] == expected[key][c] by {
                assert(count_at(rows@, key, c) == line_sum(events@, key.1, c));
            }
        }
        assert(table@ =~= expected);
        assert forall|key: KeyModel, c: int|
            table@.contains_key(key) && 0 <= c < 4 implies #[trigger] table@[key][c] == line_sum(
            events@,
            key.1,
            c,
        ) by {
            assert(count_at(rows@, key, c) == line_sum(events@, key.1, c));
        }
    }
    table
}

} // verus!
