use vstd::prelude::*;
use crate::kra_history::KraHistoryError;
use crate::timestamp::{Date, Timestamp};
use crate::timestamp::local_now;

verus! {

/// An inclusive span of instants covering one or more consecutive logical
/// days: the end is exactly one second before the next day's start.
#[derive(Clone, Copy, PartialEq, Eq, Structural, Debug)]
pub struct DayRange {
    pub start: Timestamp,
    pub end: Timestamp,
}

impl DayRange {
    /// Well-formed: both bounds are inside a day and the span is not empty.
    pub open spec fn wf(self) -> bool {
        self.start.wf() && self.end.wf() && self.start.spec_le(self.end)
    }

    /// The instant lies inside the inclusive span.
    pub open spec fn spec_contains(self, t: Timestamp) -> bool {
        self.start.spec_le(t) && t.spec_le(self.end)
    }
}

/// The hour-of-day of an instant.
pub open spec fn hour_of(t: Timestamp) -> int {
    t.secs as int / 3600
}

/// The logical day an instant belongs to: the instant's own date when its
/// hour has reached the day-start hour, else the previous date.
pub open spec fn spec_belong_day(start_hour: u32, t: Timestamp) -> Date {
    if t.secs >= start_hour * 3600 {
        Date { day: t.day }
    } else {
        Date { day: (t.day - 1) as i64 }
    }
}

/// The instant a logical day starts at, under the given day-start hour.
pub open spec fn spec_day_start(start_hour: u32, date: Date) -> Timestamp {
    Timestamp { day: date.day, secs: (start_hour * 3600) as u32 }
}

/// The inclusive range of one logical day.
pub open spec fn spec_day_range(start_hour: u32, date: Date) -> DayRange {
    DayRange {
        start: spec_day_start(start_hour, date),
        end: spec_day_start(start_hour, Date { day: (date.day + 1) as i64 }).spec_pred(),
    }
}

/// The inclusive range from the first logical day's start to the last
/// logical day's end.
pub open spec fn spec_span_range(start_hour: u32, from_date: Date, to_date: Date) -> DayRange {
    DayRange {
        start: spec_day_range(start_hour, from_date).start,
        end: spec_day_range(start_hour, to_date).end,
    }
}

/// Maps an instant to the logical day it belongs to.
pub fn get_belong_day(start_hour: u32, datetime: Timestamp) -> (d: Date)
    requires
        datetime.wf(),
        datetime.day > i64::MIN,
    ensures
        d == spec_belong_day(start_hour, datetime),
        d.day == datetime.day || d.day == datetime.day - 1,
{
    if start_hour <= 23 && datetime.secs >= start_hour * 3600 {
        Date { day: datetime.day }
    } else {
        proof {
            if start_hour > 23 {
                assert(start_hour * 3600 >= 86400);
            }
        }
        Date { day: datetime.day - 1 }
    }
}

/// The logical day of an instant is a pure function of its inputs, so
/// re-evaluating it gives the same date; that date is the instant's own
/// date exactly when its hour has reached the start hour, and the date
/// just before it otherwise.
pub proof fn lemma_belong_day(start_hour: u32, t: Timestamp)
    requires
        t.wf(),
        t.day > i64::MIN,
    ensures
        spec_belong_day(start_hour, t) == spec_belong_day(start_hour, t),
        spec_belong_day(start_hour, t).day == t.day || spec_belong_day(start_hour, t).day == t.day
            - 1,
        spec_belong_day(start_hour, t).day == t.day <==> hour_of(t) >= start_hour,
{
    assert(t.secs >= start_hour * 3600 <==> t.secs as int / 3600 >= start_hour) by (nonlinear_arith);
}

/// The inclusive range of one logical day: from the date at the start hour
/// to one second before the next date at the start hour.
pub fn get_day_range(start_hour: u32, date: Date) -> (r: Result<DayRange, KraHistoryError>)
    requires
        date.day < i64::MAX,
    ensures
        start_hour < 24 ==> (r matches Ok(dr) && dr == spec_day_range(start_hour, date) && dr.wf()),
        start_hour >= 24 ==> (r matches Err(e) && e is InvalidConfiguration),
{
    if start_hour >= 24 {
        return Err(KraHistoryError::InvalidConfiguration);
    }
    let start = Timestamp { day: date.day, secs: start_hour * 3600 };
    let end = if start_hour > 0 {
        Timestamp { day: date.day + 1, secs: start_hour * 3600 - 1 }
    } else {
        Timestamp { day: date.day, secs: 86399 }
    };
    Ok(DayRange { start, end })
}

/// A logical day's range starts at the configured hour, and consecutive
/// logical days leave no gap and no overlap: each range ends exactly one
/// second before the next day's range starts.
pub proof fn lemma_day_ranges_adjacent(start_hour: u32, date: Date)
    requires
        start_hour < 24,
        date.day < i64::MAX,
    ensures
        hour_of(spec_day_range(start_hour, date).start) == start_hour,
        spec_day_range(start_hour, date).end == spec_day_range(
            start_hour,
            Date { day: (date.day + 1) as i64 },
        ).start.spec_pred(),
{
    assert(start_hour * 3600 / 3600 == start_hour) by (nonlinear_arith)
        requires start_hour < 24,
    ;
}

/// A single-day span collapses to that day's own range.
pub proof fn lemma_span_single_day(start_hour: u32, date: Date)
    ensures
        spec_span_range(start_hour, date, date) == spec_day_range(start_hour, date),
{
}

/// The range from the start of one logical day to the end of another.
pub fn span_range(start_hour: u32, from_date: Date, to_date: Date) -> (r: Result<
    DayRange,
    KraHistoryError,
>)
    requires
        from_date.day <= to_date.day,
        to_date.day < i64::MAX,
    ensures
        start_hour < 24 ==> (r matches Ok(dr) && dr == spec_span_range(
            start_hour,
            from_date,
            to_date,
        ) && dr.wf()),
        start_hour >= 24 ==> (r matches Err(e) && e is InvalidConfiguration),
{
    let first = get_day_range(start_hour, from_date)?;
    let last = get_day_range(start_hour, to_date)?;
    Ok(DayRange { start: first.start, end: last.end })
}

/// The range covering the `days` most recent logical days, up to and
/// including the logical day of the instant `now`.
pub open spec fn spec_last_n_range(start_hour: u32, days: u32, now: Timestamp) -> DayRange {
    let today = spec_belong_day(start_hour, now);
    spec_span_range(
        start_hour,
        Date { day: (today.day - days + 1) as i64 },
        today,
    )
}

/// The range of the `days` most recent logical days as seen from the
/// instant `now`: `days = 1` yields exactly the logical day of `now`.
pub fn last_n_day_range_at(start_hour: u32, days: u32, now: Timestamp) -> (r: Result<
    DayRange,
    KraHistoryError,
>)
    requires
        days >= 1,
        now.wf(),
        i32::MIN <= now.day <= i32::MAX,
    ensures
        start_hour < 24 ==> (r matches Ok(dr) && dr == spec_last_n_range(start_hour, days, now)
            && dr.wf()),
        start_hour >= 24 ==> (r matches Err(e) && e is InvalidConfiguration),
{
    if start_hour >= 24 {
        return Err(KraHistoryError::InvalidConfiguration);
    }
    let today = get_belong_day(start_hour, now);
    let first = Date { day: today.day - (days as i64) + 1 };
    span_range(start_hour, first, today)
}

/// The range of the `days` most recent logical days, ending with the
/// logical day that holds the current local time.
pub fn last_n_day_range(start_hour: u32, days: u32) -> (r: Result<DayRange, KraHistoryError>)
    requires
        days >= 1,
    ensures
        r is Ok <==> start_hour < 24,
        r matches Ok(dr) ==> dr.wf() && (exists|now: Timestamp|
            now.wf() && dr == spec_last_n_range(start_hour, days, now)),
        r matches Err(e) ==> e is InvalidConfiguration,
{
    let now = local_now();
    last_n_day_range_at(start_hour, days, now)
}

/// The range of the logical day that holds the current local time.
pub fn today_range(start_hour: u32) -> (r: Result<DayRange, KraHistoryError>)
    ensures
        r is Ok <==> start_hour < 24,
        r matches Ok(dr) ==> dr.wf() && (exists|now: Timestamp|
            now.wf() && dr == spec_last_n_range(start_hour, 1, now)),
        r matches Err(e) ==> e is InvalidConfiguration,
{
    last_n_day_range(start_hour, 1)
}

/// Iterating the days of a span is restartable: the contract pins every
/// entry, so any two sequences that satisfy it are the same sequence.
pub proof fn lemma_day_range_iter_restartable(
    start_hour: u32,
    start_date: Date,
    end_date: Date,
    v1: Seq<(Date, DayRange)>,
    v2: Seq<(Date, DayRange)>,
)
    requires
        v1.len() == if start_date.day <= end_date.day {
            end_date.day - start_date.day + 1
        } else {
            0
        },
        forall|i: int| 0 <= i < v1.len() ==> (#[trigger] v1[i].0).day == start_date.day + i,
        forall|i: int|
            0 <= i < v1.len() ==> #[trigger] v1[i].1 == spec_day_range(start_hour, v1[i].0),
        v2.len() == v1.len(),
        forall|i: int| 0 <= i < v2.len() ==> (#[trigger] v2[i].0).day == start_date.day + i,
        forall|i: int|
            0 <= i < v2.len() ==> #[trigger] v2[i].1 == spec_day_range(start_hour, v2[i].0),
    ensures
        v1 == v2,
{
    assert forall|i: int| 0 <= i < v1.len() implies v1[i] == v2[i] by {
        assert(v1[i].0 == v2[i].0);
        assert(v1[i].1 == v2[i].1);
    }
    assert(v1 =~= v2);
}

/// One entry per calendar date between the bounds, in ascending order,
/// each with its logical day's inclusive range.
pub fn day_range_iter(start_hour: u32, start_date: Date, end_date: Date) -> (r: Result<
    Vec<(Date, DayRange)>,
    KraHistoryError,
>)
    requires
        end_date.day < i64::MAX,
    ensures
        start_hour >= 24 ==> (r matches Err(e) && e is InvalidConfiguration),
        start_hour < 24 ==> (r matches Ok(v) && {
            &&& v@.len() == if start_date.day <= end_date.day {
                end_date.day - start_date.day + 1
            } else {
                0
            }
            &&& forall|i: int| 0 <= i < v@.len() ==> (#[trigger] v@[i].0).day == start_date.day + i
            &&& forall|i: int|
                0 <= i < v@.len() ==> #[trigger] v@[i].1 == spec_day_range(start_hour, v@[i].0)
            &&& forall|i: int, j: int|
                0 <= i < j < v@.len() ==> (#[trigger] v@[i].0).day < (#[trigger] v@[j].0).day
        }),
{
    if start_hour >= 24 {
        return Err(KraHistoryError::InvalidConfiguration);
    }
    let mut v: Vec<(Date, DayRange)> = Vec::new();
    let mut d: i64 = start_date.day;
    while d <= end_date.day
        invariant
            start_hour < 24,
            end_date.day < i64::MAX,
            start_date.day <= d,
            d <= end_date.day + 1 || d == start_date.day,
            v@.len() == d - start_date.day,
            forall|i: int| 0 <= i < v@.len() ==> (#[trigger] v@[i].0).day == start_date.day + i,
            forall|i: int|
                0 <= i < v@.len() ==> #[trigger] v@[i].1 == spec_day_range(start_hour, v@[i].0),
        decreases end_date.day - d + 1,
    {
        let date = Date { day: d };
        let dr = match get_day_range(start_hour, date) {
            Ok(dr) => dr,
            Err(_) => {
                proof {
                    assert(false);
                }
                return Err(KraHistoryError::InvalidConfiguration);
            },
        };
        v.push((date, dr));
        d += 1;
    }
    Ok(v)
}

} // verus!
