use vstd::prelude::*;

verus! {

/// A calendar date, counted as a day number from the start of the common
/// era: day 1 is the first day of year 1, matching chrono's day count.
#[derive(Clone, Copy, PartialEq, Eq, Structural, Debug)]
pub struct Date {
    pub day: i64,
}

/// An instant with one-second resolution: a date's day number plus the
/// seconds elapsed since that date's midnight.
#[derive(Clone, Copy, PartialEq, Eq, Structural, Debug)]
pub struct Timestamp {
    pub day: i64,
    pub secs: u32,
}

impl Timestamp {
    /// Well-formed: the second-of-day component stays inside one day.
    pub open spec fn wf(self) -> bool {
        self.secs < 86400
    }

    /// `self` is no later than `other`.
    pub open spec fn spec_le(self, other: Timestamp) -> bool {
        self.day < other.day || (self.day == other.day && self.secs <= other.secs)
    }

    /// One second earlier.
    pub open spec fn spec_pred(self) -> Timestamp {
        if self.secs > 0 {
            Timestamp { day: self.day, secs: (self.secs - 1) as u32 }
        } else {
            Timestamp { day: (self.day - 1) as i64, secs: 86399 }
        }
    }

    /// Compares two instants, earlier-or-equal first.
    pub fn le(&self, other: &Timestamp) -> (r: bool)
        ensures
            r == self.spec_le(*other),
    {
        if self.day != other.day {
            self.day < other.day
        } else {
            self.secs <= other.secs
        }
    }
}

/// What chrono reads out of a text of the form `YYYY-MM-DD HH:MM:SS`:
/// `None` where the text is rejected, otherwise the day number from the
/// common era and the second of the day.
pub uninterp spec fn chrono_datetime_of(s: Seq<char>) -> Option<(int, int)>;

/// What chrono prints, in the form `YYYY-MM-DD HH:MM:SS`, for a given day
/// number from the common era and second of the day.
pub uninterp spec fn chrono_text_of(day: int, secs: int) -> Seq<char>;

/// Relies on `chrono::NaiveDateTime::parse_from_str` with the pattern
/// `%Y-%m-%d %H:%M:%S`: its result is a function of the text alone; a day
/// number from chrono is an `i32`, and `num_seconds_from_midnight` is
/// documented to stay below 86400.
#[verifier::external_body]
pub(crate) fn parse_datetime(s: &str) -> (r: Option<Timestamp>)
    ensures
        match r {
            Some(t) => chrono_datetime_of(s@) == Some((t.day as int, t.secs as int))
                && i32::MIN <= t.day <= i32::MAX && t.wf(),
            None => chrono_datetime_of(s@) is None,
        },
{
    match chrono::NaiveDateTime::parse_from_str(s, "%Y-%m-%d %H:%M:%S") {
        Ok(dt) => Some(Timestamp {
            day: chrono::Datelike::num_days_from_ce(&dt.date()) as i64,
            secs: chrono::Timelike::num_seconds_from_midnight(&dt.time()),
        }),
        Err(_) => None,
    }
}

/// Relies on `chrono::NaiveDate::from_num_days_from_ce_opt`,
/// `chrono::NaiveTime::from_num_seconds_from_midnight_opt` and chrono's
/// `format` with the pattern `%Y-%m-%d %H:%M:%S`: printing is a function of
/// the day number and the second of the day alone, and chrono covers at
/// least the years 1 through 9999 (day numbers 1 through 3652059).
#[verifier::external_body]
pub(crate) fn format_datetime(t: &Timestamp) -> (r: Option<String>)
    ensures
        r matches Some(s) ==> s@ == chrono_text_of(t.day as int, t.secs as int),
        1 <= t.day <= 3652059 && t.secs < 86400 ==> r is Some,
{
    let date = chrono::NaiveDate::from_num_days_from_ce_opt(i32::try_from(t.day).ok()?)?;
    let time = chrono::NaiveTime::from_num_seconds_from_midnight_opt(t.secs, 0)?;
    let text = chrono::NaiveDateTime::new(date, time).format("%Y-%m-%d %H:%M:%S");
    Some(text.to_string())
}

/// Relies on `chrono::Local::now` for the current local time: nothing is
/// promised about which instant comes back, only that chrono hands out a
/// well-formed datetime whose day number is an `i32` and whose second of
/// the day is below 86400.
#[verifier::external_body]
pub(crate) fn local_now() -> (r: Timestamp)
    ensures
        i32::MIN <= r.day <= i32::MAX && r.wf(),
{
    let now = chrono::Local::now().naive_local();
    Timestamp {
        day: chrono::Datelike::num_days_from_ce(&now.date()) as i64,
        secs: chrono::Timelike::num_seconds_from_midnight(&now.time()),
    }
}

} // verus!
