//! Dates and moments.
use chrono::{DateTime, NaiveDate};
use vstd::prelude::*;

use crate::text::opt_text;

verus! {

/// The first second of the first day that there is a date for: the first of January 262144 BCE.
pub const FIRST_SECOND: i64 = -8_334_601_228_800;

/// The last second of the last day that there is a date for: the last of December 262142 CE.
pub const LAST_SECOND: i64 = 8_210_266_876_799;

/// The number of the first day that there is a date for.
pub const FIRST_DAY: i32 = -96_465_292;

/// The number of the last day that there is a date for.
pub const LAST_DAY: i32 = 95_026_236;

/// Whether a moment lies that many seconds, and nanoseconds besides, after the start of 1970. More
/// nanoseconds than a second has are those of a leap second, which ends a minute.
pub open spec fn is_moment(seconds: i64, nanoseconds: u32) -> bool {
    &&& FIRST_SECOND <= seconds <= LAST_SECOND
    &&& nanoseconds < 1_000_000_000 || (nanoseconds < 2_000_000_000 && seconds as int % 60 == 59)
}

/// A moment in RFC 3339, told by its seconds and nanoseconds since the start of 1970.
pub uninterp spec fn rfc3339_text(seconds: i64, nanoseconds: u32) -> Seq<char>;

/// `chrono::DateTime::to_rfc3339` in UTC, of the moment that `chrono::DateTime::from_timestamp` makes of
/// the two numbers: the text depends on them alone.
#[verifier::external_body]
fn to_rfc3339(seconds: i64, nanoseconds: u32) -> (r: String)
    requires
        is_moment(seconds, nanoseconds),
    ensures
        r@ == rfc3339_text(seconds, nanoseconds),
{
    DateTime::from_timestamp(seconds, nanoseconds)
        .map(|moment| moment.to_rfc3339())
        .unwrap_or_default()
}

/// A moment.
#[derive(Clone, Copy, Debug, Eq, PartialEq, Structural)]
pub struct Timestamp {
    seconds: i64,
    nanoseconds: u32,
}

impl Timestamp {
    #[verifier::type_invariant]
    spec fn holds(self) -> bool {
        is_moment(self.seconds, self.nanoseconds)
    }

    /// The whole seconds since the start of 1970.
    pub closed spec fn seconds(self) -> i64 {
        self.seconds
    }

    /// The nanoseconds besides.
    pub closed spec fn nanoseconds(self) -> u32 {
        self.nanoseconds
    }

    /// The moment in RFC 3339.
    pub open spec fn text(self) -> Seq<char> {
        rfc3339_text(self.seconds(), self.nanoseconds())
    }

    /// The moment that lies that many seconds and nanoseconds after the start of 1970.
    pub fn new(seconds: i64, nanoseconds: u32) -> (r: Option<Timestamp>)
        ensures
            r is Some <==> is_moment(seconds, nanoseconds),
            r matches Some(moment) ==> moment.seconds() == seconds && moment.nanoseconds()
                == nanoseconds,
    {
        if seconds < FIRST_SECOND || seconds > LAST_SECOND {
            return None;
        }
        if nanoseconds >= 1_000_000_000 {
            if nanoseconds >= 2_000_000_000 {
                return None;
            }
            let in_minute: i64 = (seconds - FIRST_SECOND) % 60;
            assert(FIRST_SECOND as int % 60 == 0);
            if in_minute != 59 {
                return None;
            }
        }
        Some(Timestamp { seconds, nanoseconds })
    }

    /// The moment in RFC 3339.
    pub fn show(&self) -> (r: String)
        ensures
            r@ == self.text(),
    {
        proof {
            use_type_invariant(self);
        }
        to_rfc3339(self.seconds, self.nanoseconds)
    }
}

/// Whether there is a date for the day with that number, the start of 1970 being day zero.
pub open spec fn is_day(days: i32) -> bool {
    FIRST_DAY <= days <= LAST_DAY
}

/// The date of a day as a text, the start of 1970 being day zero.
pub uninterp spec fn date_text(days: i32) -> Seq<char>;

/// `Display` of the `chrono::NaiveDate` that `chrono::NaiveDate::from_epoch_days` makes of the number of
/// a day: the text depends on the number alone.
#[verifier::external_body]
fn date_to_string(days: i32) -> (r: String)
    requires
        is_day(days),
    ensures
        r@ == date_text(days),
{
    NaiveDate::from_epoch_days(days).map(|date| date.to_string()).unwrap_or_default()
}

/// The text of a date, where there is one.
pub open spec fn opt_date(date: Option<Date>) -> Option<Seq<char>> {
    match date {
        Some(date) => Some(date.text()),
        None => None,
    }
}

/// The text of a date, where there is one.
pub fn show_date(date: &Option<Date>) -> (r: Option<String>)
    ensures
        opt_text(r) == opt_date(*date),
{
    match date {
        Some(date) => Some(date.show()),
        None => None,
    }
}

/// A date.
#[derive(Clone, Copy, Debug, Eq, PartialEq, Structural)]
pub struct Date {
    days: i32,
}

impl Date {
    #[verifier::type_invariant]
    spec fn holds(self) -> bool {
        is_day(self.days)
    }

    /// The number of the day, the start of 1970 being day zero.
    pub closed spec fn days(self) -> i32 {
        self.days
    }

    /// The date as a text.
    pub open spec fn text(self) -> Seq<char> {
        date_text(self.days())
    }

    /// The date of the day with that number, the start of 1970 being day zero.
    pub fn new(days: i32) -> (r: Option<Date>)
        ensures
            r is Some <==> is_day(days),
            r matches Some(date) ==> date.days() == days,
    {
        if days < FIRST_DAY || days > LAST_DAY {
            None
        } else {
            Some(Date { days })
        }
    }

    /// The date as a text.
    pub fn show(&self) -> (r: String)
        ensures
            r@ == self.text(),
    {
        proof {
            use_type_invariant(self);
        }
        date_to_string(self.days)
    }
}

} // verus!
