//! The time of day, as text.

use vstd::prelude::*;

#[allow(unused_imports)]
use crate::text::{decimal, digit};

verus! {

/// The pattern for a date and a time of day, as `2024-02-29 07:05:09`.
pub const TIMESTAMP_FORMAT: &'static str = "%Y-%m-%d %H:%M:%S";

/// A date in the Gregorian calendar with a time of day.
pub struct Moment {
    pub year: nat,
    pub month: nat,
    pub day: nat,
    pub hour: nat,
    pub minute: nat,
    pub second: nat,
}

/// Whether `year` has a twenty-ninth of February.
pub open spec fn is_leap(year: nat) -> bool {
    year % 4 == 0 && (year % 100 != 0 || year % 400 == 0)
}

/// How many days `month` has in `year`.
pub open spec fn days_in(year: nat, month: nat) -> nat {
    if month == 2 {
        if is_leap(year) {
            29
        } else {
            28
        }
    } else if month == 4 || month == 6 || month == 9 || month == 11 {
        30
    } else {
        31
    }
}

/// `n`, which is below a hundred, in two digits.
pub open spec fn two_digits(n: nat) -> Seq<char> {
    seq![digit(n / 10), digit(n % 10)]
}

/// A year from one thousand on: in four digits, or with a sign where it needs more.
pub open spec fn year_text(year: nat) -> Seq<char> {
    if year <= 9999 {
        two_digits(year / 100) + two_digits(year % 100)
    } else {
        seq!['+'] + decimal(year)
    }
}

impl Moment {
    /// Whether there is such a date and time of day.
    pub open spec fn valid(self) -> bool {
        &&& 1 <= self.month <= 12
        &&& 1 <= self.day <= days_in(self.year, self.month)
        &&& self.hour < 24
        &&& self.minute < 60
        &&& self.second < 60
    }

    /// The moment written by [`TIMESTAMP_FORMAT`].
    pub open spec fn text(self) -> Seq<char> {
        year_text(self.year) + seq!['-'] + two_digits(self.month) + seq!['-'] + two_digits(self.day)
            + seq![' '] + two_digits(self.hour) + seq![':'] + two_digits(self.minute) + seq![':']
            + two_digits(self.second)
    }
}

/// Whether `text` is a moment, written by [`TIMESTAMP_FORMAT`], of the time since
/// computers count it; 1969 is there for the hours by which a local time may lag.
pub open spec fn is_timestamp(text: Seq<char>) -> bool {
    exists|moment: Moment|
        moment.valid() && moment.year >= 1969 && #[trigger] moment.text() == text
}

/// [`chrono::Local::now`], written by [`chrono::DateTime::format`] with `pattern`:
/// a date and time of day in that form. Which one it is depends on the clock and
/// the time zone of the machine, and nothing is claimed of that. A clock that is
/// set before 1970, or too far ahead for chrono, makes the call panic.
#[verifier::external_body]
pub(crate) fn local_time_text(pattern: &str) -> (text: String)
    requires
        pattern@ == TIMESTAMP_FORMAT@,
    ensures
        is_timestamp(text@),
{
    chrono::Local::now().format(pattern).to_string()
}

} // verus!
