use vstd::prelude::*;

use vstd::string::StringSliceAdditionalSpecFns;

use crate::error::CoreError;

verus! {

/// The first and last year that a calendar date may carry (four-digit years).
pub const MIN_YEAR: i32 = 1;

pub const MAX_YEAR: i32 = 9999;

/// A calendar day without a time component, in the proleptic Gregorian calendar.
#[derive(Clone, Copy, Debug, PartialEq, Eq, Structural)]
pub struct CalendarDate {
    pub year: i32,
    pub month: u32,
    pub day: u32,
}

pub open spec fn is_leap_year(y: int) -> bool {
    (y % 4 == 0 && y % 100 != 0) || y % 400 == 0
}

pub open spec fn days_in_month(y: int, m: int) -> int {
    if m == 2 {
        if is_leap_year(y) {
            29
        } else {
            28
        }
    } else if m == 4 || m == 6 || m == 9 || m == 11 {
        30
    } else {
        31
    }
}

/// Days of the years before `y`, counted from 0001-01-01.
pub open spec fn days_before_year(y: int) -> int {
    365 * (y - 1) + (y - 1) / 4 - (y - 1) / 100 + (y - 1) / 400
}

/// Days of the months of year `y` before month `m`.
pub open spec fn days_before_month(y: int, m: int) -> int
    decreases m,
{
    if m <= 1 {
        0
    } else {
        days_before_month(y, m - 1) + days_in_month(y, m - 1)
    }
}

/// The number of the day: 0001-01-01 is day 0, each following day one more.
pub open spec fn day_number(d: CalendarDate) -> int {
    days_before_year(d.year as int) + days_before_month(d.year as int, d.month as int) + d.day - 1
}

/// How many days lie between two dates, in either order.
pub open spec fn days_between(a: CalendarDate, b: CalendarDate) -> nat {
    let diff = day_number(b) - day_number(a);
    if diff >= 0 {
        diff as nat
    } else {
        (-diff) as nat
    }
}

impl CalendarDate {
    /// A date is valid when it names a day of the calendar with a four-digit year.
    pub open spec fn is_valid(self) -> bool {
        &&& MIN_YEAR <= self.year <= MAX_YEAR
        &&& 1 <= self.month <= 12
        &&& 1 <= self.day <= days_in_month(self.year as int, self.month as int)
    }

    /// Builds the date `year-month-day`, rejecting a day that the calendar does not have.
    pub fn from_ymd(year: i32, month: u32, day: u32) -> (r: Result<CalendarDate, CoreError>)
        ensures
            (CalendarDate { year, month, day }).is_valid() ==> r == Ok::<CalendarDate, CoreError>(
                CalendarDate { year, month, day },
            ),
            !(CalendarDate { year, month, day }).is_valid() ==> r == Err::<CalendarDate, CoreError>(
                CoreError::Validation,
            ),
    {
        let d = CalendarDate { year, month, day };
        if d.check_valid() {
            Ok(d)
        } else {
            Err(CoreError::Validation)
        }
    }

    /// Whether this is a valid calendar date.
    pub fn check_valid(&self) -> (r: bool)
        ensures
            r == self.is_valid(),
    {
        if self.year < MIN_YEAR || self.year > MAX_YEAR || self.month < 1 || self.month > 12 {
            return false;
        }
        self.day >= 1 && self.day <= month_length(self.year, self.month)
    }

    /// The day number of this date (see `day_number`).
    pub fn day_number(&self) -> (r: i64)
        requires
            self.is_valid(),
        ensures
            r == day_number(*self),
            0 <= r < 4_000_000,
    {
        let y: i64 = self.year as i64 - 1;
        assert(0 <= y / 4 <= y && 0 <= y / 100 <= y && 0 <= y / 400 <= y) by (nonlinear_arith)
            requires
                0 <= y < 9999,
        ;
        let before_year: i64 = 365 * y + y / 4 - y / 100 + y / 400;
        let mut before_month: i64 = 0;
        let mut m: u32 = 1;
        while m < self.month
            invariant
                self.is_valid(),
                1 <= m <= self.month,
                before_month == days_before_month(self.year as int, m as int),
                0 <= before_month <= 31 * (m - 1),
            decreases self.month - m,
        {
            before_month = before_month + month_length(self.year, m) as i64;
            m = m + 1;
        }
        before_year + before_month + self.day as i64 - 1
    }
}

/// Whether `y` is a leap year.
pub fn leap_year(y: i32) -> (r: bool)
    requires
        y >= 0,
    ensures
        r == is_leap_year(y as int),
{
    (y % 4 == 0 && y % 100 != 0) || y % 400 == 0
}

/// The number of days of month `m` in year `y`.
pub fn month_length(y: i32, m: u32) -> (r: u32)
    requires
        y >= 0,
    ensures
        r == days_in_month(y as int, m as int),
        28 <= r <= 31,
{
    if m == 2 {
        if leap_year(y) {
            29
        } else {
            28
        }
    } else if m == 4 || m == 6 || m == 9 || m == 11 {
        30
    } else {
        31
    }
}

/// The number of days between two valid dates, in either order.
pub fn count_days_between(a: &CalendarDate, b: &CalendarDate) -> (r: u64)
    requires
        a.is_valid(),
        b.is_valid(),
    ensures
        r == days_between(*a, *b),
{
    let da = a.day_number();
    let db = b.day_number();
    if db >= da {
        (db - da) as u64
    } else {
        (da - db) as u64
    }
}

pub open spec fn is_digit(b: u8) -> bool {
    48 <= b <= 57
}

pub open spec fn digit_at(b: Seq<u8>, i: int) -> int {
    b[i] - 48
}

/// Whether `b` has the shape `YYYY-MM-DD` (ten bytes, digits and two dashes).
pub open spec fn iso_shape(b: Seq<u8>) -> bool {
    &&& b.len() == 10
    &&& b[4] == 45u8
    &&& b[7] == 45u8
    &&& forall|i: int| 0 <= i < 10 && i != 4 && i != 7 ==> is_digit(#[trigger] b[i])
}

/// The date that the text `YYYY-MM-DD` in `b` names.
pub open spec fn iso_date(b: Seq<u8>) -> CalendarDate {
    CalendarDate {
        year: (1000 * digit_at(b, 0) + 100 * digit_at(b, 1) + 10 * digit_at(b, 2) + digit_at(b, 3)) as i32,
        month: (10 * digit_at(b, 5) + digit_at(b, 6)) as u32,
        day: (10 * digit_at(b, 8) + digit_at(b, 9)) as u32,
    }
}

fn digit(b: &[u8], i: usize) -> (r: Option<u32>)
    requires
        i < b@.len(),
    ensures
        r is Some <==> is_digit(b@[i as int]),
        r matches Some(v) ==> v == digit_at(b@, i as int) && v <= 9,
{
    if b[i] >= 48 && b[i] <= 57 {
        Some((b[i] - 48) as u32)
    } else {
        None
    }
}

impl CalendarDate {
    /// Reads a date written `YYYY-MM-DD`, rejecting text of another shape and
    /// dates that the calendar does not have.
    pub fn parse(text: &str) -> (r: Result<CalendarDate, CoreError>)
        ensures
            iso_shape(text.spec_bytes()) && iso_date(text.spec_bytes()).is_valid() ==> r == Ok::<
                CalendarDate,
                CoreError,
            >(iso_date(text.spec_bytes())),
            !(iso_shape(text.spec_bytes()) && iso_date(text.spec_bytes()).is_valid()) ==> r
                == Err::<CalendarDate, CoreError>(CoreError::Validation),
    {
        let b = text.as_bytes();
        if b.len() != 10 || b[4] != 45 || b[7] != 45 {
            return Err(CoreError::Validation);
        }
        let mut d: [u32; 10] = [0; 10];
        let mut i: usize = 0;
        while i < 10
            invariant
                b@ == text.spec_bytes(),
                b@.len() == 10,
                b@[4] == 45u8,
                b@[7] == 45u8,
                0 <= i <= 10,
                d@.len() == 10,
                forall|k: int|
                    0 <= k < i && k != 4 && k != 7 ==> is_digit(#[trigger] b@[k]) && d@[k]
                        == digit_at(b@, k) && d@[k] <= 9,
            decreases 10 - i,
        {
            if i != 4 && i != 7 {
                match digit(b, i) {
                    Some(v) => {
                        let ghost before = d@;
                        d[i] = v;
                        assert forall|k: int|
                            0 <= k < i + 1 && k != 4 && k != 7 implies is_digit(#[trigger] b@[k])
                            && d@[k] == digit_at(b@, k) && d@[k] <= 9 by {
                            if k < i {
                                assert(d@[k] == before[k]);
                            }
                        }
                    },
                    None => {
                        return Err(CoreError::Validation);
                    },
                }
            }
            i = i + 1;
        }
        proof {
            assert(is_digit(b@[0]) && is_digit(b@[1]) && is_digit(b@[2]) && is_digit(b@[3]));
            assert(is_digit(b@[5]) && is_digit(b@[6]) && is_digit(b@[8]) && is_digit(b@[9]));
        }
        let date = CalendarDate {
            year: (1000 * d[0] + 100 * d[1] + 10 * d[2] + d[3]) as i32,
            month: 10 * d[5] + d[6],
            day: 10 * d[8] + d[9],
        };
        assert(date == iso_date(b@));
        if date.check_valid() {
            Ok(date)
        } else {
            Err(CoreError::Validation)
        }
    }
}

} // verus!
