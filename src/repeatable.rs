use vstd::prelude::*;

use crate::date::{count_days_between, days_between, days_in_month, day_number, month_length, CalendarDate};

verus! {

/// How often a ritual recurs.
#[derive(Clone, Copy, Debug, PartialEq, Eq, Structural)]
pub enum RepeatFrequency {
    Daily,
    Weekly,
    BiWeekly,
    Monthly,
    Yearly,
}

/// The display name of a frequency.
pub open spec fn frequency_name(f: RepeatFrequency) -> Seq<char> {
    match f {
        RepeatFrequency::Daily => "Daily"@,
        RepeatFrequency::Weekly => "Weekly"@,
        RepeatFrequency::BiWeekly => "Bi-Weekly"@,
        RepeatFrequency::Monthly => "Monthly"@,
        RepeatFrequency::Yearly => "Yearly"@,
    }
}

/// The day of month `m` of year `y` that stands for day `d` of another month:
/// `d` itself, or the month's last day where the month is shorter.
pub open spec fn clamped_day(d: int, y: int, m: int) -> int {
    if d <= days_in_month(y, m) {
        d
    } else {
        days_in_month(y, m)
    }
}

/// Whether a cadence of frequency `f` that starts at `anchor` falls on `candidate`.
pub open spec fn is_due_on(f: RepeatFrequency, anchor: CalendarDate, candidate: CalendarDate) -> bool {
    match f {
        RepeatFrequency::Daily => true,
        RepeatFrequency::Weekly => days_between(anchor, candidate) % 7 == 0,
        RepeatFrequency::BiWeekly => days_between(anchor, candidate) % 14 == 0,
        RepeatFrequency::Monthly => {
            &&& candidate.day == clamped_day(
                anchor.day as int,
                candidate.year as int,
                candidate.month as int,
            )
            &&& day_number(anchor) <= day_number(candidate)
        },
        RepeatFrequency::Yearly => {
            &&& candidate.month == anchor.month
            &&& candidate.day == clamped_day(
                anchor.day as int,
                candidate.year as int,
                candidate.month as int,
            )
            &&& day_number(anchor) <= day_number(candidate)
        },
    }
}

impl RepeatFrequency {
    pub fn to_string(&self) -> (r: String)
        ensures
            r@ == frequency_name(*self),
    {
        match self {
            RepeatFrequency::Daily => "Daily".to_owned(),
            RepeatFrequency::Weekly => "Weekly".to_owned(),
            RepeatFrequency::BiWeekly => "Bi-Weekly".to_owned(),
            RepeatFrequency::Monthly => "Monthly".to_owned(),
            RepeatFrequency::Yearly => "Yearly".to_owned(),
        }
    }
}

impl Default for RepeatFrequency {
    fn default() -> (r: RepeatFrequency)
        ensures
            r == RepeatFrequency::Daily,
    {
        RepeatFrequency::Daily
    }
}

/// Decides whether a cadence of frequency `f` anchored at `anchor` is due on `candidate`.
pub fn is_due(f: RepeatFrequency, anchor: &CalendarDate, candidate: &CalendarDate) -> (r: bool)
    requires
        anchor.is_valid(),
        candidate.is_valid(),
    ensures
        r == is_due_on(f, *anchor, *candidate),
{
    match f {
        RepeatFrequency::Daily => true,
        RepeatFrequency::Weekly => count_days_between(anchor, candidate) % 7 == 0,
        RepeatFrequency::BiWeekly => count_days_between(anchor, candidate) % 14 == 0,
        RepeatFrequency::Monthly => {
            let last = month_length(candidate.year, candidate.month);
            let target = if anchor.day <= last {
                anchor.day
            } else {
                last
            };
            candidate.day == target && anchor.day_number() <= candidate.day_number()
        },
        RepeatFrequency::Yearly => {
            let last = month_length(candidate.year, candidate.month);
            let target = if anchor.day <= last {
                anchor.day
            } else {
                last
            };
            candidate.month == anchor.month && candidate.day == target
                && anchor.day_number() <= candidate.day_number()
        },
    }
}

/// Something that may recur on a cadence.
pub trait Repeatable {
    spec fn cadence(&self) -> Option<RepeatFrequency>;

    fn frequency(&self) -> (r: Option<&RepeatFrequency>)
        ensures
            r matches Some(f) ==> self.cadence() == Some(*f),
            r is None ==> self.cadence() is None,
    ;

    fn set_frequency(&mut self, frequency: Option<RepeatFrequency>)
        ensures
            final(self).cadence() == frequency,
    ;
}

} // verus!
