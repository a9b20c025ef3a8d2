//! Calendar dates and the half-open month intervals that reports are drawn over.

use vstd::prelude::*;
use crate::error::BudgetError;

verus! {

/// A calendar date as written on a transaction: year, month and day of month.
///
/// Dates are ordered by year, then month, then day. No table of month lengths
/// is consulted anywhere: an interval of one month is delimited by the first
/// day of that month and the first day of the next. The year is wide enough
/// for the day after the last December that a month can be asked of.
#[derive(Clone, Copy, Debug, PartialEq, Eq, Structural)]
pub struct Date {
    pub year: i64,
    pub month: u32,
    pub day: u32,
}

impl Date {
    /// Chronological order: `self` lies strictly before `other`.
    pub open spec fn earlier_than(self, other: Date) -> bool {
        self.year < other.year || (self.year == other.year && (self.month < other.month || (
        self.month == other.month && self.day < other.day)))
    }

    /// Chronological order: `self` lies before `other` or is the same day.
    pub open spec fn not_after(self, other: Date) -> bool {
        self == other || self.earlier_than(other)
    }

    /// A month from 1 to 12 and a day from 1 to 31.
    pub open spec fn is_calendar(self) -> bool {
        1 <= self.month <= 12 && 1 <= self.day <= 31
    }

    /// Builds a date, refusing a month outside 1 to 12 or a day outside 1 to 31.
    pub fn new(year: i64, month: u32, day: u32) -> (r: Result<Date, BudgetError>)
        ensures
            r is Ok <==> (1 <= month <= 12 && 1 <= day <= 31),
            r is Ok ==> r->Ok_0 == (Date { year, month, day }),
            r is Err ==> r->Err_0 == BudgetError::InvalidArgument,
    {
        if 1 <= month && month <= 12 && 1 <= day && day <= 31 {
            Ok(Date { year, month, day })
        } else {
            Err(BudgetError::InvalidArgument)
        }
    }

    /// Whether `self` lies strictly before `other`.
    pub fn is_before(&self, other: &Date) -> (r: bool)
        ensures
            r == self.earlier_than(*other),
    {
        self.year < other.year || (self.year == other.year && (self.month < other.month || (
        self.month == other.month && self.day < other.day)))
    }
}

/// A half-open interval of dates: `start` belongs to it, `end` does not.
#[derive(Clone, Copy, Debug, PartialEq, Eq, Structural)]
pub struct Period {
    pub start: Date,
    pub end: Date,
}

impl Period {
    /// The dates of the interval: from `start` on, up to but excluding `end`.
    pub open spec fn covers(self, date: Date) -> bool {
        self.start.not_after(date) && date.earlier_than(self.end)
    }

    /// Whether `date` falls inside the interval.
    pub fn contains(&self, date: &Date) -> (r: bool)
        ensures
            r == self.covers(*date),
    {
        !date.is_before(&self.start) && date.is_before(&self.end)
    }
}

/// The first day of the month after `month` of `year`; December rolls over
/// into January of the next year.
pub open spec fn first_of_next_month(month: u32, year: i32) -> Date {
    if month == 12 {
        Date { year: (year + 1) as i64, month: 1, day: 1 }
    } else {
        Date { year: year as i64, month: (month + 1) as u32, day: 1 }
    }
}

/// The interval that covers exactly the given month of the given year.
///
/// It runs from the first day of the month to the first day of the following
/// month, so every day of the month lies inside whatever its length, and no
/// day of another month does. A month outside 1 to 12 is refused with
/// `InvalidArgument`; nothing is clamped. No year is refused: a date holds
/// a wider year than a month is asked by, so that the end of the last
/// December can be written down.
pub fn resolve(month: u32, year: i32) -> (r: Result<Period, BudgetError>)
    ensures
        r is Ok <==> 1 <= month <= 12,
        r is Err ==> r->Err_0 == BudgetError::InvalidArgument,
        r is Ok ==> {
            let p = r->Ok_0;
            &&& p.start == (Date { year: year as i64, month, day: 1 })
            &&& p.end == first_of_next_month(month, year)
            &&& p.start.earlier_than(p.end)
            &&& p.start.is_calendar()
            &&& p.end.is_calendar()
            &&& forall|d: Date|
                d.is_calendar() ==> (#[trigger] p.covers(d) <==> d.year == year && d.month == month)
        },
{
    if month < 1 || month > 12 {
        return Err(BudgetError::InvalidArgument);
    }
    let wide: i64 = year as i64;
    let start = Date { year: wide, month, day: 1 };
    if month == 12 {
        Ok(Period { start, end: Date { year: wide + 1, month: 1, day: 1 } })
    } else {
        Ok(Period { start, end: Date { year: wide, month: month + 1, day: 1 } })
    }
}

} // verus!
