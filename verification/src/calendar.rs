//! The month calendar of the review statistics: where the first day falls,
//! how many days the month has, and how each day is marked.

use vstd::prelude::*;

verus! {

/// How a day of the current month is marked.
#[derive(Debug, Clone, Copy, PartialEq, Eq, Structural)]
pub enum DayClass {
    Today,
    /// A past day with a review.
    Reviewed,
    /// A past day without a review.
    Missed,
    Future,
}

/// Whether `year` is a leap year of the Gregorian calendar.
pub open spec fn leap_year(year: int) -> bool {
    (year % 4 == 0 && year % 100 != 0) || year % 400 == 0
}

/// The number of days of `month` (1 to 12) of `year`.
pub open spec fn month_length(year: int, month: int) -> int {
    if month == 2 {
        if leap_year(year) {
            29
        } else {
            28
        }
    } else if month == 4 || month == 6 || month == 9 || month == 11 {
        30
    } else {
        31
    }
}

/// The number of days of `month` (1 to 12) of `year`.
pub fn days_in_month(year: i32, month: u32) -> (r: u32)
    requires
        1 <= month <= 12,
    ensures
        r == month_length(year as int, month as int),
{
    if month == 2 {
        if (year % 4 == 0 && year % 100 != 0) || year % 400 == 0 {
            29
        } else {
            28
        }
    } else if month == 4 || month == 6 || month == 9 || month == 11 {
        30
    } else {
        31
    }
}

/// How day `day` of the current month is marked, `today` being today's day
/// of the month and `reviewed` the days with a review.
pub open spec fn day_class(day: u32, today: u32, reviewed: Seq<u32>) -> DayClass {
    if day == today {
        DayClass::Today
    } else if reviewed.contains(day) {
        DayClass::Reviewed
    } else if day < today {
        DayClass::Missed
    } else {
        DayClass::Future
    }
}

/// The grid of the month: the blank places before day 1 (its weekday, with
/// Sunday 0), then each day from 1 to `days` with its mark.
pub fn calendar_grid(first_weekday: u32, days: u32, today: u32, reviewed: &Vec<u32>) -> (r: (u32, Vec<(u32, DayClass)>))
    requires
        first_weekday < 7,
    ensures
        r.0 == first_weekday,
        r.1@.len() == days,
        forall|i: int|
            0 <= i < days ==> #[trigger] r.1@[i] == ((i + 1) as u32, day_class((i + 1) as u32, today, reviewed@)),
{
    let mut cells: Vec<(u32, DayClass)> = Vec::new();
    let mut d: u32 = 0;
    while d < days
        invariant
            d <= days,
            cells@.len() == d,
            forall|i: int|
                0 <= i < d ==> #[trigger] cells@[i] == ((i + 1) as u32, day_class((i + 1) as u32, today, reviewed@)),
        decreases days - d,
    {
        let day = d + 1;
        let mut seen = false;
        let mut k: usize = 0;
        while k < reviewed.len()
            invariant
                k <= reviewed@.len(),
                seen == reviewed@.take(k as int).contains(day),
            decreases reviewed@.len() - k,
        {
            proof {
                assert(reviewed@.take(k + 1) =~= reviewed@.take(k as int).push(reviewed@[k as int]));
            }
            if reviewed[k] == day {
                seen = true;
            }
            proof {
                let t = reviewed@.take(k + 1);
                if seen {
                    if reviewed@[k as int] == day {
                        assert(t[k as int] == day);
                    } else {
                        let w = choose|w: int| 0 <= w < k && reviewed@.take(k as int)[w] == day;
                        assert(t[w] == day);
                    }
                } else {
                    assert forall|w: int| 0 <= w < t.len() implies t[w] != day by {
                        if w < k {
                            assert(t[w] == reviewed@.take(k as int)[w]);
                        }
                    }
                }
            }
            k = k + 1;
        }
        proof {
            assert(reviewed@.take(reviewed@.len() as int) =~= reviewed@);
        }
        let class = if day == today {
            DayClass::Today
        } else if seen {
            DayClass::Reviewed
        } else if day < today {
            DayClass::Missed
        } else {
            DayClass::Future
        };
        cells.push((day, class));
        d = d + 1;
    }
    (first_weekday, cells)
}

} // verus!
