//! The calendar.
use vstd::prelude::*;

verus! {

/// A year of 366 days.
pub open spec fn leap(year: nat) -> bool {
    year % 4 == 0 && (year % 100 != 0 || year % 400 == 0)
}

/// The number of days of a month, counted from 1.
pub open spec fn month_len(year: nat, month: nat) -> nat {
    if month == 2 {
        if leap(year) {
            29
        } else {
            28
        }
    } else if month == 4 || month == 6 || month == 9 || month == 11 {
        30
    } else {
        31
    }
}

/// The days of a year before one of its months.
pub open spec fn days_before_month(year: nat, month: nat) -> nat
    decreases month,
{
    if month <= 1 {
        0
    } else {
        days_before_month(year, (month - 1) as nat) + month_len(year, (month - 1) as nat)
    }
}

/// The number of days of a year.
pub open spec fn year_len(year: nat) -> nat {
    if leap(year) {
        366
    } else {
        365
    }
}

/// The days from the beginning of 1970 to that of a later year.
pub open spec fn days_before_year(year: nat) -> nat
    decreases year,
{
    if year <= 1970 {
        0
    } else {
        days_before_year((year - 1) as nat) + year_len((year - 1) as nat)
    }
}

/// The date of the day that comes `days` after the first of 1970.
pub open spec fn is_date(days: nat, year: nat, month: nat, day: nat) -> bool {
    &&& year >= 1970
    &&& 1 <= month <= 12
    &&& 1 <= day <= month_len(year, month)
    &&& days == days_before_year(year) + days_before_month(year, month) + day - 1
}

/// The days before a year, with every fourth year a leap year but for those of
/// the hundreds that no four hundred divides.
proof fn lemma_days_before_year(year: nat)
    requires
        year >= 1970,
    ensures
        days_before_year(year) == 365 * (year - 1970) + ((year - 1) / 4 - 492) - ((year - 1) / 100
            - 19) + ((year - 1) / 400 - 4),
    decreases year,
{
    if year > 1970 {
        lemma_days_before_year((year - 1) as nat);
    }
}

/// Four hundred years have always the same number of days.
proof fn lemma_four_centuries(year: nat, cycles: nat)
    requires
        year >= 1970,
    ensures
        days_before_year(year + 400 * cycles) == days_before_year(year) + 146097 * cycles,
{
    lemma_days_before_year(year);
    lemma_days_before_year(year + 400 * cycles);
}

proof fn lemma_months(year: nat)
    ensures
        days_before_month(year, 12) + 31 == year_len(year),
{
    reveal_with_fuel(days_before_month, 13);
}

fn is_leap(year: u64) -> (b: bool)
    ensures
        b == leap(year as nat),
{
    year % 4 == 0 && (year % 100 != 0 || year % 400 == 0)
}

fn length_of_month(year: u64, month: u64) -> (n: u64)
    ensures
        n == month_len(year as nat, month as nat),
{
    if month == 2 {
        if is_leap(year) {
            29
        } else {
            28
        }
    } else if month == 4 || month == 6 || month == 9 || month == 11 {
        30
    } else {
        31
    }
}

/// The year, month and day of the day that comes `days` after the first of 1970.
pub fn date(days: u64) -> (r: (u64, u64, u64))
    requires
        days <= u64::MAX / 86400,
    ensures
        is_date(days as nat, r.0 as nat, r.1 as nat, r.2 as nat),
{
    let cycles: u64 = days / 146097;
    let mut year: u64 = 1970 + 400 * cycles;
    let mut rest: u64 = days % 146097;
    proof {
        lemma_four_centuries(1970, cycles as nat);
    }
    loop
        invariant
            1970 <= year,
            year + rest <= 1970 + 400 * (u64::MAX / 86400) + 146097,
            days == days_before_year(year as nat) + rest,
        ensures
            1970 <= year,
            days == days_before_year(year as nat) + rest,
            rest < year_len(year as nat),
        decreases rest,
    {
        let len: u64 = if is_leap(year) {
            366
        } else {
            365
        };
        if rest < len {
            break;
        }
        rest -= len;
        year += 1;
    }
    let mut month: u64 = 1;
    proof {
        lemma_months(year as nat);
    }
    loop
        invariant
            1970 <= year,
            1 <= month <= 12,
            rest < year_len(year as nat),
            days_before_month(year as nat, 12) + 31 == year_len(year as nat),
            days == days_before_year(year as nat) + days_before_month(year as nat, month as nat)
                + rest,
            days_before_month(year as nat, month as nat) + rest < year_len(year as nat),
        ensures
            1970 <= year,
            1 <= month <= 12,
            rest < month_len(year as nat, month as nat),
            days == days_before_year(year as nat) + days_before_month(year as nat, month as nat)
                + rest,
        decreases 13 - month,
    {
        let len = length_of_month(year, month);
        if rest < len {
            break;
        }
        rest -= len;
        month += 1;
    }
    (year, month, rest + 1)
}

proof fn lemma_months_rise(year: nat, a: nat, b: nat)
    requires
        1 <= a < b,
    ensures
        days_before_month(year, a) + month_len(year, a) <= days_before_month(year, b),
    decreases b,
{
    if a + 1 < b {
        lemma_months_rise(year, a, (b - 1) as nat);
    }
}

proof fn lemma_years_rise(a: nat, b: nat)
    requires
        1970 <= a < b,
    ensures
        days_before_year(a) + year_len(a) <= days_before_year(b),
    decreases b,
{
    if a + 1 < b {
        lemma_years_rise(a, (b - 1) as nat);
    }
}

/// The day within its year.
proof fn lemma_within_year(year: nat, month: nat, day: nat)
    requires
        1 <= month <= 12,
        1 <= day <= month_len(year, month),
    ensures
        days_before_month(year, month) + day <= year_len(year),
{
    lemma_months(year);
    if month < 12 {
        lemma_months_rise(year, month, 12);
    }
}

/// A day has one date.
pub proof fn law_one_date(days: nat, a: (nat, nat, nat), b: (nat, nat, nat))
    requires
        is_date(days, a.0, a.1, a.2),
        is_date(days, b.0, b.1, b.2),
    ensures
        a == b,
{
    lemma_within_year(a.0, a.1, a.2);
    lemma_within_year(b.0, b.1, b.2);
    if a.0 < b.0 {
        lemma_years_rise(a.0, b.0);
    } else if b.0 < a.0 {
        lemma_years_rise(b.0, a.0);
    } else if a.1 < b.1 {
        lemma_months_rise(a.0, a.1, b.1);
    } else if b.1 < a.1 {
        lemma_months_rise(a.0, b.1, a.1);
    }
}

/// Every month has its own number of days; February has one more in a year
/// that four divides, unless a hundred does and four hundred does not.
pub proof fn law_month_lengths(year: nat)
    ensures
        month_len(year, 1) == 31,
        month_len(year, 3) == 31,
        month_len(year, 4) == 30,
        month_len(year, 5) == 31,
        month_len(year, 6) == 30,
        month_len(year, 7) == 31,
        month_len(year, 8) == 31,
        month_len(year, 9) == 30,
        month_len(year, 10) == 31,
        month_len(year, 11) == 30,
        month_len(year, 12) == 31,
        month_len(year, 2) == (if year % 400 == 0 || (year % 4 == 0 && year % 100 != 0) {
            29nat
        } else {
            28
        }),
{
}

/// The count of days begins with the first of January 1970, and each day is
/// followed by the next of its month, or by the first of the next month, or by
/// the first of January.
pub proof fn law_next_day(days: nat, year: nat, month: nat, day: nat)
    requires
        is_date(days, year, month, day),
    ensures
        is_date(0, 1970, 1, 1),
        day < month_len(year, month) ==> is_date(days + 1, year, month, day + 1),
        day == month_len(year, month) && month < 12 ==> is_date(days + 1, year, month + 1, 1),
        day == month_len(year, month) && month == 12 ==> is_date(days + 1, year + 1, 1, 1),
{
    lemma_months(year);
    assert(days_before_month(year, 1) == 0);
    assert(days_before_month(year + 1, 1) == 0);
    assert(days_before_month(1970, 1) == 0);
    assert(days_before_year(1970) == 0);
    if month < 12 {
        assert(days_before_month(year, month + 1) == days_before_month(year, month) + month_len(
            year,
            month,
        ));
    }
}

} // verus!
