//! Civil-calendar arithmetic for log timestamps.
use vstd::prelude::*;

use crate::text::{padded, push_char, push_padded};

verus! {

/// Gregorian leap-year rule.
pub open spec fn is_leap_year(y: int) -> bool {
    (y % 4 == 0 && y % 100 != 0) || y % 400 == 0
}

/// Number of days in month `m` (1-based) of year `y`.
pub open spec fn days_in_month(y: int, m: int) -> int {
    if m == 2 {
        if is_leap_year(y) { 29 } else { 28 }
    } else if m == 4 || m == 6 || m == 9 || m == 11 {
        30
    } else {
        31
    }
}

/// Days in the months of year `y` that precede month `m`.
pub open spec fn days_before_month(y: int, m: int) -> int {
    let base: int = if m == 1 { 0 } else if m == 2 { 31 } else if m == 3 { 59 } else if m == 4 { 90 }
        else if m == 5 { 120 } else if m == 6 { 151 } else if m == 7 { 181 } else if m == 8 { 212 }
        else if m == 9 { 243 } else if m == 10 { 273 } else if m == 11 { 304 } else { 334 };
    if m > 2 && is_leap_year(y) { base + 1 } else { base }
}

/// Leap years among the years `1 ..= y`.
pub open spec fn leap_years_through(y: int) -> int {
    y / 4 - y / 100 + y / 400
}

/// Days from 1970-01-01 to the date `y-m-d`.
pub open spec fn days_since_epoch(y: int, m: int, d: int) -> int {
    365 * (y - 1970) + leap_years_through(y - 1) - leap_years_through(1969)
        + days_before_month(y, m) + d - 1
}

/// A real calendar date.
pub open spec fn is_valid_date(y: int, m: int, d: int) -> bool {
    1 <= m <= 12 && 1 <= d <= days_in_month(y, m)
}

/// Days from the epoch to January 1st of year `y`.
pub open spec fn year_start(y: int) -> int {
    days_since_epoch(y, 1, 1)
}

/// Days in year `y`.
pub open spec fn year_length(y: int) -> int {
    if is_leap_year(y) { 366 } else { 365 }
}

proof fn lemma_date_within_year(y: int, m: int, d: int)
    requires
        is_valid_date(y, m, d),
    ensures
        year_start(y) <= days_since_epoch(y, m, d) < year_start(y) + year_length(y),
{
}

proof fn lemma_next_year_start(y: int)
    ensures
        year_start(y + 1) == year_start(y) + year_length(y),
{
}

proof fn lemma_later_year_start(y1: int, y2: int)
    requires
        y1 < y2,
    ensures
        year_start(y1) + year_length(y1) <= year_start(y2),
    decreases y2 - y1,
{
    lemma_next_year_start(y1);
    if y1 + 1 < y2 {
        lemma_later_year_start(y1 + 1, y2);
    }
}

proof fn lemma_later_month(y: int, m1: int, d1: int, m2: int, d2: int)
    requires
        is_valid_date(y, m1, d1),
        is_valid_date(y, m2, d2),
        m1 < m2,
    ensures
        days_since_epoch(y, m1, d1) < days_since_epoch(y, m2, d2),
{
}

/// Different dates fall on different days: a day count names at most one date.
pub proof fn lemma_date_unique(y1: int, m1: int, d1: int, y2: int, m2: int, d2: int)
    requires
        is_valid_date(y1, m1, d1),
        is_valid_date(y2, m2, d2),
        days_since_epoch(y1, m1, d1) == days_since_epoch(y2, m2, d2),
    ensures
        y1 == y2 && m1 == m2 && d1 == d2,
{
    lemma_date_within_year(y1, m1, d1);
    lemma_date_within_year(y2, m2, d2);
    if y1 < y2 {
        lemma_later_year_start(y1, y2);
    } else if y2 < y1 {
        lemma_later_year_start(y2, y1);
    } else if m1 < m2 {
        lemma_later_month(y1, m1, d1, m2, d2);
    } else if m2 < m1 {
        lemma_later_month(y1, m2, d2, m1, d1);
    }
}

/// The date that lies `days` days after 1970-01-01.
pub open spec fn civil_from_days(days: int) -> (int, int, int) {
    choose|ymd: (int, int, int)|
        is_valid_date(ymd.0, ymd.1, ymd.2) && days_since_epoch(ymd.0, ymd.1, ymd.2) == days
}

/// Start (in days) of year `yoe` within a 400-year era that begins on March 1st.
spec fn year_start_in_era(yoe: int) -> int {
    365 * yoe + yoe / 4 - yoe / 100
}

proof fn lemma_year_of_era(doe: int)
    requires
        0 <= doe < 146097,
    ensures
        ({
            let yoe = (doe - doe / 1460 + doe / 36524 - doe / 146096) / 365;
            &&& 0 <= yoe < 400
            &&& year_start_in_era(yoe) <= doe
            &&& doe - year_start_in_era(yoe) < 365 + (if is_leap_year(yoe + 1) { 1int } else { 0int })
        }),
{
}


proof fn lemma_month_of_year(doy: int, leap: bool)
    requires
        0 <= doy < 365 + (if leap { 1int } else { 0int }),
    ensures
        ({
            let mp = (5 * doy + 2) / 153;
            let d = doy - (153 * mp + 2) / 5 + 1;
            &&& 0 <= mp < 12
            &&& 1 <= d
            &&& mp < 10 ==> d <= days_in_month(2001, mp + 3)
            &&& mp == 10 ==> d <= 31
            &&& mp == 11 ==> d <= 28 + (if leap { 1int } else { 0int })
            &&& mp == 0 ==> (153 * mp + 2) / 5 == 0
            &&& mp == 1 ==> (153 * mp + 2) / 5 == 31
            &&& mp == 2 ==> (153 * mp + 2) / 5 == 61
            &&& mp == 3 ==> (153 * mp + 2) / 5 == 92
            &&& mp == 4 ==> (153 * mp + 2) / 5 == 122
            &&& mp == 5 ==> (153 * mp + 2) / 5 == 153
            &&& mp == 6 ==> (153 * mp + 2) / 5 == 184
            &&& mp == 7 ==> (153 * mp + 2) / 5 == 214
            &&& mp == 8 ==> (153 * mp + 2) / 5 == 245
            &&& mp == 9 ==> (153 * mp + 2) / 5 == 275
            &&& mp == 10 ==> (153 * mp + 2) / 5 == 306
            &&& mp == 11 ==> (153 * mp + 2) / 5 == 337
        }),
{
}

proof fn lemma_era_year_divisions(era: int, k: int)
    requires
        0 <= era,
        0 <= k <= 400,
    ensures
        (era * 400 + k) / 4 == era * 100 + k / 4,
        (era * 400 + k) / 100 == era * 4 + k / 100,
        (era * 400 + k) / 400 == era + k / 400,
        is_leap_year(era * 400 + k) == is_leap_year(k),
{
}

/// The March-based year `era * 400 + yoe` starts `days_since_epoch` of March 1st days
/// after the epoch.
proof fn lemma_march_first(era: int, yoe: int)
    requires
        1 <= era,
        0 <= yoe < 400,
    ensures
        days_since_epoch(era * 400 + yoe, 3, 1) + 719468 == era * 146097 + year_start_in_era(yoe),
{
    let big_y = era * 400 + yoe;
    lemma_era_year_divisions(era, yoe);
    if yoe >= 1 {
        lemma_era_year_divisions(era, (yoe - 1));
    } else {
        lemma_era_year_divisions((era - 1), 399);
    }
    assert(leap_years_through(big_y - 1) + (if is_leap_year(big_y) { 1int } else { 0int })
        == leap_years_through(big_y));
}

proof fn lemma_civil(days: int, era: int, doe: int, yoe: int, doy: int, mp: int, d: int, m: int, y: int)
    requires
        0 <= days,
        era == (days + 719468) / 146097,
        doe == (days + 719468) % 146097,
        yoe == (doe - doe / 1460 + doe / 36524 - doe / 146096) / 365,
        doy == doe - year_start_in_era(yoe),
        mp == (5 * doy + 2) / 153,
        d == doy - (153 * mp + 2) / 5 + 1,
        m == (if mp < 10 { mp + 3 } else { mp - 9 }),
        y == (if m <= 2 { yoe + era * 400 + 1 } else { yoe + era * 400 }),
    ensures
        is_valid_date(y, m, d),
        y >= 1970,
        days_since_epoch(y, m, d) == days,
{
    lemma_year_of_era(doe);
    lemma_month_of_year(doy, is_leap_year(yoe + 1));
    assert(days + 719468 == era * 146097 + doe);
    assert(era >= 4);
    lemma_march_first(era, yoe);
    lemma_era_year_divisions(era, yoe + 1);
    let big_y = era * 400 + yoe;
    assert(is_leap_year(big_y + 1) == is_leap_year(yoe + 1));
    if mp < 10 {
        assert(days_before_month(big_y, m) == days_before_month(big_y, 3) + (153 * mp + 2) / 5);
    } else {
        lemma_era_year_divisions(era, yoe);
        assert(leap_years_through(big_y) + 365 * (big_y + 1 - 1970)
            == leap_years_through(big_y - 1) + (if is_leap_year(big_y) { 1int } else { 0int })
            + 365 * (big_y - 1970) + 365);
    }
}

/// Converts a count of days since 1970-01-01 into the Gregorian `(year, month, day)`.
pub fn days_to_ymd(days: u64) -> (ymd: (u64, u64, u64))
    requires
        days <= u64::MAX - 719468,
    ensures
        is_valid_date(ymd.0 as int, ymd.1 as int, ymd.2 as int),
        ymd.0 >= 1970,
        days_since_epoch(ymd.0 as int, ymd.1 as int, ymd.2 as int) == days,
        (ymd.0 as int, ymd.1 as int, ymd.2 as int) == civil_from_days(days as int),
{
    let z = days + 719468;
    let era = z / 146097;
    let doe = z % 146097;
    proof {
        lemma_year_of_era(doe as int);
    }
    let yoe = (doe - doe / 1460 + doe / 36524 - doe / 146096) / 365;
    assert(era * 400 <= z) by (nonlinear_arith)
        requires era == z / 146097;
    let y = yoe + era * 400;
    let doy = doe - (365 * yoe + yoe / 4 - yoe / 100);
    proof {
        lemma_month_of_year(doy as int, is_leap_year(yoe + 1));
    }
    let mp = (5 * doy + 2) / 153;
    let d = doy - (153 * mp + 2) / 5 + 1;
    let m = if mp < 10 { mp + 3 } else { mp - 9 };
    let y = if m <= 2 { y + 1 } else { y };
    proof {
        lemma_civil(days as int, era as int, doe as int, yoe as int, doy as int, mp as int,
            d as int, m as int, y as int);
        let w = (y as int, m as int, d as int);
        assert(is_valid_date(w.0, w.1, w.2) && days_since_epoch(w.0, w.1, w.2) == days);
        let c = civil_from_days(days as int);
        lemma_date_unique(w.0, w.1, w.2, c.0, c.1, c.2);
    }
    (y, m, d)
}

/// The date after `y-m-d`: the next day of the month, else the first of the next month, else
/// January 1st of the next year.
pub open spec fn next_date(ymd: (int, int, int)) -> (int, int, int) {
    let (y, m, d) = ymd;
    if d < days_in_month(y, m) {
        (y, m, d + 1)
    } else if m < 12 {
        (y, m + 1, 1)
    } else {
        (y + 1, 1, 1)
    }
}

/// The date after a valid date is valid and falls one day later.
proof fn lemma_next_date(y: int, m: int, d: int)
    requires
        is_valid_date(y, m, d),
    ensures
        is_valid_date(next_date((y, m, d)).0, next_date((y, m, d)).1, next_date((y, m, d)).2),
        days_since_epoch(next_date((y, m, d)).0, next_date((y, m, d)).1, next_date((y, m, d)).2)
            == days_since_epoch(y, m, d) + 1,
{
    if d < days_in_month(y, m) {
    } else if m < 12 {
        assert(days_before_month(y, m + 1) == days_before_month(y, m) + days_in_month(y, m));
    } else {
        lemma_next_year_start(y);
        assert(days_since_epoch(y, 12, 31) == year_start(y) + year_length(y) - 1);
    }
}

/// Every day count from the epoch on names a date.
proof fn lemma_civil_exists(days: int)
    requires
        0 <= days,
    ensures
        is_valid_date(civil_from_days(days).0, civil_from_days(days).1, civil_from_days(days).2),
        days_since_epoch(civil_from_days(days).0, civil_from_days(days).1, civil_from_days(days).2)
            == days,
{
    let era = (days + 719468) / 146097;
    let doe = (days + 719468) % 146097;
    let yoe = (doe - doe / 1460 + doe / 36524 - doe / 146096) / 365;
    let doy = doe - year_start_in_era(yoe);
    let mp = (5 * doy + 2) / 153;
    let d = doy - (153 * mp + 2) / 5 + 1;
    let m = if mp < 10 { mp + 3 } else { mp - 9 };
    let y = if m <= 2 { yoe + era * 400 + 1 } else { yoe + era * 400 };
    lemma_civil(days, era, doe, yoe, doy, mp, d, m, y);
    let w = (y, m, d);
    assert(is_valid_date(w.0, w.1, w.2) && days_since_epoch(w.0, w.1, w.2) == days);
}

/// Day by day the dates advance: the date of `days + 1` is the date after that of `days`
/// (what `days_to_ymd` gives for two consecutive day counts).
pub proof fn lemma_next_day(days: int)
    requires
        0 <= days,
    ensures
        civil_from_days(days + 1) == next_date(civil_from_days(days)),
{
    lemma_civil_exists(days);
    lemma_civil_exists(days + 1);
    let c = civil_from_days(days);
    let c1 = civil_from_days(days + 1);
    lemma_next_date(c.0, c.1, c.2);
    let n = next_date(c);
    lemma_date_unique(n.0, n.1, n.2, c1.0, c1.1, c1.2);
}

/// `YYYY-MM-DD HH:MM:SS UTC` for `total_secs` seconds after the Unix epoch.
pub open spec fn utc_timestamp(total_secs: nat) -> Seq<char> {
    let ymd = civil_from_days((total_secs / 86400) as int);
    padded(ymd.0 as nat, 4) + seq!['-'] + padded(ymd.1 as nat, 2) + seq!['-'] + padded(ymd.2 as nat, 2)
        + seq![' '] + padded((total_secs / 3600) % 24, 2) + seq![':'] + padded((total_secs / 60) % 60, 2)
        + seq![':'] + padded(total_secs % 60, 2) + seq![' ', 'U', 'T', 'C']
}

/// Formats a Unix time in seconds as `YYYY-MM-DD HH:MM:SS UTC`.
pub fn format_utc(total_secs: u64) -> (r: String)
    ensures
        r@ == utc_timestamp(total_secs as nat),
{
    let s = total_secs % 60;
    let m = (total_secs / 60) % 60;
    let h = (total_secs / 3600) % 24;
    let days = total_secs / 86400;
    let (year, month, day) = days_to_ymd(days);
    let mut out = String::new();
    push_padded(&mut out, year, 4);
    push_char(&mut out, '-');
    push_padded(&mut out, month, 2);
    push_char(&mut out, '-');
    push_padded(&mut out, day, 2);
    push_char(&mut out, ' ');
    push_padded(&mut out, h, 2);
    push_char(&mut out, ':');
    push_padded(&mut out, m, 2);
    push_char(&mut out, ':');
    push_padded(&mut out, s, 2);
    push_char(&mut out, ' ');
    push_char(&mut out, 'U');
    push_char(&mut out, 'T');
    push_char(&mut out, 'C');
    proof {
        assert(out@ =~= utc_timestamp(total_secs as nat));
    }
    out
}

} // verus!
