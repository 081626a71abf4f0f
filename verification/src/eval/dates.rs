//! Dates are integer day serial numbers (days since 1970-01-01), so they
//! are ordinary numbers: subtract for day counts, compare, aggregate.
//! Conversion is pure civil-calendar integer math (Howard Hinnant's
//! algorithms) in the proleptic Gregorian calendar.

use vstd::prelude::*;
use vstd::arithmetic::div_mod::{lemma_fundamental_div_mod, lemma_fundamental_div_mod_converse};

verus! {

/// Years near enough to zero that the day arithmetic stays within `i64`.
pub open spec fn year_fits(year: int) -> bool {
    -10_000_000_000_000_000 <= year <= 10_000_000_000_000_000
}

/// Day serials whose calendar arithmetic stays within `i64`.
pub open spec fn serial_fits(serial: int) -> bool {
    -4_000_000_000_000_000_000 <= serial <= 4_000_000_000_000_000_000
}

/// The day of the year counted from March 1 (March is 0) of a month/day.
pub open spec fn day_of_march_year(month: int, day: int) -> int {
    fifth(153 * (month + if month > 2 { -3int } else { 9int }) + 2) + day - 1
}

/// Division by five rounding toward zero, as machine integers divide.
pub open spec fn fifth(n: int) -> int {
    if n >= 0 { n / 5 } else { -((-n) / 5) }
}

/// The day arithmetic of `serial` stays within `i64` at every step; any
/// year, month and day for which it does have a serial (a month past 12 or
/// a day past the month's end counts on into the next).
pub open spec fn serial_computable(year: int, month: int, day: int) -> bool {
    let y = year - if month <= 2 { 1int } else { 0int };
    let k = month + if month > 2 { -3int } else { 9int };
    let era = y / 400;
    let yoe = y - era * 400;
    let doy = fifth(153 * k + 2) + day - 1;
    let doe = yoe * 365 + yoe / 4 - yoe / 100 + doy;
    &&& i64::MIN <= y
    &&& (y < 0 ==> i64::MIN <= y - 399)
    &&& k <= i64::MAX
    &&& i64::MIN <= 153 * k
    &&& 153 * k + 2 <= i64::MAX
    &&& i64::MIN <= fifth(153 * k + 2) + day <= i64::MAX
    &&& i64::MIN <= doy
    &&& i64::MIN <= doe <= i64::MAX
    &&& i64::MIN <= era * 146097 <= i64::MAX
    &&& i64::MIN <= era * 146097 + doe <= i64::MAX
    &&& i64::MIN <= era * 146097 + doe - 719468
}

/// y/m/d → days since 1970-01-01 (proleptic Gregorian): years counted from
/// March, in 400-year eras of 146097 days.
pub open spec fn serial_of(year: int, month: int, day: int) -> int {
    let y = year - if month <= 2 { 1int } else { 0int };
    let era = y / 400;
    let yoe = y - era * 400;
    let doe = yoe * 365 + yoe / 4 - yoe / 100 + day_of_march_year(month, day);
    era * 146097 + doe - 719468
}

/// Days since 1970-01-01 → (year, month, day).
pub open spec fn civil_of(serial: int) -> (int, int, int) {
    let z = serial + 719468;
    let era = z / 146097;
    let doe = z - era * 146097;
    let yoe = (doe - doe / 1460 + doe / 36524 - doe / 146096) / 365;
    let y = yoe + era * 400;
    let doy = doe - (365 * yoe + yoe / 4 - yoe / 100);
    let mp = (5 * doy + 2) / 153;
    let day = doy - (153 * mp + 2) / 5 + 1;
    let month = mp + if mp < 10 { 3int } else { -9int };
    (y + if month <= 2 { 1int } else { 0int }, month, day)
}

/// The number of days in a month.
pub open spec fn last_day_of(year: int, month: int) -> int {
    let first_of_next = if month == 12 { serial_of(year + 1, 1, 1) } else { serial_of(year, month + 1, 1) };
    civil_of(first_of_next - 1).2
}

/// The date `months` months after `to_serial`, the day clamped to the
/// target month's end.
pub open spec fn months_added(months: int, to_serial: int) -> int {
    let (y, m, d) = civil_of(to_serial);
    let zero_based = y * 12 + (m - 1) + months;
    let year = zero_based / 12;
    let month = zero_based - year * 12 + 1;
    let last = last_day_of(year, month);
    serial_of(year, month, if d < last { d } else { last })
}

/// 0 for Sunday through 6 for Saturday (serial 0, 1970-01-01, was a
/// Thursday).
pub open spec fn sunday_based_weekday(serial: int) -> int {
    (serial + 4) % 7
}

/// The civil date's parts are in range.
proof fn lemma_civil_ranges(serial: int)
    requires
        serial_fits(serial),
    ensures
        1 <= civil_of(serial).1 <= 12,
        1 <= civil_of(serial).2 <= 31,
        -11_000_000_000_000_000 <= civil_of(serial).0 <= 11_000_000_000_000_000,
{
    let z = serial + 719468;
    let era = z / 146097;
    let doe = z - era * 146097;
    assert(0 <= doe < 146097);
    let yoe = (doe - doe / 1460 + doe / 36524 - doe / 146096) / 365;
    assert(0 <= yoe <= 399) by {
        assert(doe / 1460 <= doe);
        assert(0 <= doe / 36524 <= 4);
        assert(0 <= doe / 146096 <= 1);
    }
    assert(era * 146097 <= z);
    assert(-27_380_000_000_000 <= era <= 27_380_000_000_000) by {
        assert(era * 146097 > z - 146097);
    }
    let doy = doe - (365 * yoe + yoe / 4 - yoe / 100);
    assert(0 <= doy <= 365) by {
        assert(0 <= doe / 1460 <= 100);
    }
    let mp = (5 * doy + 2) / 153;
    assert(0 <= mp <= 11);
    let day = doy - (153 * mp + 2) / 5 + 1;
    assert(1 <= day <= 31);
}

/// Every day serial names a date that maps back to it: `serial` undoes
/// `civil`.
pub proof fn lemma_serial_of_civil(s: int)
    requires
        serial_fits(s),
    ensures
        serial_of(civil_of(s).0, civil_of(s).1, civil_of(s).2) == s,
{
    lemma_civil_ranges(s);
    let z = s + 719468;
    let era = z / 146097;
    let doe = z - era * 146097;
    assert(0 <= doe < 146097);
    let yoe = (doe - doe / 1460 + doe / 36524 - doe / 146096) / 365;
    assert(0 <= yoe <= 399) by {
        assert(doe / 1460 <= doe);
        assert(0 <= doe / 36524 <= 4);
        assert(0 <= doe / 146096 <= 1);
    }
    let y0 = yoe + era * 400;
    let doy = doe - (365 * yoe + yoe / 4 - yoe / 100);
    let mp = (5 * doy + 2) / 153;
    assert(0 <= doy <= 365) by {
        assert(0 <= doe / 1460 <= 100);
    }
    assert(0 <= mp <= 11);
    let (year, month, day) = civil_of(s);
    let y = year - if month <= 2 { 1int } else { 0int };
    assert(y == y0);
    lemma_fundamental_div_mod_converse(y, 400, era, yoe);
    assert(y / 400 == era);
    assert(month + (if month > 2 { -3int } else { 9int }) == mp);
    assert(day_of_march_year(month, day) == doy);
}

/// Within a month, the next day's serial is one more: serials count days.
pub proof fn lemma_next_day_in_month(year: int, month: int, day: int)
    requires
        1 <= month <= 12,
    ensures
        serial_of(year, month, day + 1) == serial_of(year, month, day) + 1,
{
}

/// 1970-01-01 is serial 0, and serial 0 is 1970-01-01.
pub proof fn lemma_epoch()
    ensures
        serial_of(1970, 1, 1) == 0,
        civil_of(0) == (1970int, 1int, 1int),
{
    assert(serial_of(1970, 1, 1) == 0);
    assert(civil_of(0) == (1970int, 1int, 1int));
}

/// Is the March-based year `yoe` of an era (March 1 of `yoe` to the end of
/// February of `yoe + 1`) a long one, its February in a leap year?
pub open spec fn long_march_year(yoe: int) -> bool {
    (yoe + 1) % 4 == 0 && ((yoe + 1) % 100 != 0 || (yoe + 1) % 400 == 0)
}

/// The day of the era of day `doy` of March-based year `yoe`, and the year
/// the calendar reads back from it.
proof fn lemma_year_of_era_day(yoe: int, doy: int)
    requires
        0 <= yoe <= 399,
        0 <= doy < 365 + if long_march_year(yoe) { 1int } else { 0int },
    ensures
        ({
            let doe = yoe * 365 + yoe / 4 - yoe / 100 + doy;
            &&& 0 <= doe < 146097
            &&& (doe - doe / 1460 + doe / 36524 - doe / 146096) / 365 == yoe
        }),
{
    let c = yoe / 100;
    let rest = yoe % 100;
    let q = rest / 4;
    let r = rest % 4;
    assert(yoe == 100 * c + 4 * q + r);
    assert(yoe / 4 == 25 * c + q);
    let doe = yoe * 365 + yoe / 4 - yoe / 100 + doy;
    assert(doe == 36524 * c + 1461 * q + 365 * r + doy);
    if c == 0 {
        if r == 0 {} else if r == 1 {} else if r == 2 {} else {}
    } else if c == 1 {
        if r == 0 {} else if r == 1 {} else if r == 2 {} else {}
    } else if c == 2 {
        if r == 0 {} else if r == 1 {} else if r == 2 {} else {}
    } else {
        if r == 0 {} else if r == 1 {} else if r == 2 {} else {}
    }
}

/// Is `year` a leap year of the proleptic Gregorian calendar?
pub open spec fn is_leap(year: int) -> bool {
    year % 4 == 0 && (year % 100 != 0 || year % 400 == 0)
}

/// The number of days in `month` of `year`.
pub open spec fn days_in_month(year: int, month: int) -> int {
    if month == 2 {
        if is_leap(year) { 29 } else { 28 }
    } else if month == 4 || month == 6 || month == 9 || month == 11 {
        30
    } else {
        31
    }
}

/// Every real date maps to a serial that maps back to it: `civil` undoes
/// `serial`.
pub proof fn lemma_civil_of_serial(year: int, month: int, day: int)
    requires
        year_fits(year),
        1 <= month <= 12,
        1 <= day <= days_in_month(year, month),
    ensures
        civil_of(serial_of(year, month, day)) == (year, month, day),
{
    let y = year - if month <= 2 { 1int } else { 0int };
    let era = y / 400;
    let yoe = y - era * 400;
    lemma_fundamental_div_mod(y, 400);
    assert(0 <= yoe < 400);
    let k = month + if month > 2 { -3int } else { 9int };
    let doy = day_of_march_year(month, day);
    assert(doy == (153 * k + 2) / 5 + day - 1);
    assert(year == era * 400 + yoe + if month <= 2 { 1int } else { 0int });
    assert(month <= 2 ==> (is_leap(year) == long_march_year(yoe))) by {
        if month <= 2 {
            assert((era * 400 + (yoe + 1)) % 4 == (yoe + 1) % 4) by {
                vstd::arithmetic::div_mod::lemma_mod_multiples_vanish(era * 100, yoe + 1, 4);
                assert(era * 400 == 4 * (era * 100)) by (nonlinear_arith);
            }
            assert((era * 400 + (yoe + 1)) % 100 == (yoe + 1) % 100) by {
                vstd::arithmetic::div_mod::lemma_mod_multiples_vanish(era * 4, yoe + 1, 100);
                assert(era * 400 == 100 * (era * 4)) by (nonlinear_arith);
            }
            assert((era * 400 + (yoe + 1)) % 400 == (yoe + 1) % 400) by {
                vstd::arithmetic::div_mod::lemma_mod_multiples_vanish(era, yoe + 1, 400);
            }
        }
    }
    assert(0 <= doy < 365 + if long_march_year(yoe) { 1int } else { 0int }) by {
        if month == 1 || month == 2 {} else {}
    }
    lemma_year_of_era_day(yoe, doy);
    let doe = yoe * 365 + yoe / 4 - yoe / 100 + doy;
    let s = serial_of(year, month, day);
    assert(s == era * 146097 + doe - 719468);
    let z = s + 719468;
    lemma_fundamental_div_mod_converse(z, 146097, era, doe);
    assert(z / 146097 == era);
    assert((5 * doy + 2) / 153 == k) by {
        if month == 3 {} else if month == 4 {} else if month == 5 {} else if month == 6 {}
        else if month == 7 {} else if month == 8 {} else if month == 9 {} else if month == 10 {}
        else if month == 11 {} else if month == 12 {} else if month == 1 {} else {}
    }
}

/// The day after the last day of a month is the first of the next month:
/// serials count days across month and year ends.
pub proof fn lemma_month_end_next_day(year: int, month: int)
    requires
        1 <= month <= 12,
    ensures
        (if month == 12 { serial_of(year + 1, 1, 1) } else { serial_of(year, month + 1, 1) }) == serial_of(
            year,
            month,
            days_in_month(year, month),
        ) + 1,
{
    if month == 2 {
        let y0 = year - 1;
        let era1 = year / 400;
        let yoe1 = year - era1 * 400;
        let era0 = y0 / 400;
        let yoe0 = y0 - era0 * 400;
        lemma_fundamental_div_mod(year, 400);
        lemma_fundamental_div_mod(y0, 400);
        if yoe1 >= 1 {
            lemma_fundamental_div_mod_converse(y0, 400, era1, yoe1 - 1);
            assert(era0 == era1 && yoe0 == yoe1 - 1);
            let k = yoe0;
            assert(is_leap(year) == long_march_year(k)) by {
                assert((era1 * 400 + (k + 1)) % 4 == (k + 1) % 4) by {
                    vstd::arithmetic::div_mod::lemma_mod_multiples_vanish(era1 * 100, k + 1, 4);
                    assert(era1 * 400 == 4 * (era1 * 100)) by (nonlinear_arith);
                }
                assert((era1 * 400 + (k + 1)) % 100 == (k + 1) % 100) by {
                    vstd::arithmetic::div_mod::lemma_mod_multiples_vanish(era1 * 4, k + 1, 100);
                    assert(era1 * 400 == 100 * (era1 * 4)) by (nonlinear_arith);
                }
                assert((era1 * 400 + (k + 1)) % 400 == (k + 1) % 400) by {
                    vstd::arithmetic::div_mod::lemma_mod_multiples_vanish(era1, k + 1, 400);
                }
            }
        } else {
            assert(yoe1 == 0);
            lemma_fundamental_div_mod_converse(y0, 400, era1 - 1, 399);
            assert(era0 == era1 - 1 && yoe0 == 399);
            assert(year % 400 == 0);
            assert(year % 4 == 0 && year % 100 == 0) by {
                lemma_fundamental_div_mod_converse(year, 4, era1 * 100, 0);
                lemma_fundamental_div_mod_converse(year, 100, era1 * 4, 0);
            }
        }
    } else if month == 12 {
        let y = year;
        lemma_fundamental_div_mod(y, 400);
    } else if month == 1 {
    } else {
    }
}

/// A month's last day is the day count of the month: `last_day` agrees
/// with the calendar's month lengths.
pub proof fn lemma_last_day(year: int, month: int)
    requires
        year_fits(year),
        year_fits(year + 1),
        1 <= month <= 12,
    ensures
        last_day_of(year, month) == days_in_month(year, month),
{
    lemma_month_end_next_day(year, month);
    lemma_civil_of_serial(year, month, days_in_month(year, month));
}

/// Every real-calendar date of a year near zero has a computable serial.
pub proof fn lemma_serial_computable(year: int, month: int, day: int)
    requires
        year_fits(year),
        1 <= month <= 12,
        1 <= day <= 31,
    ensures
        serial_computable(year, month, day),
{
    let y = year - if month <= 2 { 1int } else { 0int };
    let era = y / 400;
    lemma_fundamental_div_mod(y, 400);
    assert(era * 400 <= y < era * 400 + 400);
}

/// Adding months moves the month by exactly that many and keeps the day of
/// the month whenever the target month has it, else takes the month's last
/// day (Jan 31 plus one month is Feb 28 or 29).
pub proof fn lemma_adding_months_keeps_day(months: int, s: int)
    requires
        serial_fits(s),
        year_fits((civil_of(s).0 * 12 + civil_of(s).1 - 1 + months) / 12),
        year_fits((civil_of(s).0 * 12 + civil_of(s).1 - 1 + months) / 12 + 1),
    ensures
        ({
            let (y, m, d) = civil_of(s);
            let (ry, rm, rd) = civil_of(months_added(months, s));
            &&& 1 <= rm <= 12
            &&& ry * 12 + rm - 1 == y * 12 + m - 1 + months
            &&& rd == (if d <= days_in_month(ry, rm) { d } else { days_in_month(ry, rm) })
        }),
{
    lemma_civil_ranges(s);
    let (y, m, d) = civil_of(s);
    let total = y * 12 + (m - 1) + months;
    let year = total / 12;
    let month = total - year * 12 + 1;
    lemma_fundamental_div_mod(total, 12);
    assert(1 <= month <= 12);
    lemma_last_day(year, month);
    let dim = days_in_month(year, month);
    let day = if d < dim { d } else { dim };
    assert(1 <= day <= dim);
    lemma_civil_of_serial(year, month, day);
}

/// The day serial of a date stays within the serial range.
proof fn lemma_serial_range(year: int, month: int, day: int)
    requires
        year_fits(year),
        1 <= month <= 12,
        1 <= day <= 31,
    ensures
        serial_fits(serial_of(year, month, day)),
{
    let y = year - if month <= 2 { 1int } else { 0int };
    let era = y / 400;
    assert(era * 400 <= y < era * 400 + 400);
    let yoe = y - era * 400;
    assert(0 <= yoe < 400);
    assert(0 <= day_of_march_year(month, day) <= 400);
}

/// Floor division by a positive divisor, from truncating division.
fn floor_div(a: i64, d: i64) -> (r: i64)
    requires
        d > 0,
        a - d >= i64::MIN,
    ensures
        r == a / d,
{
    if a >= 0 {
        a / d
    } else {
        let q = (a - (d - 1)) / d;
        proof {
            let m = d - 1 - a;
            let qq = m / (d as int);
            let rr = m % (d as int);
            lemma_fundamental_div_mod(m, d as int);
            assert(q == -qq);
            assert(a == (-qq) * d + (d - 1 - rr)) by (nonlinear_arith)
                requires
                    m == d * qq + rr,
                    m == d - 1 - a;
            lemma_fundamental_div_mod_converse(a as int, d as int, -qq, d - 1 - rr);
        }
        q
    }
}

/// y/m/d → days since 1970-01-01 (proleptic Gregorian).
pub fn serial(year: i64, month: i64, day: i64) -> (r: i64)
    requires
        serial_computable(year as int, month as int, day as int),
    ensures
        r == serial_of(year as int, month as int, day as int),
        year_fits(year as int) && 1 <= month <= 12 && 1 <= day <= 31 ==> serial_fits(r as int),
{
    proof {
        if year_fits(year as int) && 1 <= month <= 12 && 1 <= day <= 31 {
            lemma_serial_range(year as int, month as int, day as int);
        }
    }
    let y = year - if month <= 2 { 1 } else { 0 };
    let era = if y >= 0 { y / 400 } else { (y - 399) / 400 };
    proof {
        let e = (y as int) / 400;
        vstd::arithmetic::div_mod::lemma_fundamental_div_mod(y as int, 400);
        if y < 0 {
            assert(era == e) by {
                let m = 399 - y;
                vstd::arithmetic::div_mod::lemma_fundamental_div_mod(m as int, 400);
                lemma_fundamental_div_mod_converse(y as int, 400, -(m / 400), 399 - m % 400);
            }
        }
        assert(era * 400 <= y < era * 400 + 400);
    }
    let yoe = y - era * 400;
    let doy = (153 * (month + if month > 2 { -3 } else { 9 }) + 2) / 5 + day - 1;
    let doe = yoe * 365 + yoe / 4 - yoe / 100 + doy;
    era * 146097 + doe - 719468
}

/// Days since 1970-01-01 → (year, month, day).
pub fn civil(serial: i64) -> (r: (i64, i64, i64))
    requires
        serial_fits(serial as int),
    ensures
        r.0 == civil_of(serial as int).0,
        r.1 == civil_of(serial as int).1,
        r.2 == civil_of(serial as int).2,
        1 <= r.1 <= 12,
        1 <= r.2 <= 31,
        -11_000_000_000_000_000 <= r.0 <= 11_000_000_000_000_000,
{
    proof {
        lemma_civil_ranges(serial as int);
    }
    let z = serial + 719468;
    let era = floor_div(z, 146097);
    proof {
        assert(era * 146097 <= z < era * 146097 + 146097);
    }
    let doe = z - era * 146097;
    let yoe = (doe - doe / 1460 + doe / 36524 - doe / 146096) / 365;
    let y = yoe + era * 400;
    let doy = doe - (365 * yoe + yoe / 4 - yoe / 100);
    let mp = (5 * doy + 2) / 153;
    let day = doy - (153 * mp + 2) / 5 + 1;
    let month = mp + if mp < 10 { 3 } else { -9 };
    (y + if month <= 2 { 1 } else { 0 }, month, day)
}

/// The number of days in a month.
pub fn last_day(year: i64, month: i64) -> (r: i64)
    requires
        -10_000_000_000_000_000 < year < 10_000_000_000_000_000,
        1 <= month <= 12,
    ensures
        r == last_day_of(year as int, month as int),
        1 <= r <= 31,
{
    proof {
        if month == 12 {
            lemma_serial_computable(year + 1, 1, 1);
        } else {
            lemma_serial_computable(year as int, month + 1, 1);
        }
    }
    let first_of_next = if month == 12 { serial(year + 1, 1, 1) } else { serial(year, month + 1, 1) };
    civil(first_of_next - 1).2
}

/// Adds months, clamping the day to the target month's end (Jan 31 plus a
/// month is Feb 28 or 29).
pub fn adding_months(months: i64, to_serial: i64) -> (r: i64)
    requires
        serial_fits(to_serial as int),
        -0x1000_0000_0000_0000 <= months <= 0x1000_0000_0000_0000,
        -10_000_000_000_000_000 < (civil_of(to_serial as int).0 * 12 + civil_of(to_serial as int).1 - 1 + months) / 12
            < 10_000_000_000_000_000,
    ensures
        r == months_added(months as int, to_serial as int),
{
    let (y, m, d) = civil(to_serial);
    let zero_based = y * 12 + (m - 1) + months;
    let year = floor_div(zero_based, 12);
    proof {
        assert(year * 12 <= zero_based < year * 12 + 12);
    }
    let month = zero_based - year * 12 + 1;
    let last = last_day(year, month);
    let day = if d < last { d } else { last };
    proof {
        lemma_serial_computable(year as int, month as int, day as int);
    }
    serial(year, month, day)
}

/// Monday–Friday and not a listed holiday. Serial 0 (1970-01-01) was a
/// Thursday, so the Sunday-based weekday is (serial + 4) mod 7.
pub fn is_business_day(serial: i64, holidays: &std::collections::HashSet<i64>) -> (r: bool)
    ensures
        r == (sunday_based_weekday(serial as int) != 0 && sunday_based_weekday(serial as int) != 6
            && !holidays@.contains(serial)),
{
    broadcast use vstd::std_specs::hash::group_hash_axioms;
    let sunday_based = ((serial % 7) + 7 + 4) % 7;
    proof {
        let s = serial as int;
        assert(sunday_based == (s + 4) % 7) by (nonlinear_arith)
            requires
                sunday_based as int == ((serial % 7) + 7 + 4) % 7,
                -7 < serial % 7 < 7,
                (serial % 7 - s) % 7 == 0;
    }
    sunday_based != 0 && sunday_based != 6 && !holidays.contains(&serial)
}

} // verus!
