//! The clock, and the calendar of Shanghai.
use crate::numeral;
use vstd::prelude::*;
use vstd::string::*;

verus! {

/// Shanghai is eight hours ahead of UTC.
pub const SHANGHAI_OFFSET_SECS: i64 = 28_800;

/// Calls `SystemTime::elapsed` on `UNIX_EPOCH`: whole seconds, and the nanoseconds
/// beyond them, of which there are always fewer than a second holds. There is no
/// such time where the clock stands before the epoch.
#[verifier::external_body]
fn since_epoch() -> (r: Option<(u64, u32)>)
    ensures
        r matches Some(now) ==> now.1 < 1_000_000_000,
{
    std::time::UNIX_EPOCH.elapsed().ok().map(|span| (span.as_secs(), span.subsec_nanos()))
}

/// The whole seconds of a time since the epoch; none before it.
pub open spec fn whole_seconds(span: Option<(u64, u32)>) -> u64 {
    match span {
        Some((secs, _)) => secs,
        None => 0,
    }
}

/// The nanoseconds of a time since the epoch; none before it.
pub open spec fn all_nanoseconds(span: Option<(u64, u32)>) -> int {
    match span {
        Some((secs, nanos)) => secs * 1_000_000_000 + nanos,
        None => 0,
    }
}

/// The last time, in seconds, that the calendar of Shanghai can shift.
pub const LATEST_SECS: i64 = i64::MAX - SHANGHAI_OFFSET_SECS;

/// The whole seconds of a time since the epoch; none before it.
pub fn seconds_in(span: Option<(u64, u32)>) -> (r: u64)
    ensures
        r == whole_seconds(span),
{
    match span {
        Some((secs, _)) => secs,
        None => 0,
    }
}

/// The nanoseconds of a time since the epoch; none before it.
pub fn nanoseconds_in(span: Option<(u64, u32)>) -> (r: u128)
    ensures
        r == all_nanoseconds(span),
{
    match span {
        Some((secs, nanos)) => (secs as u128) * 1_000_000_000 + nanos as u128,
        None => 0,
    }
}

/// Seconds as a signed number, held to what the calendar of Shanghai can shift.
pub fn calendar_seconds(secs: u64) -> (r: i64)
    ensures
        r == (if secs <= LATEST_SECS {
            secs as int
        } else {
            LATEST_SECS as int
        }),
{
    if secs <= LATEST_SECS as u64 {
        secs as i64
    } else {
        LATEST_SECS
    }
}

/// The seconds since the epoch; none where the clock stands before it.
pub fn unix_now_secs() -> (r: u64)
    ensures
        exists|span: Option<(u64, u32)>| r == #[trigger] whole_seconds(span),
{
    seconds_in(since_epoch())
}

/// The nanoseconds since the epoch; none where the clock stands before it.
pub fn unix_now_nanos() -> (r: u128)
    ensures
        exists|span: Option<(u64, u32)>|
            r == #[trigger] all_nanoseconds(span) && (span matches Some(now) ==> now.1
                < 1_000_000_000),
{
    nanoseconds_in(since_epoch())
}

/// The seconds since the epoch as a signed number, held to what the calendar of
/// Shanghai can shift.
pub fn now_unix_secs() -> (r: i64)
    ensures
        0 <= r <= LATEST_SECS,
{
    calendar_seconds(unix_now_secs())
}

/// Has the year `y` a 29 February?
pub open spec fn leap_year(y: int) -> bool {
    y % 4 == 0 && (y % 100 != 0 || y % 400 == 0)
}

/// The days of the month `m` of the year `y`.
pub open spec fn days_in_month(y: int, m: int) -> int {
    if m == 2 {
        if leap_year(y) {
            29
        } else {
            28
        }
    } else if m == 4 || m == 6 || m == 9 || m == 11 {
        30
    } else {
        31
    }
}

/// The days from 1 January of the year 1 to 1 January of the year `y`.
pub open spec fn days_before_year(y: int) -> int {
    365 * (y - 1) + (y - 1) / 4 - (y - 1) / 100 + (y - 1) / 400
}

/// The days from 1 January to the first of the month `m`, in the year `y`.
pub open spec fn days_before_month(y: int, m: int) -> int
    decreases m,
{
    if m <= 1 {
        0
    } else {
        days_before_month(y, m - 1) + days_in_month(y, m - 1)
    }
}

/// The calendar has a day `d` in the month `m` of the year `y`.
pub open spec fn valid_date(y: int, m: int, d: int) -> bool {
    1 <= m <= 12 && 1 <= d <= days_in_month(y, m)
}

/// The days from 1 January 1970 to the given date.
pub open spec fn day_number(y: int, m: int, d: int) -> int {
    days_before_year(y) + days_before_month(y, m) + d - 1 - days_before_year(1970)
}

/// The date that lies `days` days after 1 January 1970, as year, month and day.
pub open spec fn civil_date(days: int) -> (int, int, int) {
    choose|date: (int, int, int)|
        valid_date(date.0, date.1, date.2) && #[trigger] day_number(date.0, date.1, date.2) == days
}

/// A quotient grows by one exactly at the multiples of the divisor.
proof fn lemma_quotient_step(y: int, k: int)
    requires
        k > 1,
    ensures
        y / k - (y - 1) / k == (if y % k == 0 { 1int } else { 0int }),
{
    let q = y / k;
    let r = y % k;
    vstd::arithmetic::div_mod::lemma_fundamental_div_mod(y, k);
    if r == 0 {
        assert(y - 1 == (q - 1) * k + (k - 1)) by (nonlinear_arith)
            requires
                y == k * q + r,
                r == 0,
        ;
        vstd::arithmetic::div_mod::lemma_fundamental_div_mod_converse(y - 1, k, q - 1, k - 1);
    } else {
        vstd::arithmetic::mul::lemma_mul_is_commutative(k, q);
        vstd::arithmetic::div_mod::lemma_fundamental_div_mod_converse(y - 1, k, q, r - 1);
    }
}

proof fn lemma_step(y: int)
    ensures
        y / 4 - (y - 1) / 4 == (if y % 4 == 0 { 1int } else { 0int }),
        y / 100 - (y - 1) / 100 == (if y % 100 == 0 { 1int } else { 0int }),
        y / 400 - (y - 1) / 400 == (if y % 400 == 0 { 1int } else { 0int }),
        y % 100 == 0 ==> y % 4 == 0,
        y % 400 == 0 ==> y % 100 == 0,
{
    lemma_quotient_step(y, 4);
    lemma_quotient_step(y, 100);
    lemma_quotient_step(y, 400);
    if y % 100 == 0 {
        vstd::arithmetic::div_mod::lemma_fundamental_div_mod_converse(y, 4, 25 * (y / 100), 0);
    }
    if y % 400 == 0 {
        vstd::arithmetic::div_mod::lemma_fundamental_div_mod_converse(y, 100, 4 * (y / 400), 0);
    }
}

/// A year has 366 days where it is a leap year, and 365 otherwise.
pub proof fn lemma_year_length(y: int)
    ensures
        days_before_year(y + 1) - days_before_year(y) == (if leap_year(y) {
            366int
        } else {
            365int
        }),
{
    lemma_step(y);
}

proof fn lemma_month_table(y: int)
    ensures
        days_before_month(y, 1) == 0,
        days_before_month(y, 2) == 31,
        ({
            let feb = if leap_year(y) { 29int } else { 28int };
            &&& days_before_month(y, 3) == 31 + feb
            &&& days_before_month(y, 4) == 62 + feb
            &&& days_before_month(y, 5) == 92 + feb
            &&& days_before_month(y, 6) == 123 + feb
            &&& days_before_month(y, 7) == 153 + feb
            &&& days_before_month(y, 8) == 184 + feb
            &&& days_before_month(y, 9) == 215 + feb
            &&& days_before_month(y, 10) == 245 + feb
            &&& days_before_month(y, 11) == 276 + feb
            &&& days_before_month(y, 12) == 306 + feb
        }),
{
    reveal_with_fuel(days_before_month, 13);
}

proof fn lemma_years_apart(a: int, b: int)
    requires
        a <= b,
    ensures
        days_before_year(a) + 365 * (b - a) <= days_before_year(b),
    decreases b - a,
{
    if a < b {
        lemma_years_apart(a, b - 1);
        lemma_year_length(b - 1);
    }
}

/// A day of a year comes before the next year begins.
proof fn lemma_within_year(y: int, m: int, d: int)
    requires
        valid_date(y, m, d),
    ensures
        days_before_year(y) <= day_number(y, m, d) + days_before_year(1970) < days_before_year(y + 1),
{
    lemma_month_table(y);
    lemma_year_length(y);
}

/// Two dates with the same day number are the same date.
pub proof fn lemma_date_unique(y1: int, m1: int, d1: int, y2: int, m2: int, d2: int)
    requires
        valid_date(y1, m1, d1),
        valid_date(y2, m2, d2),
        day_number(y1, m1, d1) == day_number(y2, m2, d2),
    ensures
        y1 == y2,
        m1 == m2,
        d1 == d2,
{
    lemma_within_year(y1, m1, d1);
    lemma_within_year(y2, m2, d2);
    if y1 < y2 {
        lemma_years_apart(y1 + 1, y2);
    } else if y2 < y1 {
        lemma_years_apart(y2 + 1, y1);
    }
    lemma_month_table(y1);
}

/// A calendar date is the date that lies its day number of days after 1 January 1970.
pub proof fn law_civil_date(y: int, m: int, d: int)
    requires
        valid_date(y, m, d),
    ensures
        civil_date(day_number(y, m, d)) == (y, m, d),
{
    let date = (y, m, d);
    assert(day_number(date.0, date.1, date.2) == day_number(y, m, d));
    let found = civil_date(day_number(y, m, d));
    lemma_date_unique(found.0, found.1, found.2, y, m, d);
}

/// `a / b`, rounded down.
fn floor_div(a: i64, b: i64) -> (r: i64)
    requires
        b > 0,
    ensures
        r == a as int / b as int,
{
    if a >= 0 {
        a / b
    } else {
        let up: i64 = -(a + 1);
        let q: i64 = up / b;
        proof {
            let bb = b as int;
            vstd::arithmetic::div_mod::lemma_fundamental_div_mod(up as int, bb);
            assert(a as int == (-(q as int) - 1) * bb + (bb - 1 - up as int % bb))
                by (nonlinear_arith)
                requires
                    up as int == bb * (q as int) + up as int % bb,
                    a as int == -(up as int) - 1,
            ;
            vstd::arithmetic::div_mod::lemma_fundamental_div_mod_converse(
                a as int,
                bb,
                -(q as int) - 1,
                bb - 1 - up as int % bb,
            );
        }
        -q - 1
    }
}

/// Where the date falls that comes `doy` days after 1 March of the year `start`.
proof fn lemma_day_of_year(start: int, doy: int, mp: int, day: int, month: int, year: int)
    requires
        0 <= doy <= 364 || (doy == 365 && leap_year(start + 1)),
        mp == (5 * doy + 2) / 153,
        day == doy - (153 * mp + 2) / 5 + 1,
        month == (if mp < 10 { mp + 3 } else { mp - 9 }),
        year == (if month <= 2 { start + 1 } else { start }),
    ensures
        0 <= mp <= 11,
        valid_date(year, month, day),
        day_number(year, month, day) == day_number(start, 3, 1) + doy,
{
    lemma_month_table(year);
    lemma_month_table(start);
    lemma_year_length(start);
    assert(0 <= mp <= 11);
    assert(mp == 0 || mp == 1 || mp == 2 || mp == 3 || mp == 4 || mp == 5 || mp == 6 || mp == 7 || mp
        == 8 || mp == 9 || mp == 10 || mp == 11);
}

/// Where 1 March of a year falls that is given by its place in a cycle of 400
/// years, and whether the February that ends that year is a long one.
proof fn lemma_march(start: int, era: int, century: int, quad: int, part: int)
    requires
        start == era * 400 + century * 100 + quad * 4 + part,
        0 <= century <= 3,
        0 <= quad <= 24,
        0 <= part <= 3,
    ensures
        day_number(start, 3, 1) == era * 146_097 + century * 36_524 + quad * 1_461 + part * 365
            - 719_468,
        leap_year(start + 1) == (part == 3 && (quad != 24 || century == 3)),
{
    lemma_month_table(start);
    lemma_step(start);
    assert(start / 4 == era * 100 + century * 25 + quad);
    assert(start / 100 == era * 4 + century);
    assert(start / 400 == era);
    assert((start + 1) % 4 == (part + 1) % 4);
    assert((start + 1) % 100 == (quad * 4 + part + 1) % 100);
    assert((start + 1) % 400 == (century * 100 + quad * 4 + part + 1) % 400);
    assert(days_before_year(1970) == 719_162);
}

/// The year, the month and the day that lie `days` days after 1 January 1970.
/// The year wraps where it does not fit.
pub fn civil_from_days(days: i64) -> (r: (i32, u32, u32))
    requires
        days <= i64::MAX - 719_468,
    ensures
        ({
            let (y, m, d) = civil_date(days as int);
            &&& valid_date(y, m, d)
            &&& day_number(y, m, d) == days
            &&& r == (y as i32, m as u32, d as u32)
        }),
{
    // Counted from 1 March of the year 0, a leap day is the last day of a year.
    let z: i64 = days + 719_468;
    let era: i64 = floor_div(z, 146_097);
    let doe: i64 = z - era * 146_097;
    assert(0 <= doe <= 146_096);
    let century: i64 = if doe / 36_524 > 3 { 3 } else { doe / 36_524 };
    let doc: i64 = doe - century * 36_524;
    assert(0 <= doc <= 36_524 && (doc == 36_524 ==> century == 3));
    let quad: i64 = doc / 1_461;
    let doq: i64 = doc - quad * 1_461;
    assert(0 <= quad <= 24 && 0 <= doq <= 1_460);
    assert(doq == 1_460 && quad == 24 ==> century == 3);
    let part: i64 = if doq / 365 > 3 { 3 } else { doq / 365 };
    let doy: i64 = doq - part * 365;
    assert(0 <= doy <= 365 && (doy == 365 ==> part == 3 && doq == 1_460));
    let start: i64 = era * 400 + century * 100 + quad * 4 + part;
    let mp: i64 = (5 * doy + 2) / 153;
    let day: i64 = doy - (153 * mp + 2) / 5 + 1;
    let month: i64 = if mp < 10 { mp + 3 } else { mp - 9 };
    let year: i64 = if month <= 2 { start + 1 } else { start };
    proof {
        lemma_march(start as int, era as int, century as int, quad as int, part as int);
        lemma_day_of_year(start as int, doy as int, mp as int, day as int, month as int, year as int);
        assert(day_number(year as int, month as int, day as int) == days);
        law_civil_date(year as int, month as int, day as int);
    }
    (year as i32, month as u32, day as u32)
}

/// `n` in decimal, at least `width` characters long: zeros stand between the
/// sign and the digits.
pub open spec fn signed_padded(n: int, width: int) -> Seq<char> {
    if n < 0 {
        seq!['-'] + numeral::zero_padded(numeral::decimal(-n), width - 1)
    } else {
        numeral::zero_padded(numeral::decimal(n), width)
    }
}

/// Two decimal digits.
pub open spec fn two_digits(n: int) -> Seq<char> {
    numeral::zero_padded(numeral::decimal(n), 2)
}

/// The date `days` days after 1 January 1970, as `YYYY-MM-DD`.
pub open spec fn date_text(days: int) -> Seq<char> {
    let (y, m, d) = civil_date(days);
    signed_padded((y as i32) as int, 4) + seq!['-'] + two_digits(m) + seq!['-'] + two_digits(d)
}

/// The date in Shanghai at the time `ts`.
pub open spec fn shanghai_day(ts: int) -> Seq<char> {
    date_text((ts + SHANGHAI_OFFSET_SECS) / 86_400)
}

/// The month in Shanghai at the time `ts`: the first seven characters of the date.
pub open spec fn shanghai_month_text(ts: int) -> Seq<char> {
    shanghai_day(ts).take(7)
}

/// The date and the time of day in Shanghai at the time `ts`.
pub open spec fn shanghai_time(ts: int) -> Seq<char> {
    let secs = (ts + SHANGHAI_OFFSET_SECS) % 86_400;
    shanghai_day(ts) + seq![' '] + two_digits(secs / 3_600) + seq![':'] + two_digits(
        (secs % 3_600) / 60,
    ) + seq![':'] + two_digits(secs % 60)
}

fn write_two(n: u32) -> (r: String)
    ensures
        r@ == two_digits(n as int),
{
    numeral::pad_zeros(numeral::to_decimal(n as u128), 2)
}

fn write_year(year: i32) -> (r: String)
    ensures
        r@ == signed_padded(year as int, 4),
{
    let wide: i64 = year as i64;
    if wide < 0 {
        let digits: String = numeral::pad_zeros(numeral::to_decimal((-wide) as u128), 3);
        let mut out: String = String::new();
        out.push('-');
        out.append(digits.as_str());
        assert(out@ =~= signed_padded(year as int, 4));
        out
    } else {
        numeral::pad_zeros(numeral::to_decimal(wide as u128), 4)
    }
}

proof fn lemma_padded_length(s: Seq<char>, width: int)
    ensures
        numeral::zero_padded(s, width).len() >= width,
        numeral::zero_padded(s, width).len() >= s.len(),
    decreases width - s.len(),
{
    if s.len() < width {
        lemma_padded_length(seq!['0'] + s, width);
    }
}

proof fn lemma_day_length(ts: int)
    ensures
        shanghai_day(ts).len() >= 10,
{
    let (y, m, d) = civil_date((ts + SHANGHAI_OFFSET_SECS) / 86_400);
    lemma_padded_length(numeral::decimal(-((y as i32) as int)), 3);
    lemma_padded_length(numeral::decimal((y as i32) as int), 4);
    lemma_padded_length(numeral::decimal(m), 2);
    lemma_padded_length(numeral::decimal(d), 2);
}

/// The date in Shanghai at the time `ts`, and the date with the time of day.
pub fn shanghai_strings(ts: i64) -> (r: (String, String))
    requires
        ts <= LATEST_SECS,
    ensures
        r.0@ == shanghai_day(ts as int),
        r.1@ == shanghai_time(ts as int),
{
    let adjusted: i64 = ts + SHANGHAI_OFFSET_SECS;
    let days: i64 = floor_div(adjusted, 86_400);
    let secs: i64 = if adjusted >= 0 {
        adjusted % 86_400
    } else {
        86_399 - (-(adjusted + 1)) % 86_400
    };
    assert(secs == (adjusted as int) % 86_400);
    let (year, month, day): (i32, u32, u32) = civil_from_days(days);
    let mut date: String = write_year(year);
    date.push('-');
    date.append(write_two(month).as_str());
    date.push('-');
    date.append(write_two(day).as_str());
    assert(date@ =~= shanghai_day(ts as int));
    let mut time: String = date.clone();
    time.push(' ');
    time.append(write_two((secs / 3_600) as u32).as_str());
    time.push(':');
    time.append(write_two(((secs % 3_600) / 60) as u32).as_str());
    time.push(':');
    time.append(write_two((secs % 60) as u32).as_str());
    assert(time@ =~= shanghai_time(ts as int));
    (date, time)
}

/// The month in Shanghai at the time `ts`.
pub fn shanghai_month(ts: i64) -> (r: String)
    requires
        ts <= LATEST_SECS,
    ensures
        r@ == shanghai_month_text(ts as int),
{
    let (day, _): (String, String) = shanghai_strings(ts);
    proof {
        lemma_day_length(ts as int);
    }
    assert(day@.subrange(0, 7) =~= day@.take(7));
    day.as_str().substring_char(0, 7).to_owned()
}

/// The years with a 29 February are those that 4 divides, but of those that 100 divides only
/// those that 400 divides; and the months have the days that they have.
pub proof fn law_calendar(y: int, m: int)
    ensures
        y % 400 == 0 ==> leap_year(y),
        y % 100 == 0 && y % 400 != 0 ==> !leap_year(y),
        y % 4 == 0 && y % 100 != 0 ==> leap_year(y),
        y % 4 != 0 ==> !leap_year(y),
        leap_year(y) ==> days_in_month(y, 2) == 29,
        !leap_year(y) ==> days_in_month(y, 2) == 28,
        m == 4 || m == 6 || m == 9 || m == 11 ==> days_in_month(y, m) == 30,
        m == 1 || m == 3 || m == 5 || m == 7 || m == 8 || m == 10 || m == 12 ==> days_in_month(y, m)
            == 31,
        day_number(1970, 1, 1) == 0,
{
    lemma_month_table(1970);
    lemma_step(y);
}

/// The day after the last day of a month is the first of the next one, and the day after any
/// other the next of the month; each lies one day later.
pub proof fn law_days_go_on(y: int, m: int, d: int)
    requires
        valid_date(y, m, d),
    ensures
        day_number(y, m, d + 1) == day_number(y, m, d) + 1,
        d == days_in_month(y, m) && m < 12 ==> day_number(y, m + 1, 1) == day_number(y, m, d) + 1,
        d == days_in_month(y, m) && m == 12 ==> day_number(y + 1, 1, 1) == day_number(y, m, d) + 1,
{
    lemma_month_table(y);
    lemma_month_table(y + 1);
    lemma_year_length(y);
}

proof fn lemma_short_decimal(n: int)
    requires
        0 <= n < 10_000,
    ensures
        numeral::decimal(n).len() <= 4,
        n < 100 ==> numeral::decimal(n).len() <= 2,
{
    reveal_with_fuel(numeral::numeral, 5);
}

/// The date and the time of day in Shanghai are those of the clock there, which is eight hours
/// ahead: the time that lies so many days, hours, minutes and seconds after the beginning of
/// 1970 in Shanghai is told with that date and that time of day, and its month is the year and
/// the month of it.
pub proof fn law_shanghai(y: int, m: int, d: int, hour: int, minute: int, second: int)
    requires
        valid_date(y, m, d),
        0 <= y <= 9_999,
        0 <= hour < 24,
        0 <= minute < 60,
        0 <= second < 60,
    ensures
        ({
            let ts = day_number(y, m, d) * 86_400 + (hour - 8) * 3_600 + minute * 60 + second;
            let year = numeral::zero_padded(numeral::decimal(y), 4);
            let month = numeral::zero_padded(numeral::decimal(m), 2);
            let day = numeral::zero_padded(numeral::decimal(d), 2);
            let date = year + seq!['-'] + month + seq!['-'] + day;
            &&& shanghai_day(ts) == date
            &&& shanghai_month_text(ts) == year + seq!['-'] + month
            &&& shanghai_time(ts) == date + seq![' '] + numeral::zero_padded(
                numeral::decimal(hour),
                2,
            ) + seq![':'] + numeral::zero_padded(numeral::decimal(minute), 2) + seq![':']
                + numeral::zero_padded(numeral::decimal(second), 2)
        }),
{
    let days = day_number(y, m, d);
    let secs = hour * 3_600 + minute * 60 + second;
    let ts = days * 86_400 + (hour - 8) * 3_600 + minute * 60 + second;
    assert(ts + SHANGHAI_OFFSET_SECS == days * 86_400 + secs);
    vstd::arithmetic::div_mod::lemma_fundamental_div_mod_converse(
        ts + SHANGHAI_OFFSET_SECS,
        86_400,
        days,
        secs,
    );
    assert(secs / 3_600 == hour && secs % 3_600 == minute * 60 + second);
    assert((minute * 60 + second) / 60 == minute);
    assert(secs % 60 == second);
    law_civil_date(y, m, d);
    lemma_short_decimal(y);
    lemma_short_decimal(m);
    let year = numeral::zero_padded(numeral::decimal(y), 4);
    let month = numeral::zero_padded(numeral::decimal(m), 2);
    numeral::law_zero_padded(numeral::decimal(y), 4);
    numeral::law_zero_padded(numeral::decimal(m), 2);
    assert(year.len() == 4 && month.len() == 2);
    assert(shanghai_day(ts).take(7) =~= year + seq!['-'] + month);
}

/// A time of the clock is told in whole seconds, and in nanoseconds with the rest; before the
/// epoch there is none.
pub proof fn law_times(secs: u64, nanos: u32)
    requires
        nanos < 1_000_000_000,
    ensures
        whole_seconds(Some((secs, nanos))) == secs,
        all_nanoseconds(Some((secs, nanos))) / 1_000_000_000 == secs,
        all_nanoseconds(Some((secs, nanos))) % 1_000_000_000 == nanos,
        whole_seconds(None) == 0,
        all_nanoseconds(None) == 0,
{
}

/// A year before the year zero has its sign in front, and the zeros behind it.
pub proof fn law_signed_padded(n: int, width: int)
    ensures
        n >= 0 ==> signed_padded(n, width) == numeral::zero_padded(numeral::decimal(n), width),
        n < 0 ==> signed_padded(n, width) == seq!['-'] + numeral::zero_padded(
            numeral::decimal(-n),
            width - 1,
        ),
{
}

} // verus!
