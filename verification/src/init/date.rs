//! Calendar dates from the clock.
use crate::clock;
use crate::text;
use crate::text::{cat2, cat5, dec_text};
use vstd::prelude::*;

verus! {

/// A date of the Gregorian calendar.
#[derive(Debug)]
pub struct Date {
    pub year: u64,
    pub month: u64,
    pub day: u64,
}

/// The days of the years before `y` of a 400-year era that begins in March.
pub open spec fn era_days(y: int) -> int {
    365 * y + y / 4 - y / 100
}

/// The days of the months before `m`, counted from March.
pub open spec fn month_days(m: int) -> int {
    (153 * m + 2) / 5
}

/// The number of a day, counted from the first of March of the year 0.
pub open spec fn day_number(year: int, month: int, day: int) -> int {
    let y = if month <= 2 {
        year - 1
    } else {
        year
    };
    let m = if month > 2 {
        month - 3
    } else {
        month + 9
    };
    146_097 * (y / 400) + era_days(y % 400) + month_days(m) + day - 1
}

/// The day number of the first of January 1970.
pub open spec fn epoch_day() -> int {
    719_468
}

pub open spec fn leap(year: int) -> bool {
    year % 4 == 0 && (year % 100 != 0 || year % 400 == 0)
}

pub open spec fn days_in(year: int, month: int) -> int {
    if month == 2 {
        if leap(year) {
            29
        } else {
            28
        }
    } else if month == 4 || month == 6 || month == 9 || month == 11 {
        30
    } else {
        31
    }
}

/// A date that the calendar has.
pub open spec fn on_calendar(year: int, month: int, day: int) -> bool {
    1 <= month <= 12 && 1 <= day <= days_in(year, month)
}

/// Where a day lies in its era: in which century, in which four years of it, in
/// which year of them, and on which day of that year.
struct EraDay {
    century: u64,
    quad: u64,
    year: u64,
    day: u64,
}

spec fn in_era(e: EraDay, doe: int) -> bool {
    &&& e.century <= 3 && e.quad <= 24 && e.year <= 3 && e.day <= 365
    &&& doe == 36_524 * e.century + 1_461 * e.quad + 365 * e.year + e.day
    &&& e.day == 365 ==> e.year == 3 && (e.quad == 24 ==> e.century == 3)
}

fn split_era(doe: u64) -> (r: EraDay)
    requires
        doe < 146_097,
    ensures
        in_era(r, doe as int),
{
    let century: u64 = if doe / 36_524 > 3 {
        3
    } else {
        doe / 36_524
    };
    let in_century: u64 = doe - 36_524 * century;
    let quad: u64 = in_century / 1_461;
    let in_quad: u64 = in_century - 1_461 * quad;
    let year: u64 = if in_quad / 365 > 3 {
        3
    } else {
        in_quad / 365
    };
    EraDay { century, quad, year, day: in_quad - 365 * year }
}

/// The year of its era.
spec fn year_of_era(e: EraDay) -> int {
    100 * e.century + 4 * e.quad + e.year
}

proof fn lemma_era_days(e: EraDay, doe: int)
    requires
        in_era(e, doe),
    ensures
        0 <= year_of_era(e) < 400,
        doe == era_days(year_of_era(e)) + e.day,
        e.day == 365 ==> leap(year_of_era(e) + 1),
{
    let y = year_of_era(e);
    let low = 4 * e.quad + e.year;
    assert(y / 100 == e.century) by {
        assert(y == 100 * e.century + low && 0 <= low < 100);
    }
    assert(y / 4 == 25 * e.century + e.quad) by {
        assert(y == 4 * (25 * e.century + e.quad) + e.year && 0 <= e.year < 4);
    }
}

proof fn lemma_month(doy: int)
    requires
        0 <= doy <= 365,
    ensures
        ({
            let m = (5 * doy + 2) / 153;
            0 <= m <= 11 && month_days(m) <= doy < month_days(m + 1)
        }),
{
}

proof fn lemma_leap_of_era(era: int, y: int)
    ensures
        leap(400 * era + y) == leap(y),
{
    assert((400 * era + y) % 400 == y % 400);
    assert((400 * era + y) % 100 == y % 100);
    assert((400 * era + y) % 4 == y % 4);
}

/// The date of a day, counted from the first of March of the year 0.
pub fn civil_date(n: u64) -> (r: Date)
    requires
        n < 0x1000_0000_0000_0000,
    ensures
        on_calendar(r.year as int, r.month as int, r.day as int),
        day_number(r.year as int, r.month as int, r.day as int) == n,
{
    let era: u64 = n / 146_097;
    let doe: u64 = n % 146_097;
    let e = split_era(doe);
    proof {
        lemma_era_days(e, doe as int);
        lemma_month(e.day as int);
        lemma_leap_of_era(era as int, year_of_era(e));
        lemma_leap_of_era(era as int, year_of_era(e) + 1);
    }
    let y: u64 = 400 * era + 100 * e.century + 4 * e.quad + e.year;
    let m: u64 = (5 * e.day + 2) / 153;
    let day: u64 = e.day - (153 * m + 2) / 5 + 1;
    let month: u64 = if m < 10 {
        m + 3
    } else {
        m - 9
    };
    let year: u64 = if month <= 2 {
        y + 1
    } else {
        y
    };
    assert(y as int / 400 == era as int && y as int % 400 == year_of_era(e)) by {
        vstd::arithmetic::div_mod::lemma_fundamental_div_mod_converse(
            y as int,
            400,
            era as int,
            year_of_era(e),
        );
    }
    assert(day <= days_in(year as int, month as int)) by {
        if m == 11 {
            assert(year == y + 1);
        }
    }
    Date { year, month, day }
}

/// A number with zeros before it, up to `width` digits.
pub open spec fn padded(n: nat, width: nat) -> Seq<char> {
    let s = text::dec(n);
    if s.len() >= width {
        s
    } else {
        Seq::new((width - s.len()) as nat, |i: int| '0') + s
    }
}

pub fn pad(n: u64, width: usize) -> (r: String)
    ensures
        r@ == padded(n as nat, width as nat),
{
    let s = dec_text(n);
    let len: usize = text::chars_of(s.as_str()).len();
    let mut zeros = String::new();
    let mut k: usize = len;
    while k < width
        invariant
            len <= k,
            k <= width || k == len,
            zeros@ == Seq::new((k - len) as nat, |i: int| '0'),
        decreases width - k,
    {
        zeros.push('0');
        assert(zeros@ =~= Seq::new((k + 1 - len) as nat, |i: int| '0'));
        k += 1;
    }
    let out = cat2(zeros.as_str(), s.as_str());
    assert(out@ =~= padded(n as nat, width as nat));
    out
}

/// A date as `YYYY-MM-DD`.
pub open spec fn iso_text(year: nat, month: nat, day: nat) -> Seq<char> {
    padded(year, 4) + "-"@ + padded(month, 2) + "-"@ + padded(day, 2)
}

/// Whether a text is the date of a time in seconds since the Unix epoch.
pub open spec fn dates(s: Seq<char>, secs: nat) -> bool {
    exists|y: nat, m: nat, d: nat|
        on_calendar(y as int, m as int, d as int) && day_number(y as int, m as int, d as int)
            == epoch_day() + secs as int / 86_400 && s == #[trigger] iso_text(y, m, d)
}

/// The date of a time in seconds since the Unix epoch, as `YYYY-MM-DD`.
pub fn ymd(secs: u64) -> (r: String)
    ensures
        dates(r@, secs as nat),
{
    let d = civil_date(secs / 86_400 + 719_468);
    let r = cat5(
        pad(d.year, 4).as_str(),
        "-",
        pad(d.month, 2).as_str(),
        "-",
        pad(d.day, 2).as_str(),
    );
    assert(r@ =~= iso_text(d.year as nat, d.month as nat, d.day as nat));
    r
}

/// Today's date.
pub fn ymd_today() -> (r: String)
    ensures
        exists|secs: nat| #[trigger] dates(r@, secs),
{
    let secs: u64 = clock::unix_secs();
    ymd(secs)
}

// ── Laws ────────────────────────────────────────────────────────────────
proof fn lemma_era_days_grow(a: int, b: int)
    requires
        0 <= a < b < 400,
    ensures
        era_days(a) + 365 <= era_days(b),
        leap(a + 1) ==> era_days(a) + 366 <= era_days(b),
{
    assert(era_days(a + 1) <= era_days(b)) by {
        assert(365 * (a + 1) + (a + 1) / 4 - (a + 1) / 100 <= 365 * b + b / 4 - b / 100);
    }
}

/// The day of the year, counted from March.
pub open spec fn march_day(month: int, day: int) -> int {
    month_days(
        if month > 2 {
            month - 3
        } else {
            month + 9
        },
    ) + day - 1
}

/// The year, counted from March.
pub open spec fn march_year(year: int, month: int) -> int {
    if month <= 2 {
        year - 1
    } else {
        year
    }
}

proof fn lemma_march_day(year: int, month: int, day: int)
    requires
        on_calendar(year, month, day),
    ensures
        0 <= march_day(month, day) <= 365,
        march_day(month, day) == 365 ==> leap(march_year(year, month) + 1),
{
}

proof fn lemma_march_day_is_unique(m1: int, d1: int, m2: int, d2: int, y1: int, y2: int)
    requires
        on_calendar(y1, m1, d1),
        on_calendar(y2, m2, d2),
        march_day(m1, d1) == march_day(m2, d2),
    ensures
        m1 == m2,
        d1 == d2,
{
}

/// A day of the era: its year, the last of which has 366 days where it ends in
/// a leap year's February, and the day of that year.
spec fn era_place(y: int, d: int) -> bool {
    &&& 0 <= y < 400
    &&& 0 <= d <= 365
    &&& d == 365 ==> leap(y + 1)
}

proof fn lemma_era_bound(y: int, d: int)
    requires
        era_place(y, d),
    ensures
        0 <= era_days(y) + d < 146_097,
{
    assert(y / 4 <= 99 && y / 100 >= 0);
    if y == 399 {
        assert(era_days(399) == 145_731);
    } else {
        assert(era_days(y) <= 365 * 398 + 99);
    }
}

proof fn lemma_era_place(ya: int, da: int, yb: int, db: int)
    requires
        era_place(ya, da),
        era_place(yb, db),
        era_days(ya) + da == era_days(yb) + db,
    ensures
        ya == yb,
        da == db,
{
    if ya < yb {
        lemma_era_days_grow(ya, yb);
    } else if yb < ya {
        lemma_era_days_grow(yb, ya);
    }
}

proof fn lemma_place_of(year: int, month: int, day: int)
    requires
        on_calendar(year, month, day),
    ensures
        era_place(march_year(year, month) % 400, march_day(month, day)),
        day_number(year, month, day) == 146_097 * (march_year(year, month) / 400) + (era_days(
            march_year(year, month) % 400,
        ) + march_day(month, day)),
{
    let a = march_year(year, month);
    lemma_march_day(year, month, day);
    lemma_leap_of_era(a / 400, a % 400 + 1);
    assert(a + 1 == 400 * (a / 400) + (a % 400 + 1));
}

/// Two dates of the calendar with one day number are the same date, so the
/// number of a day pins its date down.
pub proof fn law_day_number_names_one_date(y1: int, m1: int, d1: int, y2: int, m2: int, d2: int)
    requires
        on_calendar(y1, m1, d1),
        on_calendar(y2, m2, d2),
        day_number(y1, m1, d1) == day_number(y2, m2, d2),
    ensures
        y1 == y2 && m1 == m2 && d1 == d2,
{
    let a = march_year(y1, m1);
    let b = march_year(y2, m2);
    lemma_place_of(y1, m1, d1);
    lemma_place_of(y2, m2, d2);
    lemma_era_bound(a % 400, march_day(m1, d1));
    lemma_era_bound(b % 400, march_day(m2, d2));
    lemma_era_and_rest(
        a / 400,
        era_days(a % 400) + march_day(m1, d1),
        b / 400,
        era_days(b % 400) + march_day(m2, d2),
    );
    lemma_era_place(a % 400, march_day(m1, d1), b % 400, march_day(m2, d2));
    lemma_march_day_is_unique(m1, d1, m2, d2, y1, y2);
    assert(a == 400 * (a / 400) + a % 400);
    assert(b == 400 * (b / 400) + b % 400);
}

proof fn lemma_era_and_rest(e: int, p: int, f: int, q: int)
    requires
        0 <= p < 146_097,
        0 <= q < 146_097,
        146_097 * e + p == 146_097 * f + q,
    ensures
        e == f,
        p == q,
{
}

/// The day after a day has the next number: within a month, from a month to the
/// next, and from a year to the next. February has 29 days in every fourth year,
/// but for those of the centuries that four does not divide.
#[verifier::spinoff_prover]
#[verifier::rlimit(60)]
pub proof fn law_days_follow_each_other(year: int, month: int, day: int)
    requires
        1 <= month <= 12,
        1 <= day <= 31,
    ensures
        day_number(year, month, day + 1) == day_number(year, month, day) + 1,
        month == 4 || month == 6 || month == 9 || month == 11 ==> day_number(year, month + 1, 1)
            == day_number(year, month, 30) + 1,
        month == 1 || month == 3 || month == 5 || month == 7 || month == 8 || month == 10
            ==> day_number(year, month + 1, 1) == day_number(year, month, 31) + 1,
        month == 2 && year % 4 == 0 && (year % 100 != 0 || year % 400 == 0) ==> day_number(
            year,
            3,
            1,
        ) == day_number(year, 2, 29) + 1,
        month == 2 && !(year % 4 == 0 && (year % 100 != 0 || year % 400 == 0)) ==> day_number(
            year,
            3,
            1,
        ) == day_number(year, 2, 28) + 1,
        month == 12 ==> day_number(year + 1, 1, 1) == day_number(year, 12, 31) + 1,
        epoch_day() == day_number(1970, 1, 1),
{
    let q = year / 400;
    let r = year % 400;
    assert(year == 400 * q + r);
    assert(year % 4 == r % 4);
    assert(year % 100 == r % 100);
    if r > 0 {
        assert((year - 1) / 400 == q);
        assert((year - 1) % 400 == r - 1);
    } else {
        assert((year - 1) / 400 == q - 1);
        assert((year - 1) % 400 == 399);
    }
}

/// A number below a hundred takes two digits.
pub proof fn lemma_two_digits(n: nat)
    requires
        n < 100,
    ensures
        padded(n, 2).len() == 2,
        text::parse_dec(padded(n, 2), 99) == Some(n),
{
    reveal_with_fuel(text::dec, 3);
    reveal_with_fuel(text::value_of, 3);
    text::lemma_dec(n);
    text::law_dec_round_trip(n, 99);
    let s = padded(n, 2);
    if n < 10 {
        assert(text::dec(n).len() == 1);
        assert(s =~= seq!['0', text::digit_char(n)]);
        assert(s.subrange(0, 1) =~= seq!['0']);
        assert(seq!['0'].subrange(0, 0) =~= seq![]);
    } else {
        assert(text::dec(n).len() == 2);
    }
}

/// A date is written as its year, its month and its day, in this order, the last
/// two in two digits each.
pub proof fn law_date_is_year_month_day(year: nat, month: nat, day: nat)
    requires
        1000 <= year <= 9999,
        month <= 12,
        day <= 31,
    ensures
        ({
            let s = iso_text(year, month, day);
            &&& s.len() == 10
            &&& text::parse_dec(s.subrange(0, 4), 9999) == Some(year)
            &&& s[4] == '-'
            &&& text::parse_dec(s.subrange(5, 7), 99) == Some(month)
            &&& s[7] == '-'
            &&& text::parse_dec(s.subrange(8, 10), 99) == Some(day)
        }),
{
    reveal_strlit("-");
    lemma_two_digits(month);
    lemma_two_digits(day);
    text::law_dec_round_trip(year, 9999);
    assert(text::dec(year).len() == 4) by {
        reveal_with_fuel(text::dec, 5);
    }
    let s = iso_text(year, month, day);
    assert(s.subrange(0, 4) =~= text::dec(year));
    assert(s.subrange(5, 7) =~= padded(month, 2));
    assert(s.subrange(8, 10) =~= padded(day, 2));
}

} // verus!
