//! Calendar dates in UTC and the settable source of "today".
use chrono::Datelike;
use vstd::prelude::*;
use crate::text::{lemma_zero_padded_single_line, single_line, zero_padded};

verus! {

/// The earliest year that a date can have.
pub const MIN_YEAR: i32 = -262143;

/// The latest year that a date can have.
pub const MAX_YEAR: i32 = 262142;

/// Leap years of the proleptic Gregorian calendar (year 0 is 1 BCE).
pub open spec fn is_leap_year(y: int) -> bool {
    (y % 4 == 0 && y % 100 != 0) || y % 400 == 0
}

/// How many days month `m` of year `y` has.
pub open spec fn days_in_month(y: int, m: int) -> int {
    if m == 2 {
        if is_leap_year(y) {
            29
        } else {
            28
        }
    } else if m == 4 || m == 6 || m == 9 || m == 11 {
        30
    } else {
        31
    }
}

/// Whether `y`-`m`-`d` names a day of the calendar within the supported years.
pub open spec fn is_valid_ymd(y: int, m: int, d: int) -> bool {
    &&& MIN_YEAR <= y <= MAX_YEAR
    &&& 1 <= m <= 12
    &&& 1 <= d <= days_in_month(y, m)
}

proof fn lemma_divides_negation(y: int, k: int)
    requires
        k > 0,
    ensures
        (y % k == 0) == ((-y) % k == 0),
{
    vstd::arithmetic::div_mod::lemma_fundamental_div_mod(y, k);
    vstd::arithmetic::div_mod::lemma_fundamental_div_mod(-y, k);
    if y % k == 0 {
        let q = y / k;
        assert(-y == k * (-q)) by (nonlinear_arith)
            requires
                y == k * q + y % k,
                y % k == 0,
        ;
        vstd::arithmetic::div_mod::lemma_mod_multiples_basic(-q, k);
        assert((-q) * k == k * (-q)) by (nonlinear_arith);
    }
    if (-y) % k == 0 {
        let q = (-y) / k;
        assert(y == k * (-q)) by (nonlinear_arith)
            requires
                -y == k * q + (-y) % k,
                (-y) % k == 0,
        ;
        vstd::arithmetic::div_mod::lemma_mod_multiples_basic(-q, k);
        assert((-q) * k == k * (-q)) by (nonlinear_arith);
    }
}

fn leap_year(y: i32) -> (r: bool)
    ensures
        r == is_leap_year(y as int),
{
    let a: u32 = if y < 0 {
        (-(y as i64)) as u32
    } else {
        y as u32
    };
    proof {
        lemma_divides_negation(y as int, 4);
        lemma_divides_negation(y as int, 100);
        lemma_divides_negation(y as int, 400);
    }
    (a % 4 == 0 && a % 100 != 0) || a % 400 == 0
}

fn days_in(y: i32, m: u32) -> (r: u32)
    requires
        1 <= m <= 12,
    ensures
        r as int == days_in_month(y as int, m as int),
{
    if m == 2 {
        if leap_year(y) {
            29
        } else {
            28
        }
    } else if m == 4 || m == 6 || m == 9 || m == 11 {
        30
    } else {
        31
    }
}

/// A calendar day in UTC, with no time of day.
#[derive(Clone, Copy, Debug, PartialEq, Eq, Structural)]
pub struct UtcDate {
    year: i32,
    month: u32,
    day: u32,
}

impl UtcDate {
    #[verifier::type_invariant]
    spec fn inv(self) -> bool {
        is_valid_ymd(self.year as int, self.month as int, self.day as int)
    }

    pub closed spec fn year(self) -> int {
        self.year as int
    }

    pub closed spec fn month(self) -> int {
        self.month as int
    }

    pub closed spec fn day(self) -> int {
        self.day as int
    }

    /// The date `year`-`month`-`day`, or `None` where no such day exists
    /// (month out of 1..=12, day past the month's end, year out of range).
    pub fn from_ymd(year: i32, month: u32, day: u32) -> (r: Option<UtcDate>)
        ensures
            r is Some <==> is_valid_ymd(year as int, month as int, day as int),
            r matches Some(d) ==> d.year() == year && d.month() == month && d.day() == day,
    {
        if year < MIN_YEAR || year > MAX_YEAR || month < 1 || month > 12 || day < 1 {
            None
        } else if day > days_in(year, month) {
            None
        } else {
            Some(UtcDate { year, month, day })
        }
    }

    /// The ISO 8601 form followed by the zone, as in `2015-05-15UTC`.
    pub fn to_string(&self) -> (r: String)
        ensures
            r@ == iso_utc_text(*self),
    {
        chrono_iso_utc(*self)
    }
}

/// The year as four digits, with a sign in front outside 0..=9999.
pub open spec fn year_text(y: int) -> Seq<char> {
    if 0 <= y <= 9999 {
        zero_padded(y as nat, 4)
    } else if y < 0 {
        seq!['-'] + zero_padded((-y) as nat, 4)
    } else {
        seq!['+'] + zero_padded(y as nat, 4)
    }
}

/// `DD/MM/YYYY`, as in `10/01/2012`.
pub open spec fn dmy_text(d: UtcDate) -> Seq<char> {
    zero_padded(d.day() as nat, 2) + seq!['/'] + zero_padded(d.month() as nat, 2) + seq!['/']
        + year_text(d.year())
}

/// A date written as `DD/MM/YYYY` holds no newline.
pub proof fn lemma_dmy_single_line(d: UtcDate)
    ensures
        single_line(dmy_text(d)),
{
    lemma_zero_padded_single_line(d.day() as nat, 2);
    lemma_zero_padded_single_line(d.month() as nat, 2);
    let y = d.year();
    if 0 <= y <= 9999 {
        lemma_zero_padded_single_line(y as nat, 4);
    } else {
        lemma_zero_padded_single_line((if y < 0 { -y } else { y }) as nat, 4);
    }
}

/// `YYYY-MM-DD` followed by `UTC`, as in `2015-05-15UTC`.
pub open spec fn iso_utc_text(d: UtcDate) -> Seq<char> {
    year_text(d.year()) + seq!['-'] + zero_padded(d.month() as nat, 2) + seq!['-']
        + zero_padded(d.day() as nat, 2) + seq!['U', 'T', 'C']
}

/// Relies on chrono's `Utc::now`: the day of the system clock's present
/// moment in UTC, counted from the Unix epoch, so never before 1970; chrono
/// panics where that clock reads a time before 1970.
#[verifier::external_body]
fn chrono_today() -> (r: UtcDate)
    ensures
        r.year() >= 1970,
{
    let n = chrono::Utc::now().date_naive();
    UtcDate { year: n.year(), month: n.month(), day: n.day() }
}

/// Relies on chrono's `Date<Utc>::format` with the pattern `%d/%m/%Y`: day
/// and month as two digits, the year as four, signed outside 0..=9999.
#[verifier::external_body]
#[allow(deprecated)]
pub(crate) fn chrono_dmy(d: UtcDate) -> (r: String)
    ensures
        r@ == dmy_text(d),
{
    chrono::TimeZone::ymd(&chrono::Utc, d.year, d.month, d.day).format("%d/%m/%Y").to_string()
}

/// Relies on chrono's `Display` of `Date<Utc>`: the date as `%Y-%m-%d`,
/// then `UTC`, the display of the zone.
#[verifier::external_body]
#[allow(deprecated)]
fn chrono_iso_utc(d: UtcDate) -> (r: String)
    ensures
        r@ == iso_utc_text(d),
{
    chrono::TimeZone::ymd(&chrono::Utc, d.year, d.month, d.day).to_string()
}

/// The source of the current date: the day it was made, until it is set.
pub struct DateService {
    today: UtcDate,
}

impl DateService {
    pub closed spec fn today(&self) -> UtcDate {
        self.today
    }

    /// A service whose date is the system clock's day in UTC.
    pub fn new() -> (r: DateService)
        ensures
            r.today().year() >= 1970,
    {
        DateService::with_today(chrono_today())
    }

    /// A service whose date is `today`, until it is set.
    pub fn with_today(today: UtcDate) -> (r: DateService)
        ensures
            r.today() == today,
    {
        DateService { today }
    }

    /// Replaces the current date with `today`, whatever it was.
    pub fn set_today(&mut self, today: UtcDate)
        ensures
            final(self).today() == today,
    {
        self.today = today;
    }

    /// The current date.
    pub fn get(&self) -> (r: UtcDate)
        ensures
            r == self.today(),
    {
        self.today
    }
}

} // verus!
