//! Instants of UTC time and the calendar months they fall in.

use vstd::prelude::*;

verus! {

/// The first second that an instant can lie in: the start of the year -262143.
pub const FIRST_SECOND: i64 = -8_334_601_228_800;

/// The last second that an instant can lie in: the end of the year 262142.
pub const LAST_SECOND: i64 = 8_210_266_876_799;

/// Whether a count of seconds since 1970 and of nanoseconds name an instant. From a thousand
/// million nanoseconds on, an instant lies in a leap second, which only the last second of a minute
/// can be followed by.
pub open spec fn valid_instant(seconds: int, nanos: int) -> bool {
    &&& FIRST_SECOND <= seconds <= LAST_SECOND
    &&& 0 <= nanos < 2_000_000_000
    &&& nanos >= 1_000_000_000 ==> seconds % 60 == 59
}

/// An instant of UTC time.
#[derive(Clone, Copy, Debug, PartialEq, Eq, Structural)]
pub struct Timestamp {
    seconds: i64,
    nanos: u32,
}

impl View for Timestamp {
    type V = (i64, u32);

    closed spec fn view(&self) -> (i64, u32) {
        (self.seconds, self.nanos)
    }
}

/// Whether one instant lies before another.
pub open spec fn earlier(a: (i64, u32), b: (i64, u32)) -> bool {
    a.0 < b.0 || (a.0 == b.0 && a.1 < b.1)
}

impl Timestamp {
    #[verifier::type_invariant]
    spec fn in_range(self) -> bool {
        valid_instant(self.seconds as int, self.nanos as int)
    }

    /// The instant that lies `seconds` and `nanos` after the start of 1970, where there is one.
    pub fn new(seconds: i64, nanos: u32) -> (r: Option<Timestamp>)
        ensures
            match r {
                Some(t) => valid_instant(seconds as int, nanos as int) && t@ == (seconds, nanos),
                None => !valid_instant(seconds as int, nanos as int),
            },
    {
        if seconds < FIRST_SECOND || seconds > LAST_SECOND || nanos >= 2_000_000_000 {
            return None;
        }
        if nanos >= 1_000_000_000 {
            let shifted: u64 = (seconds - FIRST_SECOND) as u64;
            assert((-8_334_601_228_800int) % 60 == 0);
            assert(shifted as int % 60 == seconds as int % 60);
            if shifted % 60 != 59 {
                return None;
            }
        }
        Some(Timestamp { seconds, nanos })
    }

    /// Every instant counts seconds and nanoseconds within range.
    pub fn parts(&self) -> (r: (i64, u32))
        ensures
            r == self@,
            valid_instant(r.0 as int, r.1 as int),
    {
        proof {
            use_type_invariant(self);
        }
        (self.seconds, self.nanos)
    }

    /// Whether this instant lies before the other.
    pub fn is_before(&self, other: &Timestamp) -> (r: bool)
        ensures
            r == earlier(self@, other@),
    {
        self.seconds < other.seconds || (self.seconds == other.seconds && self.nanos < other.nanos)
    }

    /// Whether this is the same instant as the other.
    pub fn same(&self, other: &Timestamp) -> (r: bool)
        ensures
            r == (self@ == other@),
    {
        self.seconds == other.seconds && self.nanos == other.nanos
    }

    /// The UTC year and month that the instant falls in.
    pub fn year_month(&self) -> (r: (i32, u32))
        ensures
            r.0 == year_of(self@.0 as int),
            r.1 == month_of(self@.0 as int),
            in_month(self@.0 as int, r.0 as int, r.1 as int),
            -262_143 <= r.0 <= 262_142,
    {
        let (seconds, nanos) = self.parts();
        let r = utc_year_month(seconds, nanos);
        proof {
            one_month_holds_a_second(seconds as int, r.0 as int, r.1 as int);
        }
        r
    }

    /// The instant in RFC 3339 notation, in UTC with nine places of a second.
    pub fn rfc3339_nanos(&self) -> (r: String)
        ensures
            r@ == rfc3339_nanos(self@.0, self@.1),
            r@.len() > 0,
            forall|i: int| 0 <= i < r@.len() ==> rfc3339_char(#[trigger] r@[i]),
    {
        let (seconds, nanos) = self.parts();
        proof {
            rfc3339_nanos_is_in_notation(seconds, nanos);
        }
        utc_rfc3339_nanos(seconds, nanos)
    }

    /// The instant in RFC 3339 notation, in UTC with as many places of a second as it needs.
    pub fn rfc3339(&self) -> (r: String)
        ensures
            r@ == rfc3339_short(self@.0, self@.1),
    {
        let (seconds, nanos) = self.parts();
        utc_rfc3339(seconds, nanos)
    }
}

/// Whether a year has 366 days.
pub open spec fn leap_year(year: int) -> bool {
    (year % 4 == 0 && year % 100 != 0) || year % 400 == 0
}

/// The days of a year that lie before a month.
pub open spec fn days_before_month(year: int, month: int) -> int {
    let days: int = if month == 1 {
        0
    } else if month == 2 {
        31
    } else if month == 3 {
        59
    } else if month == 4 {
        90
    } else if month == 5 {
        120
    } else if month == 6 {
        151
    } else if month == 7 {
        181
    } else if month == 8 {
        212
    } else if month == 9 {
        243
    } else if month == 10 {
        273
    } else if month == 11 {
        304
    } else {
        334
    };
    if month > 2 && leap_year(year) {
        days + 1
    } else {
        days
    }
}

/// The leap days of the years from 1 up to, and without, `year`.
pub open spec fn leap_days_before(year: int) -> int {
    (year - 1) / 4 - (year - 1) / 100 + (year - 1) / 400
}

/// The second since 1970 with which a month of the Gregorian calendar starts.
pub open spec fn month_start(year: int, month: int) -> int {
    86_400 * (365 * (year - 1970) + leap_days_before(year) - leap_days_before(1970)
        + days_before_month(year, month))
}

/// The month after a month.
pub open spec fn next_month(year: int, month: int) -> (int, int) {
    if month == 12 {
        (year + 1, 1)
    } else {
        (year, month + 1)
    }
}

/// Whether a second falls in a month.
pub open spec fn in_month(second: int, year: int, month: int) -> bool {
    let next = next_month(year, month);
    1 <= month <= 12 && month_start(year, month) <= second < month_start(next.0, next.1)
}

/// Months counted in one row.
pub open spec fn month_number(year: int, month: int) -> int {
    12 * year + month - 1
}

/// The number, in one row of months, of the month that a second falls in.
pub open spec fn month_number_of(second: int) -> int {
    choose|n: int| #[trigger] in_month(second, n / 12, n % 12 + 1)
}

/// The UTC year that a second falls in.
pub open spec fn year_of(second: int) -> int {
    month_number_of(second) / 12
}

/// The UTC month, from 1 to 12, that a second falls in.
pub open spec fn month_of(second: int) -> int {
    month_number_of(second) % 12 + 1
}

/// Each month starts before the next.
pub proof fn months_have_days(year: int, month: int)
    requires
        1 <= month <= 12,
    ensures
        month_start(year, month) < month_start(
            next_month(year, month).0,
            next_month(year, month).1,
        ),
{
    if month == 12 {
        assert(leap_days_before(year + 1) >= leap_days_before(year));
        assert(days_before_month(year + 1, 1) == 0);
        assert(month_start(year, 12) <= 86_400 * (365 * (year - 1970) + leap_days_before(year)
            - leap_days_before(1970) + 335));
        assert(365 * (year + 1 - 1970) == 365 * (year - 1970) + 365);
    }
}

/// A later month starts no earlier.
pub proof fn months_in_order(year: int, month: int, later_year: int, later_month: int)
    requires
        1 <= month <= 12,
        1 <= later_month <= 12,
        month_number(year, month) <= month_number(later_year, later_month),
    ensures
        month_start(year, month) <= month_start(later_year, later_month),
    decreases month_number(later_year, later_month) - month_number(year, month),
{
    if month_number(year, month) < month_number(later_year, later_month) {
        let next = next_month(year, month);
        months_have_days(year, month);
        months_in_order(next.0, next.1, later_year, later_month);
    }
}

/// Instants fall in months in order; in particular an instant falls in one month only.
pub proof fn month_of_later_instant(
    second: int,
    year: int,
    month: int,
    later: int,
    later_year: int,
    later_month: int,
)
    requires
        in_month(second, year, month),
        in_month(later, later_year, later_month),
        second <= later,
    ensures
        month_number(year, month) <= month_number(later_year, later_month),
        second == later ==> year == later_year && month == later_month,
{
    if month_number(later_year, later_month) < month_number(year, month) {
        let next = next_month(later_year, later_month);
        months_in_order(next.0, next.1, year, month);
    }
    if second == later && month_number(year, month) < month_number(later_year, later_month) {
        let next = next_month(year, month);
        months_in_order(next.0, next.1, later_year, later_month);
    }
}

/// The month that holds a second is the month of that second.
pub proof fn one_month_holds_a_second(second: int, year: int, month: int)
    requires
        in_month(second, year, month),
    ensures
        year == year_of(second),
        month == month_of(second),
        month_number(year, month) == month_number_of(second),
{
    let n = month_number(year, month);
    assert(n / 12 == year && n % 12 + 1 == month);
    assert(in_month(second, n / 12, n % 12 + 1));
    let m = month_number_of(second);
    assert(in_month(second, m / 12, m % 12 + 1));
    month_of_later_instant(second, year, month, second, m / 12, m % 12 + 1);
}

proof fn month_from(second: int, n: int) -> (found: int)
    requires
        month_start(n / 12, n % 12 + 1) <= second,
    ensures
        n <= found,
        in_month(second, found / 12, found % 12 + 1),
    decreases second - month_start(n / 12, n % 12 + 1),
{
    let next = next_month(n / 12, n % 12 + 1);
    months_have_days(n / 12, n % 12 + 1);
    assert(next == ((n + 1) / 12, (n + 1) % 12 + 1));
    if second < month_start(next.0, next.1) {
        n
    } else {
        month_from(second, n + 1)
    }
}

/// Every second of the representable range falls in its month, in a representable year.
pub proof fn every_second_has_a_month(second: int)
    requires
        FIRST_SECOND <= second <= LAST_SECOND,
    ensures
        in_month(second, year_of(second), month_of(second)),
        -262_143 <= year_of(second) <= 262_142,
{
    let first = 12 * (-262_143int);
    assert(first / 12 == -262_143 && first % 12 == 0);
    assert(month_start(-262_143, 1) == FIRST_SECOND);
    assert(month_start(262_143, 1) == LAST_SECOND + 1);
    let n = month_from(second, first);
    one_month_holds_a_second(second, n / 12, n % 12 + 1);
    if n >= 12 * 262_143 {
        months_in_order(262_143, 1, n / 12, n % 12 + 1);
    }
}

/// The characters of the RFC 3339 notation.
pub open spec fn rfc3339_char(c: char) -> bool {
    ('0' <= c && c <= '9') || c == '+' || c == '-' || c == ':' || c == '.' || c == 'T' || c == 'Z'
}

/// The day of its month that a second falls on, counted from one.
pub open spec fn day_of(second: int) -> int {
    (second - month_start(year_of(second), month_of(second))) / 86_400 + 1
}

/// A year in RFC 3339 notation: four digits, with a sign in front where those do not hold it.
pub open spec fn year_text(year: int) -> Seq<char> {
    if 0 <= year <= 9999 {
        crate::text::padded(year as nat, 4)
    } else if year < 0 {
        seq!['-'] + crate::text::padded((-year) as nat, 4)
    } else {
        seq!['+'] + crate::text::padded(year as nat, 4)
    }
}

/// The date of a second in RFC 3339 notation.
pub open spec fn date_text(second: int) -> Seq<char> {
    year_text(year_of(second)) + seq!['-'] + crate::text::padded(month_of(second) as nat, 2) + seq![
        '-',
    ] + crate::text::padded(day_of(second) as nat, 2)
}

/// The time of day of an instant in RFC 3339 notation, to whole seconds. A leap second is the
/// sixty-first of its minute.
pub open spec fn clock_text(second: int, nanos: int) -> Seq<char> {
    let leap: int = if nanos >= 1_000_000_000 {
        1
    } else {
        0
    };
    crate::text::padded((second % 86_400 / 3_600) as nat, 2) + seq![':'] + crate::text::padded(
        (second % 3_600 / 60) as nat,
        2,
    ) + seq![':'] + crate::text::padded((second % 60 + leap) as nat, 2)
}

/// The fraction of a second with three, six or nine places, the fewest that hold it, and nothing
/// for a whole second.
pub open spec fn fraction_text(nanos: nat) -> Seq<char> {
    if nanos == 0 {
        seq![]
    } else if nanos % 1_000_000 == 0 {
        seq!['.'] + crate::text::padded(nanos / 1_000_000, 3)
    } else if nanos % 1_000 == 0 {
        seq!['.'] + crate::text::padded(nanos / 1_000, 6)
    } else {
        seq!['.'] + crate::text::padded(nanos, 9)
    }
}

/// An instant of UTC in RFC 3339 notation, with nine places of a second and a final `Z`.
pub open spec fn rfc3339_nanos(seconds: i64, nanos: u32) -> Seq<char> {
    date_text(seconds as int) + seq!['T'] + clock_text(seconds as int, nanos as int) + seq!['.']
        + crate::text::padded((nanos as int % 1_000_000_000) as nat, 9) + seq!['Z']
}

/// An instant of UTC in RFC 3339 notation, with as many places of a second as it needs and the
/// offset written out.
pub open spec fn rfc3339_short(seconds: i64, nanos: u32) -> Seq<char> {
    date_text(seconds as int) + seq!['T'] + clock_text(seconds as int, nanos as int)
        + fraction_text((nanos as int % 1_000_000_000) as nat) + seq!['+', '0', '0', ':', '0', '0']
}

/// Whether a text is made of the characters of the RFC 3339 notation.
pub open spec fn in_notation(s: Seq<char>) -> bool {
    forall|i: int| 0 <= i < s.len() ==> rfc3339_char(#[trigger] s[i])
}

proof fn decimal_is_in_notation(n: nat)
    ensures
        in_notation(crate::text::decimal(n)),
    decreases n,
{
    if n >= 10 {
        decimal_is_in_notation(n / 10);
    }
}

proof fn padded_is_in_notation(n: nat, width: nat)
    ensures
        in_notation(crate::text::padded(n, width)),
{
    decimal_is_in_notation(n);
}

/// An instant in RFC 3339 notation is not empty, and made of digits and the signs of the notation.
pub proof fn rfc3339_nanos_is_in_notation(seconds: i64, nanos: u32)
    ensures
        rfc3339_nanos(seconds, nanos).len() > 0,
        in_notation(rfc3339_nanos(seconds, nanos)),
{
    let second = seconds as int;
    let year = year_of(second);
    padded_is_in_notation(year as nat, 4);
    padded_is_in_notation((-year) as nat, 4);
    assert(in_notation(year_text(year)));
    padded_is_in_notation(month_of(second) as nat, 2);
    padded_is_in_notation(day_of(second) as nat, 2);
    assert(in_notation(date_text(second)));
    padded_is_in_notation((second % 86_400 / 3_600) as nat, 2);
    padded_is_in_notation((second % 3_600 / 60) as nat, 2);
    padded_is_in_notation((second % 60) as nat, 2);
    padded_is_in_notation((second % 60 + 1) as nat, 2);
    assert(in_notation(clock_text(second, nanos as int)));
    padded_is_in_notation((nanos as int % 1_000_000_000) as nat, 9);
}

/// The year and the month that `chrono` gives for an instant of UTC (`Datelike::year` and
/// `Datelike::month` of a `DateTime<Utc>` made by `DateTime::from_timestamp`, which is `Some` for
/// every valid instant). The contract claims that they name the Gregorian month that the instant
/// falls in, which lies in the range of years that `chrono` represents.
#[verifier::external_body]
fn utc_year_month(seconds: i64, nanos: u32) -> (r: (i32, u32))
    requires
        valid_instant(seconds as int, nanos as int),
    ensures
        in_month(seconds as int, r.0 as int, r.1 as int),
        -262_143 <= r.0 <= 262_142,
{
    let date = chrono::DateTime::<chrono::Utc>::from_timestamp(seconds, nanos).unwrap();
    (chrono::Datelike::year(&date), chrono::Datelike::month(&date))
}

/// Writes an instant of UTC with `DateTime::to_rfc3339_opts`, with `SecondsFormat::Nanos` and `Z`.
/// The contract claims that the text is the date, `T`, the time of day, nine places of the second
/// and `Z`.
#[verifier::external_body]
fn utc_rfc3339_nanos(seconds: i64, nanos: u32) -> (r: String)
    requires
        valid_instant(seconds as int, nanos as int),
    ensures
        r@ == rfc3339_nanos(seconds, nanos),
{
    let date = chrono::DateTime::<chrono::Utc>::from_timestamp(seconds, nanos).unwrap();
    date.to_rfc3339_opts(chrono::SecondsFormat::Nanos, true)
}

/// Writes an instant of UTC with `DateTime::to_rfc3339`. The contract claims that the text is the
/// date, `T`, the time of day, the places of the second that are needed and the offset `+00:00`.
#[verifier::external_body]
fn utc_rfc3339(seconds: i64, nanos: u32) -> (r: String)
    requires
        valid_instant(seconds as int, nanos as int),
    ensures
        r@ == rfc3339_short(seconds, nanos),
{
    let date = chrono::DateTime::<chrono::Utc>::from_timestamp(seconds, nanos).unwrap();
    date.to_rfc3339()
}

} // verus!
