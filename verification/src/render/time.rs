//! How a timestamp is shown: a coarse relative age inside two weeks, the
//! commit's own date beyond it, and the full `YYYY-MM-DD HH:MM:SS ±HH:MM` on
//! the pages that show one timestamp rather than a column of them.

use vstd::prelude::*;
use crate::number;
use crate::number::decimal_text;

verus! {

/// A day in the Gregorian calendar.
#[derive(Clone, Copy, PartialEq, Eq, Structural, Debug)]
pub struct CivilDate {
    pub year: i16,
    pub month: i8,
    pub day: i8,
}

pub open spec fn leap_year(year: int) -> bool {
    year % 4 == 0 && (year % 100 != 0 || year % 400 == 0)
}

pub open spec fn days_in_month(year: int, month: int) -> int {
    if month == 2 {
        if leap_year(year) {
            29
        } else {
            28
        }
    } else if month == 4 || month == 6 || month == 9 || month == 11 {
        30
    } else {
        31
    }
}

impl CivilDate {
    /// A day that the calendar has, in the years that dates are kept for.
    pub open spec fn wf(self) -> bool {
        &&& -9999 <= self.year <= 9999
        &&& 1 <= self.month <= 12
        &&& 1 <= self.day <= days_in_month(self.year as int, self.month as int)
    }
}

/// A moment as a commit or tag records it: an instant, and the wall clock in
/// its own timezone.
#[derive(Clone, Copy, PartialEq, Eq, Structural, Debug)]
pub struct Moment {
    /// Milliseconds since the Unix epoch.
    pub unix_ms: i64,
    pub date: CivilDate,
    pub hour: i8,
    pub minute: i8,
    pub second: i8,
    /// The timezone: seconds east of UTC.
    pub offset_seconds: i32,
}

impl Moment {
    /// A wall clock and a timezone that there are.
    pub open spec fn wf(self) -> bool {
        &&& self.date.wf()
        &&& 0 <= self.hour <= 23
        &&& 0 <= self.minute <= 59
        &&& 0 <= self.second <= 59
        &&& -93599 <= self.offset_seconds <= 93599
    }
}

/// `n` in at least two digits.
pub open spec fn two_digits(n: int) -> Seq<char> {
    if n < 10 {
        "0"@ + number::decimal(n as nat)
    } else {
        number::decimal(n as nat)
    }
}

/// `n` in at least four digits.
pub open spec fn four_digits(n: int) -> Seq<char> {
    if n < 10 {
        "000"@ + number::decimal(n as nat)
    } else if n < 100 {
        "00"@ + number::decimal(n as nat)
    } else if n < 1000 {
        "0"@ + number::decimal(n as nat)
    } else {
        number::decimal(n as nat)
    }
}

/// A day as ISO 8601 writes it: `YYYY-MM-DD`, and six digits behind a sign for
/// a year before zero.
pub open spec fn date_iso(year: int, month: int, day: int) -> Seq<char> {
    (if year < 0 {
        "-00"@ + four_digits(-year)
    } else {
        four_digits(year)
    }) + "-"@ + two_digits(month) + "-"@ + two_digits(day)
}

/// A time of day as ISO 8601 writes it.
pub open spec fn time_iso(hour: int, minute: int, second: int) -> Seq<char> {
    two_digits(hour) + ":"@ + two_digits(minute) + ":"@ + two_digits(second)
}

/// `jiff::civil::Date`, displayed: the day as ISO 8601 writes it.
#[verifier::external_body]
fn jiff_date_text(year: i16, month: i8, day: i8) -> (r: String)
    requires
        (CivilDate { year, month, day }).wf(),
    ensures
        r@ == date_iso(year as int, month as int, day as int),
{
    jiff::civil::date(year, month, day).to_string()
}

/// `jiff::civil::Time`, displayed: the time of day as ISO 8601 writes it, with
/// no fraction where the seconds are whole.
#[verifier::external_body]
fn jiff_time_text(hour: i8, minute: i8, second: i8) -> (r: String)
    requires
        0 <= hour <= 23,
        0 <= minute <= 59,
        0 <= second <= 59,
    ensures
        r@ == time_iso(hour as int, minute as int, second as int),
{
    jiff::civil::time(hour, minute, second, 0).to_string()
}

/// How many whole seconds ago a moment was; none for one still to come.
pub fn age(now_ms: i64, then_ms: i64) -> (r: u64)
    ensures
        r == (if now_ms >= then_ms {
            (now_ms - then_ms) / 1000
        } else {
            0
        }),
{
    if now_ms < then_ms {
        return 0;
    }
    let elapsed: i128 = (now_ms as i128) - (then_ms as i128);
    (elapsed / 1000) as u64
}

/// A commit or ref timestamp that keeps both representations: the elapsed
/// seconds (for sorting by recency and choosing a format) and the calendar date
/// in the commit's own timezone.
#[derive(Clone, Copy, PartialEq, Eq, Structural, Debug)]
pub struct Age {
    pub secs: u64,
    pub when: CivilDate,
}

impl Age {
    /// The age of a moment, now.
    pub fn new(when: &Moment, now_ms: i64) -> (r: Self)
        ensures
            r.secs == (if now_ms >= when.unix_ms {
                (now_ms - when.unix_ms) / 1000
            } else {
                0
            }),
            r.when == when.date,
    {
        Age { secs: age(now_ms, when.unix_ms), when: when.date }
    }

    /// Elapsed seconds, the sort key (smaller is more recent).
    pub fn secs(&self) -> (r: u64)
        ensures
            r == self.secs,
    {
        self.secs
    }

    /// The rendered age: a coarse relative bucket within two weeks, else an
    /// absolute date.
    pub fn display(&self) -> (r: String)
        requires
            self.when.wf(),
        ensures
            r@ == age_text(self.secs as nat, self.when),
    {
        format_age(self.secs, self.when)
    }
}

/// `<n> <unit>`, with the unit pluralised unless `n` is exactly 1.
pub open spec fn counted(n: nat, unit: Seq<char>) -> Seq<char> {
    if n == 1 {
        number::decimal(n) + " "@ + unit
    } else {
        number::decimal(n) + " "@ + unit + "s"@
    }
}

/// How old something reads.
pub open spec fn age_text(secs: nat, date: CivilDate) -> Seq<char> {
    if secs < 90 {
        counted(secs, "second"@)
    } else if secs < 90 * 60 {
        counted(secs / 60, "minute"@)
    } else if secs < 36 * 3600 {
        counted(secs / 3600, "hour"@)
    } else if secs < 14 * 86400 {
        counted(secs / 86400, "day"@)
    } else {
        date_iso(date.year as int, date.month as int, date.day as int)
    }
}

/// The display rule.
pub fn format_age(secs: u64, date: CivilDate) -> (r: String)
    requires
        date.wf(),
    ensures
        r@ == age_text(secs as nat, date),
{
    if secs < 90 {
        plural(secs, "second")
    } else if secs < 90 * 60 {
        plural(secs / 60, "minute")
    } else if secs < 36 * 3600 {
        plural(secs / 3600, "hour")
    } else if secs < 14 * 86400 {
        plural(secs / 86400, "day")
    } else {
        jiff_date_text(date.year, date.month, date.day)
    }
}

/// A moment as `YYYY-MM-DD HH:MM:SS ±HH:MM`.
pub open spec fn moment_text(dt: Moment) -> Seq<char> {
    let total = dt.offset_seconds as int;
    let east = if total < 0 {
        -total
    } else {
        total
    };
    date_iso(dt.date.year as int, dt.date.month as int, dt.date.day as int) + " "@ + time_iso(
        dt.hour as int,
        dt.minute as int,
        dt.second as int,
    ) + (if total < 0 {
        " -"@
    } else {
        " +"@
    }) + two_digits(east / 3600) + ":"@ + two_digits((east % 3600) / 60)
}

fn push_two_digits(out: &mut String, n: u64)
    ensures
        final(out)@ == old(out)@ + two_digits(n as int),
{
    if n < 10 {
        out.append("0");
    }
    out.append(decimal_text(n).as_str());
    assert(out@ =~= old(out)@ + two_digits(n as int));
}

/// A timestamp rendered as `YYYY-MM-DD HH:MM:SS ±HH:MM` in its own timezone,
/// for the commit and tag metadata tables.
pub fn format_datetime(dt: &Moment) -> (r: String)
    requires
        dt.wf(),
    ensures
        r@ == moment_text(*dt),
{
    let total: i32 = dt.offset_seconds;
    let east: u64 = if total < 0 {
        (-total) as u64
    } else {
        total as u64
    };
    let mut out: String = jiff_date_text(dt.date.year, dt.date.month, dt.date.day);
    out.append(" ");
    out.append(jiff_time_text(dt.hour, dt.minute, dt.second).as_str());
    out.append(
        if total < 0 {
            " -"
        } else {
            " +"
        },
    );
    push_two_digits(&mut out, east / 3600);
    out.append(":");
    push_two_digits(&mut out, (east % 3600) / 60);
    out
}

/// `<n> <unit>`, with the unit pluralised unless `n` is exactly 1.
pub fn plural(n: u64, unit: &str) -> (r: String)
    ensures
        r@ == counted(n as nat, unit@),
{
    let mut out: String = decimal_text(n);
    out.append(" ");
    out.append(unit);
    if n != 1 {
        out.append("s");
    }
    out
}

/// Two digits and four digits are as many as they say, and say the number.
pub proof fn digits_are_padded_with_zeros(n: int)
    requires
        0 <= n <= 9999,
    ensures
        n <= 99 ==> two_digits(n).len() == 2,
        four_digits(n).len() == 4,
        number::all_digits(four_digits(n)),
        number::all_digits(two_digits(n)),
        number::digits_value(four_digits(n)) == n,
        number::digits_value(two_digits(n)) == n,
{
    reveal_strlit("0");
    reveal_strlit("00");
    reveal_strlit("000");
    reveal_with_fuel(number::decimal, 5);
    let d = number::decimal(n as nat);
    number::lemma_decimal(n as nat);
    lemma_zeros("0"@, d);
    lemma_zeros("00"@, d);
    lemma_zeros("000"@, d);
    assert(n / 10 / 10 == n / 100) by (nonlinear_arith);
    assert(n / 100 / 10 == n / 1000) by (nonlinear_arith);
}

proof fn lemma_zeros(zeros: Seq<char>, d: Seq<char>)
    requires
        forall|i: int| 0 <= i < zeros.len() ==> zeros[i] == '0',
        number::all_digits(d),
    ensures
        number::all_digits(zeros + d),
        number::digits_value(zeros + d) == number::digits_value(d),
    decreases d.len(),
{
    let s = zeros + d;
    assert forall|i: int| 0 <= i < s.len() implies number::is_digit(#[trigger] s[i]) by {
        if i >= zeros.len() {
            assert(s[i] == d[i - zeros.len()]);
        }
    }
    if d.len() > 0 {
        assert(s.drop_last() =~= zeros + d.drop_last());
        assert(s.last() == d.last());
        assert forall|i: int| 0 <= i < d.drop_last().len() implies number::is_digit(
            #[trigger] d.drop_last()[i],
        ) by {
            assert(d.drop_last()[i] == d[i]);
        }
        lemma_zeros(zeros, d.drop_last());
    } else {
        assert(s =~= zeros);
        lemma_only_zeros(zeros);
    }
}

proof fn lemma_only_zeros(zeros: Seq<char>)
    requires
        forall|i: int| 0 <= i < zeros.len() ==> zeros[i] == '0',
    ensures
        number::digits_value(zeros) == 0,
    decreases zeros.len(),
{
    if zeros.len() > 0 {
        lemma_only_zeros(zeros.drop_last());
    }
}

/// An age is told in seconds below a minute and a half, in minutes below an hour
/// and a half, in hours below a day and a half and in days below two weeks,
/// always the whole ones; what is older is told by its date alone.
pub proof fn ages_are_told_in_whole_units(n: nat, rest: nat, date: CivilDate, other: nat)
    ensures
        n <= 89 && n != 1 ==> age_text(n, date) == number::decimal(n) + " seconds"@,
        n == 1 ==> age_text(n, date) == "1 second"@,
        rest < 60 && 90 <= 60 * n + rest < 5400 && n != 1 ==> age_text(60 * n + rest, date)
            == number::decimal(n) + " minutes"@,
        rest < 60 && 90 <= 60 * n + rest && n == 1 ==> age_text(60 * n + rest, date)
            == "1 minute"@,
        rest < 3600 && 5400 <= 3600 * n + rest < 129600 && n != 1 ==> age_text(
            3600 * n + rest,
            date,
        ) == number::decimal(n) + " hours"@,
        rest < 3600 && 5400 <= 3600 * n + rest && n == 1 ==> age_text(3600 * n + rest, date)
            == "1 hour"@,
        rest < 86400 && 129600 <= 86400 * n + rest < 1209600 && n != 1 ==> age_text(
            86400 * n + rest,
            date,
        ) == number::decimal(n) + " days"@,
        rest < 86400 && 129600 <= 86400 * n + rest && n == 1 ==> age_text(86400 * n + rest, date)
            == "1 day"@,
        n >= 1209600 && other >= 1209600 ==> age_text(n, date) == age_text(other, date),
        n >= 1209600 ==> age_text(n, date) == date_iso(
            date.year as int,
            date.month as int,
            date.day as int,
        ),
{
    reveal_strlit(" ");
    reveal_strlit("s");
    reveal_strlit("second");
    reveal_strlit(" seconds");
    reveal_strlit("minute");
    reveal_strlit(" minutes");
    reveal_strlit("hour");
    reveal_strlit(" hours");
    reveal_strlit("day");
    reveal_strlit(" days");
    reveal_strlit("1 second");
    reveal_strlit("1 minute");
    reveal_strlit("1 hour");
    reveal_strlit("1 day");
    let d = number::decimal(n);
    assert(d + " "@ + "second"@ + "s"@ =~= d + " seconds"@);
    assert(d + " "@ + "minute"@ + "s"@ =~= d + " minutes"@);
    assert(d + " "@ + "hour"@ + "s"@ =~= d + " hours"@);
    assert(d + " "@ + "day"@ + "s"@ =~= d + " days"@);
    let one = number::decimal(1);
    assert(one =~= seq!['1']);
    assert(one + " "@ + "second"@ =~= "1 second"@);
    assert(one + " "@ + "minute"@ =~= "1 minute"@);
    assert(one + " "@ + "hour"@ =~= "1 hour"@);
    assert(one + " "@ + "day"@ =~= "1 day"@);
    if rest < 60 {
        assert((60 * n + rest) / 60 == n);
    }
    if rest < 3600 {
        assert((3600 * n + rest) / 3600 == n);
    }
    if rest < 86400 {
        assert((86400 * n + rest) / 86400 == n);
    }
}

/// A moment is its date, its time of day and how far its clock is from UTC, each
/// where it is looked for: nineteen characters in, behind a blank, the sign.
pub proof fn moments_are_dates_times_and_offsets(dt: Moment)
    requires
        dt.wf(),
        dt.date.year >= 0,
    ensures
        ({
            let t = moment_text(dt);
            let ahead = if dt.offset_seconds < 0 {
                -(dt.offset_seconds as int)
            } else {
                dt.offset_seconds as int
            };
            &&& t.len() == 26
            &&& number::digits_value(t.subrange(0, 4)) == dt.date.year
            &&& number::digits_value(t.subrange(5, 7)) == dt.date.month
            &&& number::digits_value(t.subrange(8, 10)) == dt.date.day
            &&& number::digits_value(t.subrange(11, 13)) == dt.hour
            &&& number::digits_value(t.subrange(14, 16)) == dt.minute
            &&& number::digits_value(t.subrange(17, 19)) == dt.second
            &&& t[20] == (if dt.offset_seconds < 0 {
                '-'
            } else {
                '+'
            })
            &&& 0 <= ahead - 3600 * number::digits_value(t.subrange(21, 23)) - 60
                * number::digits_value(t.subrange(24, 26)) < 60
            &&& number::digits_value(t.subrange(24, 26)) < 60
            &&& t[4] == '-' && t[7] == '-' && t[10] == ' ' && t[13] == ':' && t[16] == ':' && t[19]
                == ' ' && t[23] == ':'
        }),
{
    let ahead = if dt.offset_seconds < 0 {
        -(dt.offset_seconds as int)
    } else {
        dt.offset_seconds as int
    };
    digits_are_padded_with_zeros(dt.date.year as int);
    digits_are_padded_with_zeros(dt.date.month as int);
    digits_are_padded_with_zeros(dt.date.day as int);
    digits_are_padded_with_zeros(dt.hour as int);
    digits_are_padded_with_zeros(dt.minute as int);
    digits_are_padded_with_zeros(dt.second as int);
    digits_are_padded_with_zeros(ahead / 3600);
    digits_are_padded_with_zeros((ahead % 3600) / 60);
    reveal_strlit("-");
    reveal_strlit(":");
    reveal_strlit(" ");
    reveal_strlit(" -");
    reveal_strlit(" +");
    let t = moment_text(dt);
    assert(t.subrange(0, 4) =~= four_digits(dt.date.year as int));
    assert(t.subrange(5, 7) =~= two_digits(dt.date.month as int));
    assert(t.subrange(8, 10) =~= two_digits(dt.date.day as int));
    assert(t.subrange(11, 13) =~= two_digits(dt.hour as int));
    assert(t.subrange(14, 16) =~= two_digits(dt.minute as int));
    assert(t.subrange(17, 19) =~= two_digits(dt.second as int));
    assert(t.subrange(21, 23) =~= two_digits(ahead / 3600));
    assert(t.subrange(24, 26) =~= two_digits((ahead % 3600) / 60));
}

/// A year has 366 days where four divides it, but for the centuries, of which
/// only every fourth has, and 365 else.
pub proof fn years_have_their_days(year: int)
    ensures
        ({
            let days = days_in_month(year, 1) + days_in_month(year, 2) + days_in_month(year, 3)
                + days_in_month(year, 4) + days_in_month(year, 5) + days_in_month(year, 6)
                + days_in_month(year, 7) + days_in_month(year, 8) + days_in_month(year, 9)
                + days_in_month(year, 10) + days_in_month(year, 11) + days_in_month(year, 12);
            &&& year % 400 == 0 ==> days == 366
            &&& year % 100 == 0 && year % 400 != 0 ==> days == 365
            &&& year % 4 == 0 && year % 100 != 0 ==> days == 366
            &&& year % 4 != 0 ==> days == 365
        }),
        forall|month: int|
            1 <= month <= 12 && month != 2 ==> 30 <= #[trigger] days_in_month(year, month) <= 31,
{
}

} // verus!
