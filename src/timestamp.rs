//! Rendering of nanosecond Unix timestamps as text, with calendar arithmetic
//! of its own: Gregorian leap years, month lengths and day counting from
//! 1970-01-01.
use vstd::prelude::*;
use vstd::string::*;

verus! {

/// The longest text, in characters, that [`format`] produces.
pub const MAX_BUF_SIZE: usize = 64;

/// Whether `year` is a Gregorian leap year.
pub open spec fn spec_is_leap_year(year: int) -> bool {
    (year % 4 == 0 && year % 100 != 0) || year % 400 == 0
}

/// The number of days in `year`.
pub open spec fn year_len(year: int) -> nat {
    if spec_is_leap_year(year) {
        366
    } else {
        365
    }
}

/// The number of days in `month` (1 to 12) of `year`.
pub open spec fn spec_days_in_month(year: int, month: int) -> nat {
    if month == 2 {
        if spec_is_leap_year(year) {
            29
        } else {
            28
        }
    } else if month == 4 || month == 6 || month == 9 || month == 11 {
        30
    } else {
        31
    }
}

/// The days of `year` from the first of `month` to the end of the year.
pub open spec fn days_left_in_year(year: int, month: int) -> nat
    decreases 13 - month,
{
    if month > 12 || month < 1 {
        0
    } else {
        spec_days_in_month(year, month) + days_left_in_year(year, month + 1)
    }
}

/// Counting `days` whole years on from the start of `year`: the year reached
/// and the days left over in it.
pub open spec fn split_years(year: int, days: nat) -> (int, nat)
    decreases days,
{
    if days >= year_len(year) {
        split_years(year + 1, (days - year_len(year)) as nat)
    } else {
        (year, days)
    }
}

/// Counting `days` whole months on from the first of `month` in `year`,
/// never past December: the month reached and the days left over in it.
pub open spec fn split_months(year: int, month: int, days: nat) -> (int, nat)
    decreases days,
{
    if month < 12 && days >= spec_days_in_month(year, month) && spec_days_in_month(year, month)
        > 0 {
        split_months(year, month + 1, (days - spec_days_in_month(year, month)) as nat)
    } else {
        (month, days)
    }
}

/// The calendar date (year, month, day; month and day counted from 1) that
/// lies `days` days after 1970-01-01.
pub open spec fn date_of(days: nat) -> (int, int, int) {
    let (year, rest) = split_years(1970, days);
    let (month, day_index) = split_months(year, 1, rest);
    (year, month, day_index + 1int)
}

/// The number of days from the first of January of `from` to the first of
/// January of `to`.
pub open spec fn days_between(from: int, to: int) -> nat
    decreases to - from,
{
    if to <= from {
        0
    } else {
        year_len(from) + days_between(from + 1, to)
    }
}

/// The quotient and the remainder of `x` divided by `y`.
pub fn div_rem(x: u64, y: u64) -> (r: (u64, u64))
    requires
        y > 0,
    ensures
        r.0 == x / y,
        r.1 == x % y,
{
    (x / y, x % y)
}

/// Whether `year` is a leap year: divisible by 4 and not by 100, or
/// divisible by 400.
pub fn is_leap_year(year: u64) -> (r: bool)
    ensures
        r == spec_is_leap_year(year as int),
{
    (year % 4 == 0 && year % 100 != 0) || year % 400 == 0
}

/// The number of days in `month` of `year`.
pub fn days_in_month(year: u64, month: u8) -> (r: u64)
    requires
        1 <= month <= 12,
    ensures
        r == spec_days_in_month(year as int, month as int),
{
    match month {
        1 | 3 | 5 | 7 | 8 | 10 | 12 => 31,
        4 | 6 | 9 | 11 => 30,
        _ => if is_leap_year(year) {
            29
        } else {
            28
        },
    }
}

proof fn lemma_year_is_its_months(year: int)
    ensures
        days_left_in_year(year, 1) == year_len(year),
{
    reveal_with_fuel(days_left_in_year, 13);
}

/// The date `days` days after 1970-01-01, as year, month (1 to 12) and day
/// of the month (1 to the month's length).
pub fn get_date(days: u64) -> (r: (u64, u8, u8))
    ensures
        (r.0 as int, r.1 as int, r.2 as int) == date_of(days as nat),
        1 <= r.1 <= 12,
        1 <= r.2 <= spec_days_in_month(r.0 as int, r.1 as int),
{
    let mut year: u64 = 1970;
    let mut ds: u64 = days;
    while ds >= 365
        invariant
            1970 <= year,
            (year - 1970) * 365 <= days - ds,
            ds <= days,
            split_years(year as int, ds as nat) == split_years(1970, days as nat),
        ensures
            ds < year_len(year as int),
        decreases ds,
    {
        if is_leap_year(year) {
            if ds >= 366 {
                ds -= 366;
                year += 1;
            } else {
                break;
            }
        } else {
            ds -= 365;
            year += 1;
        }
    }
    assert(split_years(year as int, ds as nat) == (year as int, ds as nat));
    proof {
        lemma_year_is_its_months(year as int);
    }
    let mut month: u8 = 1;
    while ds >= 28
        invariant
            1 <= month <= 12,
            ds < days_left_in_year(year as int, month as int),
            split_years(1970, days as nat).0 == year,
            split_months(year as int, month as int, ds as nat) == split_months(
                year as int,
                1,
                split_years(1970, days as nat).1,
            ),
        ensures
            ds < spec_days_in_month(year as int, month as int),
        decreases ds,
    {
        let dim = days_in_month(year, month);
        if ds >= dim {
            assert(month < 12) by {
                if month == 12 {
                    reveal_with_fuel(days_left_in_year, 2);
                }
            }
            ds -= dim;
            month += 1;
        } else {
            break;
        }
    }
    let day: u8 = (ds + 1) as u8;
    (year, month, day)
}

/// The decimal digit for `d` (0 to 9).
pub open spec fn digit_char(d: int) -> char {
    if d == 0 {
        '0'
    } else if d == 1 {
        '1'
    } else if d == 2 {
        '2'
    } else if d == 3 {
        '3'
    } else if d == 4 {
        '4'
    } else if d == 5 {
        '5'
    } else if d == 6 {
        '6'
    } else if d == 7 {
        '7'
    } else if d == 8 {
        '8'
    } else {
        '9'
    }
}

/// The decimal digits of `n`, padded on the left with zeros to at least
/// `width` characters.
pub open spec fn digits(n: nat, width: nat) -> Seq<char>
    decreases n + width,
{
    if n < 10 && width <= 1 {
        seq![digit_char(n as int)]
    } else {
        digits(n / 10, if width > 0 {
            (width - 1) as nat
        } else {
            0
        }).push(digit_char(n as int % 10))
    }
}

/// The text of the directive letter `c` for the timestamp `ts`: `Y` the
/// four-digit year, `m` the month, `d` the day, `H` the seconds past the
/// minute, `M` the minutes past the hour, `S` the hour of the day (each two
/// digits), `n` a dot and the nine-digit nanosecond fraction; any other
/// letter stands for itself.
pub open spec fn directive(c: char, ts: u64) -> Seq<char> {
    let secs = ts / 1_000_000_000;
    let nanos = ts % 1_000_000_000;
    let date = date_of((secs / 86400) as nat);
    if c == 'Y' {
        digits(date.0 as nat, 4)
    } else if c == 'm' {
        digits(date.1 as nat, 2)
    } else if c == 'd' {
        digits(date.2 as nat, 2)
    } else if c == 'H' {
        digits((secs % 60) as nat, 2)
    } else if c == 'M' {
        digits(((secs / 60) % 60) as nat, 2)
    } else if c == 'S' {
        digits(((secs / 3600) % 24) as nat, 2)
    } else if c == 'n' {
        seq!['.'] + digits(nanos as nat, 9)
    } else {
        seq![c]
    }
}

/// The whole rendering of `fmt` for `ts`: each `%` and the character after
/// it become that directive's text; every other character, and a `%` that
/// ends the format, is copied.
pub open spec fn render(fmt: Seq<char>, ts: u64) -> Seq<char>
    decreases fmt.len(),
{
    if fmt.len() == 0 {
        seq![]
    } else if fmt[0] == '%' && fmt.len() >= 2 {
        directive(fmt[1], ts) + render(fmt.skip(2), ts)
    } else {
        seq![fmt[0]] + render(fmt.skip(1), ts)
    }
}

/// `s` cut to at most `max` characters.
pub open spec fn truncate(s: Seq<char>, max: nat) -> Seq<char> {
    if s.len() <= max {
        s
    } else {
        s.take(max as int)
    }
}

/// Relies on `String::push`: appends one character.
#[verifier::external_body]
pub(crate) fn push_char(s: &mut String, c: char)
    ensures
        final(s)@ == old(s)@.push(c),
{
    s.push(c);
}

fn digit(d: u64) -> (r: char)
    requires
        d < 10,
    ensures
        r == digit_char(d as int),
{
    match d {
        0 => '0',
        1 => '1',
        2 => '2',
        3 => '3',
        4 => '4',
        5 => '5',
        6 => '6',
        7 => '7',
        8 => '8',
        _ => '9',
    }
}

/// Appends the digits of `n`, zero-padded to `width`.
pub(crate) fn push_digits(out: &mut String, n: u64, width: u64)
    ensures
        final(out)@ == old(out)@ + digits(n as nat, width as nat),
    decreases n + width,
{
    if !(n < 10 && width <= 1) {
        let rest: u64 = if width > 0 {
            width - 1
        } else {
            0
        };
        push_digits(out, n / 10, rest);
    }
    push_char(out, digit(n % 10));
    assert(final(out)@ =~= old(out)@ + digits(n as nat, width as nat));
}

proof fn lemma_truncate_append(a: Seq<char>, b: Seq<char>, max: nat)
    ensures
        truncate(truncate(a, max) + b, max) == truncate(a + b, max),
{
    if a.len() > max {
        assert(truncate(truncate(a, max) + b, max) =~= truncate(a + b, max));
    }
}

/// Appends `s` to `buf`, which holds `bufc` characters, as far as
/// [`MAX_BUF_SIZE`] allows; returns the new number of characters.
pub fn write_str(bufc: usize, buf: &mut String, s: &String) -> (r: usize)
    requires
        old(buf)@.len() == bufc <= MAX_BUF_SIZE,
    ensures
        final(buf)@ == truncate(old(buf)@ + s@, MAX_BUF_SIZE as nat),
        r == final(buf)@.len(),
{
    let n = s.as_str().unicode_len();
    let mut j = bufc;
    let mut k: usize = 0;
    while k < n && j < MAX_BUF_SIZE
        invariant
            n == s@.len(),
            k <= n,
            j == buf@.len(),
            j <= MAX_BUF_SIZE,
            buf@ == truncate(old(buf)@ + s@.take(k as int), MAX_BUF_SIZE as nat),
        decreases n - k,
    {
        let c = s.as_str().get_char(k);
        push_char(buf, c);
        assert(old(buf)@ + s@.take(k + 1) =~= (old(buf)@ + s@.take(k as int)).push(c));
        j = j + 1;
        k = k + 1;
    }
    proof {
        if k < n {
            lemma_truncate_append(old(buf)@ + s@.take(k as int), s@.skip(k as int), MAX_BUF_SIZE as nat);
            assert(old(buf)@ + s@.take(k as int) + s@.skip(k as int) =~= old(buf)@ + s@);
        } else {
            assert(s@.take(k as int) =~= s@);
        }
    }
    j
}

/// The text of the directive letter `c`, given the parts of `ts` that the
/// directives read.
fn directive_text(c: char, ts: u64, secs: u64, nanos: u64, date: (u64, u8, u8)) -> (r: String)
    requires
        secs == ts / 1_000_000_000,
        nanos == ts % 1_000_000_000,
        (date.0 as int, date.1 as int, date.2 as int) == date_of((secs / 86400) as nat),
    ensures
        r@ == directive(c, ts),
{
    let mut out = String::new();
    match c {
        'Y' => push_digits(&mut out, date.0, 4),
        'm' => push_digits(&mut out, date.1 as u64, 2),
        'd' => push_digits(&mut out, date.2 as u64, 2),
        'H' => push_digits(&mut out, secs % 60, 2),
        'M' => push_digits(&mut out, (secs / 60) % 60, 2),
        'S' => push_digits(&mut out, (secs / 3600) % 24, 2),
        'n' => {
            push_char(&mut out, '.');
            push_digits(&mut out, nanos, 9);
        },
        _ => push_char(&mut out, c),
    }
    assert(out@ =~= directive(c, ts));
    out
}

/// Renders the nanosecond Unix timestamp `ts` by the format `fmt`.
///
/// `%Y` writes the year in four digits; `%m` and `%d` the month and the day
/// in two; `%H`, `%M` and `%S` write, in two digits each, the seconds past
/// the minute, the minutes past the hour and the hour of the day; `%n`
/// writes a dot and the nanosecond fraction in nine digits. Any other
/// character, and the letter of any other directive, is copied. The text
/// stops at [`MAX_BUF_SIZE`] characters: whatever would follow is dropped.
pub fn format(fmt: &str, ts: u64) -> (r: String)
    ensures
        r@ == truncate(render(fmt@, ts), MAX_BUF_SIZE as nat),
{
    let (secs, nanos) = div_rem(ts, 1_000_000_000);
    let date = get_date(secs / 86400);
    let n = fmt.unicode_len();
    let mut out = String::new();
    let mut j: usize = 0;
    let mut i: usize = 0;
    let ghost mut full: Seq<char> = seq![];
    assert(fmt@.skip(0) =~= fmt@);
    assert(full + render(fmt@, ts) =~= render(fmt@, ts));
    while i < n && j < MAX_BUF_SIZE
        invariant
            n == fmt@.len(),
            i <= n,
            j == out@.len(),
            j <= MAX_BUF_SIZE,
            secs == ts / 1_000_000_000,
            nanos == ts % 1_000_000_000,
            (date.0 as int, date.1 as int, date.2 as int) == date_of((secs / 86400) as nat),
            render(fmt@, ts) == full + render(fmt@.skip(i as int), ts),
            out@ == truncate(full, MAX_BUF_SIZE as nat),
        decreases n - i,
    {
        let c = fmt.get_char(i);
        let ghost rest = fmt@.skip(i as int);
        if c == '%' && i + 1 < n {
            let letter = fmt.get_char(i + 1);
            let piece = directive_text(letter, ts, secs, nanos, date);
            proof {
                lemma_truncate_append(full, piece@, MAX_BUF_SIZE as nat);
                assert(rest.skip(2) =~= fmt@.skip(i + 2));
                assert(full + render(rest, ts) =~= (full + piece@) + render(fmt@.skip(i + 2), ts));
                full = full + piece@;
            }
            j = write_str(j, &mut out, &piece);
            i = i + 2;
        } else {
            push_char(&mut out, c);
            proof {
                assert(rest.skip(1) =~= fmt@.skip(i + 1));
                assert(full + render(rest, ts) =~= full.push(c) + render(fmt@.skip(i + 1), ts));
                assert(truncate(full.push(c), MAX_BUF_SIZE as nat) =~= out@);
                full = full.push(c);
            }
            j = j + 1;
            i = i + 1;
        }
    }
    proof {
        if i < n {
            lemma_truncate_append(full, render(fmt@.skip(i as int), ts), MAX_BUF_SIZE as nat);
        } else {
            assert(fmt@.skip(i as int) =~= Seq::<char>::empty());
            assert(full + render(fmt@.skip(i as int), ts) =~= full);
        }
    }
    out
}

proof fn lemma_split_years_from(from: int, to: int, rest: nat)
    requires
        from <= to,
        rest < year_len(to),
    ensures
        split_years(from, days_between(from, to) + rest) == (to, rest),
    decreases to - from,
{
    if from < to {
        lemma_split_years_from(from + 1, to, rest);
    }
}

/// The day that follows the 28th of February of a year from 1970 on is the
/// 29th of February in a leap year (divisible by 4 and not by 100, or by
/// 400) and the 1st of March in any other year.
pub proof fn lemma_leap_day(year: int)
    requires
        year >= 1970,
    ensures
        date_of(days_between(1970, year) + 59) == if spec_is_leap_year(year) {
            (year, 2int, 29int)
        } else {
            (year, 3int, 1int)
        },
{
    lemma_split_years_from(1970, year, 59);
    reveal_with_fuel(split_months, 3);
}

} // verus!
