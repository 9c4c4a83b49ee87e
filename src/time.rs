//! UTC timestamps as plain calendar fields, their order and their text forms.

use vstd::prelude::*;
use chrono::{Datelike, Timelike};
use crate::text::push_char;

verus! {

/// A UTC instant: calendar date, time of day and nanoseconds (a leap second
/// is carried in `nanosecond`, up to two seconds' worth).
#[derive(Clone, Copy, Debug, PartialEq, Eq, Structural)]
pub struct Timestamp {
    pub year: i32,
    pub month: u32,
    pub day: u32,
    pub hour: u32,
    pub minute: u32,
    pub second: u32,
    pub nanosecond: u32,
}

impl Timestamp {
    /// Every field lies in its calendar range.
    pub open spec fn wf(self) -> bool {
        &&& 1 <= self.month <= 12
        &&& 1 <= self.day <= 31
        &&& self.hour < 24
        &&& self.minute < 60
        &&& self.second < 60
        &&& self.nanosecond < 2_000_000_000
    }

    /// The position of the instant on a single time line; on well-formed
    /// timestamps it orders them as their fields do, most significant first.
    pub open spec fn instant(self) -> int {
        ((((((self.year as int) * 13 + self.month as int) * 32 + self.day as int) * 24
            + self.hour as int) * 60 + self.minute as int) * 60 + self.second as int)
            * 2_000_000_000 + self.nanosecond as int
    }

    /// Computes `instant`.
    pub fn instant_value(&self) -> (r: i128)
        requires
            self.wf(),
        ensures
            r == self.instant(),
    {
        let y = self.year as i128;
        assert(-2147483648 <= y <= 2147483647);
        ((((((y * 13 + self.month as i128) * 32 + self.day as i128) * 24 + self.hour as i128)
            * 60 + self.minute as i128) * 60 + self.second as i128) * 2_000_000_000
            + self.nanosecond as i128)
    }

    /// Builds a timestamp from its fields, if they are in range.
    pub fn from_parts(
        year: i32,
        month: u32,
        day: u32,
        hour: u32,
        minute: u32,
        second: u32,
        nanosecond: u32,
    ) -> (r: Option<Timestamp>)
        ensures
            r == (if (Timestamp { year, month, day, hour, minute, second, nanosecond }).wf() {
                Some(Timestamp { year, month, day, hour, minute, second, nanosecond })
            } else {
                None
            }),
    {
        let t = Timestamp { year, month, day, hour, minute, second, nanosecond };
        if 1 <= month && month <= 12 && 1 <= day && day <= 31 && hour < 24 && minute < 60
            && second < 60 && nanosecond < 2_000_000_000 {
            Some(t)
        } else {
            None
        }
    }

    /// `%Y-%m-%d %H:%M`: the date and the time to the minute.
    pub fn minute_text(&self) -> (r: String)
        requires
            self.wf(),
        ensures
            r@ == minute_text_spec(*self),
    {
        let mut r = String::new();
        push_year(&mut r, self.year);
        push_char(&mut r, '-');
        push_two(&mut r, self.month as u64);
        push_char(&mut r, '-');
        push_two(&mut r, self.day as u64);
        push_char(&mut r, ' ');
        push_two(&mut r, self.hour as u64);
        push_char(&mut r, ':');
        push_two(&mut r, self.minute as u64);
        r
    }

    /// `%m/%d/%y`: month, day and the year's last two digits.
    #[verifier::rlimit(40)]
    pub fn short_date_text(&self) -> (r: String)
        requires
            self.wf(),
        ensures
            r@ == short_date_spec(*self),
    {
        let mut r = String::new();
        push_two(&mut r, self.month as u64);
        push_char(&mut r, '/');
        push_two(&mut r, self.day as u64);
        push_char(&mut r, '/');
        let y = self.year as i64;
        let m = if y % 100 < 0 {
            y % 100 + 100
        } else {
            y % 100
        };
        assert(m == (self.year as int) % 100);
        push_two(&mut r, m as u64);
        r
    }
}

/// The later of two instants (the first one when they are equal).
pub open spec fn later_spec(a: Timestamp, b: Timestamp) -> Timestamp {
    if b.instant() > a.instant() {
        b
    } else {
        a
    }
}

/// Returns the later of two timestamps.
pub fn later(a: Timestamp, b: Timestamp) -> (r: Timestamp)
    requires
        a.wf(),
        b.wf(),
    ensures
        r == later_spec(a, b),
{
    if b.instant_value() > a.instant_value() {
        b
    } else {
        a
    }
}

/// The ASCII digit for `d < 10`.
pub open spec fn digit_char(d: nat) -> char {
    if d == 0 { '0' }
    else if d == 1 { '1' }
    else if d == 2 { '2' }
    else if d == 3 { '3' }
    else if d == 4 { '4' }
    else if d == 5 { '5' }
    else if d == 6 { '6' }
    else if d == 7 { '7' }
    else if d == 8 { '8' }
    else { '9' }
}

/// The decimal digits of `n`, without leading zeros ("0" for zero).
pub open spec fn decimal(n: nat) -> Seq<char>
    decreases n,
{
    if n < 10 {
        seq![digit_char(n)]
    } else {
        decimal(n / 10).push(digit_char(n % 10))
    }
}

/// `s` preceded by zeros up to `width` characters.
pub open spec fn zero_pad(s: Seq<char>, width: nat) -> Seq<char> {
    if s.len() >= width {
        s
    } else {
        Seq::new((width - s.len()) as nat, |i: int| '0') + s
    }
}

/// A year as `%Y` writes it: four digits at least, with a sign outside 0..=9999.
pub open spec fn year_text(y: int) -> Seq<char> {
    if 0 <= y <= 9999 {
        zero_pad(decimal(y as nat), 4)
    } else if y > 9999 {
        seq!['+'] + decimal(y as nat)
    } else {
        seq!['-'] + zero_pad(decimal((-y) as nat), 4)
    }
}

pub open spec fn two_digits(n: nat) -> Seq<char> {
    zero_pad(decimal(n), 2)
}

pub open spec fn minute_text_spec(t: Timestamp) -> Seq<char> {
    year_text(t.year as int) + seq!['-'] + two_digits(t.month as nat) + seq!['-']
        + two_digits(t.day as nat) + seq![' '] + two_digits(t.hour as nat) + seq![':']
        + two_digits(t.minute as nat)
}

pub open spec fn short_date_spec(t: Timestamp) -> Seq<char> {
    two_digits(t.month as nat) + seq!['/'] + two_digits(t.day as nat) + seq!['/']
        + two_digits(((t.year as int) % 100) as nat)
}

fn digit_of(d: u64) -> (c: char)
    requires
        d < 10,
    ensures
        c == digit_char(d as nat),
{
    if d == 0 { '0' }
    else if d == 1 { '1' }
    else if d == 2 { '2' }
    else if d == 3 { '3' }
    else if d == 4 { '4' }
    else if d == 5 { '5' }
    else if d == 6 { '6' }
    else if d == 7 { '7' }
    else if d == 8 { '8' }
    else { '9' }
}

/// Appends the decimal digits of `n`.
pub fn push_decimal(s: &mut String, n: u64)
    ensures
        final(s)@ == old(s)@ + decimal(n as nat),
    decreases n,
{
    if n >= 10 {
        push_decimal(s, n / 10);
    }
    push_char(s, digit_of(n % 10));
    assert(final(s)@ =~= old(s)@ + decimal(n as nat));
}

/// An integer in decimal, with a minus sign when negative.
pub open spec fn signed_decimal(n: int) -> Seq<char> {
    if n < 0 {
        seq!['-'] + decimal((-n) as nat)
    } else {
        decimal(n as nat)
    }
}

/// Appends `n` in decimal, with a minus sign when negative.
pub fn push_signed(s: &mut String, n: i64)
    ensures
        final(s)@ == old(s)@ + signed_decimal(n as int),
{
    if n < 0 {
        push_char(s, '-');
        let m = -(n as i128);
        push_decimal(s, m as u64);
    } else {
        push_decimal(s, n as u64);
    }
    assert(final(s)@ =~= old(s)@ + signed_decimal(n as int));
}

proof fn lemma_decimal_len(n: nat)
    ensures
        decimal(n).len() >= 1,
        n < 10 ==> decimal(n).len() == 1,
        10 <= n < 100 ==> decimal(n).len() == 2,
        100 <= n < 1000 ==> decimal(n).len() == 3,
        1000 <= n < 10000 ==> decimal(n).len() == 4,
        n >= 1000 ==> decimal(n).len() >= 4,
    decreases n,
{
    if n >= 10 {
        lemma_decimal_len(n / 10);
    }
}

/// Appends `n` zero-padded to two digits.
fn push_two(s: &mut String, n: u64)
    requires
        n < 100,
    ensures
        final(s)@ == old(s)@ + two_digits(n as nat),
{
    proof { lemma_decimal_len(n as nat); }
    if n < 10 {
        push_char(s, '0');
    }
    push_decimal(s, n);
    assert(final(s)@ =~= old(s)@ + two_digits(n as nat));
}

/// Appends zeros so that `n` then takes at least four digits, then `n`.
fn push_four(s: &mut String, n: u64)
    ensures
        final(s)@ == old(s)@ + zero_pad(decimal(n as nat), 4),
{
    proof { lemma_decimal_len(n as nat); }
    if n < 1000 {
        push_char(s, '0');
    }
    if n < 100 {
        push_char(s, '0');
    }
    if n < 10 {
        push_char(s, '0');
    }
    push_decimal(s, n);
    assert(final(s)@ =~= old(s)@ + zero_pad(decimal(n as nat), 4));
}

fn push_year(s: &mut String, y: i32)
    ensures
        final(s)@ == old(s)@ + year_text(y as int),
{
    if 0 <= y && y <= 9999 {
        push_four(s, y as u64);
    } else if y > 9999 {
        push_char(s, '+');
        push_decimal(s, y as u64);
    } else {
        push_char(s, '-');
        let m = -(y as i64);
        push_four(s, m as u64);
    }
    assert(final(s)@ =~= old(s)@ + year_text(y as int));
}

/// Relies on `chrono::Utc::now` and the field getters of `Datelike` and
/// `Timelike`: the current UTC time, whose fields chrono keeps in range.
#[verifier::external_body]
pub(crate) fn now_utc() -> (r: Timestamp)
    ensures
        r.wf(),
{
    let t = chrono::Utc::now();
    Timestamp {
        year: t.year(),
        month: t.month(),
        day: t.day(),
        hour: t.hour(),
        minute: t.minute(),
        second: t.second(),
        nanosecond: t.nanosecond(),
    }
}

} // verus!
