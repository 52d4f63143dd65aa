use vstd::prelude::*;

verus! {

/// A UTC instant with millisecond precision, held as calendar fields.
/// A value is meaningful only when `ts_valid` holds; every function that
/// produces a `Timestamp` establishes it.
#[derive(Clone, Copy, PartialEq, Eq, PartialOrd, Ord, Structural, Debug)]
pub struct Timestamp {
    pub year: u16,
    pub month: u8,
    pub day: u8,
    pub hour: u8,
    pub minute: u8,
    pub second: u8,
    pub millis: u16,
}

pub open spec fn spec_is_leap_year(y: int) -> bool {
    (y % 4 == 0 && y % 100 != 0) || y % 400 == 0
}

pub open spec fn spec_days_in_month(y: int, m: int) -> int {
    if m == 2 {
        if spec_is_leap_year(y) {
            29
        } else {
            28
        }
    } else if m == 4 || m == 6 || m == 9 || m == 11 {
        30
    } else {
        31
    }
}

/// The fields form a real calendar date and time-of-day (proleptic Gregorian,
/// years 0000 through 9999, no leap seconds).
pub open spec fn ts_valid(t: Timestamp) -> bool {
    &&& t.year <= 9999
    &&& 1 <= t.month <= 12
    &&& 1 <= t.day <= spec_days_in_month(t.year as int, t.month as int)
    &&& t.hour <= 23
    &&& t.minute <= 59
    &&& t.second <= 59
    &&& t.millis <= 999
}

/// Mixed-radix key: for valid timestamps it orders exactly as the instants do,
/// and two valid timestamps with the same key are the same instant.
pub open spec fn instant_of(t: Timestamp) -> int {
    (((((t.year * 13 + t.month) * 32 + t.day) * 24 + t.hour) * 60 + t.minute) * 60 + t.second)
        * 1000 + t.millis
}

pub open spec fn ts_le(a: Timestamp, b: Timestamp) -> bool {
    instant_of(a) <= instant_of(b)
}

impl Timestamp {
    pub fn new(
        year: u16,
        month: u8,
        day: u8,
        hour: u8,
        minute: u8,
        second: u8,
        millis: u16,
    ) -> (r: Option<Timestamp>)
        ensures
            ({
                let t = Timestamp { year, month, day, hour, minute, second, millis };
                if ts_valid(t) {
                    r == Some(t)
                } else {
                    r is None
                }
            }),
    {
        let t = Timestamp { year, month, day, hour, minute, second, millis };
        if t.is_valid() {
            Some(t)
        } else {
            None
        }
    }

    pub fn is_valid(&self) -> (r: bool)
        ensures
            r == ts_valid(*self),
    {
        let days: u8 = days_in_month(self.year, self.month);
        self.year <= 9999 && 1 <= self.month && self.month <= 12 && 1 <= self.day && self.day
            <= days && self.hour <= 23 && self.minute <= 59 && self.second <= 59 && self.millis
            <= 999
    }

    /// The mixed-radix order key, as an executable value.
    pub fn instant(&self) -> (r: u64)
        requires
            ts_valid(*self),
        ensures
            r == instant_of(*self),
    {
        (((((self.year as u64) * 13 + (self.month as u64)) * 32 + (self.day as u64)) * 24 + (
        self.hour as u64)) * 60 + (self.minute as u64)) * 60 * 1000 + (self.second as u64) * 1000
            + (self.millis as u64)
    }

    pub fn le(&self, other: &Timestamp) -> (r: bool)
        requires
            ts_valid(*self),
            ts_valid(*other),
        ensures
            r == ts_le(*self, *other),
    {
        self.instant() <= other.instant()
    }
}

pub fn is_leap_year(y: u16) -> (r: bool)
    ensures
        r == spec_is_leap_year(y as int),
{
    (y % 4 == 0 && y % 100 != 0) || y % 400 == 0
}

pub fn days_in_month(y: u16, m: u8) -> (r: u8)
    ensures
        r == spec_days_in_month(y as int, m as int),
{
    if m == 2 {
        if is_leap_year(y) {
            29
        } else {
            28
        }
    } else if m == 4 || m == 6 || m == 9 || m == 11 {
        30
    } else {
        31
    }
}

/// Two valid timestamps with equal order keys are equal field for field.
pub proof fn lemma_instant_injective(a: Timestamp, b: Timestamp)
    requires
        ts_valid(a),
        ts_valid(b),
        instant_of(a) == instant_of(b),
    ensures
        a == b,
{
    lemma_radix_split(
        ((((a.year * 13 + a.month) * 32 + a.day) * 24 + a.hour) * 60 + a.minute) * 60 + a.second,
        ((((b.year * 13 + b.month) * 32 + b.day) * 24 + b.hour) * 60 + b.minute) * 60 + b.second,
        1000,
        a.millis as int,
        b.millis as int,
    );
    lemma_radix_split(
        (((a.year * 13 + a.month) * 32 + a.day) * 24 + a.hour) * 60 + a.minute,
        (((b.year * 13 + b.month) * 32 + b.day) * 24 + b.hour) * 60 + b.minute,
        60,
        a.second as int,
        b.second as int,
    );
    lemma_radix_split(
        ((a.year * 13 + a.month) * 32 + a.day) * 24 + a.hour,
        ((b.year * 13 + b.month) * 32 + b.day) * 24 + b.hour,
        60,
        a.minute as int,
        b.minute as int,
    );
    lemma_radix_split(
        (a.year * 13 + a.month) * 32 + a.day,
        (b.year * 13 + b.month) * 32 + b.day,
        24,
        a.hour as int,
        b.hour as int,
    );
    lemma_radix_split(
        a.year * 13 + a.month,
        b.year * 13 + b.month,
        32,
        a.day as int,
        b.day as int,
    );
    lemma_radix_split(a.year as int, b.year as int, 13, a.month as int, b.month as int);
}

proof fn lemma_radix_split(x: int, y: int, r: int, a: int, b: int)
    requires
        r > 0,
        0 <= a < r,
        0 <= b < r,
        x * r + a == y * r + b,
    ensures
        x == y,
        a == b,
{
    assert(x == y && a == b) by (nonlinear_arith)
        requires
            r > 0,
            0 <= a < r,
            0 <= b < r,
            x * r + a == y * r + b,
    ;
}

} // verus!
