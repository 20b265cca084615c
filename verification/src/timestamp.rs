//! Points in time.
use chrono::{DateTime, Utc};
use vstd::prelude::*;

verus! {

/// The first second that a calendar date can name, in seconds since the UNIX epoch
/// (midnight of January 1 of the year -262143).
pub const MIN_SECS: i64 = -8_334_601_228_800;

/// The last second that a calendar date can name, in seconds since the UNIX epoch
/// (one second before the end of the year 262142).
pub const MAX_SECS: i64 = 8_210_266_876_799;

/// A point in time, in Coordinated Universal Time.
#[derive(Clone, Copy)]
pub struct TimeStamp {
    secs: i64,
    nanos: u32,
}

impl View for TimeStamp {
    type V = int;

    /// Nanoseconds since the UNIX epoch.
    closed spec fn view(&self) -> int {
        self.secs * 1_000_000_000 + self.nanos
    }
}

/// The nanoseconds from the UNIX epoch to the first point in time that can be named.
pub open spec fn first_instant() -> int {
    MIN_SECS * 1_000_000_000
}

/// The nanoseconds from the UNIX epoch to the last point in time that can be named.
pub open spec fn last_instant() -> int {
    MAX_SECS * 1_000_000_000 + 999_999_999
}

/// Whether a number of microseconds since the UNIX epoch is a point in time that can be named.
pub open spec fn nameable_micros(micros: int) -> bool {
    MIN_SECS * 1_000_000 <= micros < (MAX_SECS + 1) * 1_000_000
}

/// The whole microseconds from the UNIX epoch to a point in time.
pub open spec fn micros_of(instant: int) -> int {
    instant / 1000
}

/// The whole milliseconds from the UNIX epoch to a point in time.
pub open spec fn millis_of(instant: int) -> int {
    instant / 1_000_000
}

/// The point in time that lies `micros` microseconds after the UNIX epoch, or the last one if
/// there is none.
pub open spec fn instant_of(micros: int) -> int {
    if nameable_micros(micros) {
        micros * 1000
    } else {
        last_instant()
    }
}

/// `n / d` rounded toward zero.
pub open spec fn truncated_quotient(n: int, d: int) -> int {
    if n < 0 {
        -((-n) / d)
    } else {
        n / d
    }
}

/// `Utc::now`, as whole seconds since the UNIX epoch and the nanoseconds of the second. What the
/// clock shows is not stated, only that it lies between the epoch and the last point in time that
/// can be named: on any other clock `Utc::now` does not return.
#[verifier::external_body]
fn utc_now() -> (now: (i64, u32))
    ensures
        0 <= now.0 <= MAX_SECS,
        now.1 < 1_000_000_000,
{
    let now = Utc::now();
    (now.timestamp(), now.timestamp_subsec_nanos())
}

/// `DateTime::from_timestamp_micros`, as whole seconds since the UNIX epoch and the nanoseconds
/// of the second. There is no date for a number of microseconds outside the calendar's range.
#[verifier::external_body]
fn date_from_micros(micros: i64) -> (date: Option<(i64, u32)>)
    ensures
        date is Some <==> nameable_micros(micros as int),
        date matches Some(d) ==> d.0 == micros as int / 1_000_000 && d.1 == (micros as int
            % 1_000_000) * 1000,
{
    DateTime::from_timestamp_micros(micros).map(|date| (date.timestamp(), date.timestamp_subsec_nanos()))
}

/// Whether the clock can show this point in time, in nanoseconds since the UNIX epoch.
pub closed spec fn clock_shows(instant: int) -> bool {
    exists|now: (i64, u32)|
        #[trigger] call_ensures(utc_now, (), now) && instant == now.0 * 1_000_000_000 + now.1
}

/// Whether the clock can show this time, in whole milliseconds since the UNIX epoch.
pub open spec fn clock_shows_millis(millis: i64) -> bool {
    exists|instant: int| #[trigger] clock_shows(instant) && millis == millis_of(instant)
}

/// Whether the clock can show this time, in whole microseconds since the UNIX epoch.
pub open spec fn clock_shows_micros(micros: i64) -> bool {
    exists|instant: int| #[trigger] clock_shows(instant) && micros == micros_of(instant)
}

/// What the clock shows, in milliseconds since the UNIX epoch: the [`TimeStamp::millis`] of
/// [`TimeStamp::now`].
pub fn now_millis() -> (millis: i64)
    ensures
        clock_shows_millis(millis),
        0 <= millis <= MAX_SECS * 1000 + 999,
{
    TimeStamp::now().millis()
}

impl TimeStamp {
    #[verifier::type_invariant]
    closed spec fn in_range(self) -> bool {
        &&& MIN_SECS <= self.secs <= MAX_SECS
        &&& self.nanos < 1_000_000_000
    }

    /// The point in time that lies `secs` seconds after the UNIX epoch, and `nanos` nanoseconds
    /// into the second.
    pub fn from_clock(secs: i64, nanos: u32) -> (r: Self)
        requires
            MIN_SECS <= secs <= MAX_SECS,
            nanos < 1_000_000_000,
        ensures
            r@ == secs * 1_000_000_000 + nanos,
    {
        TimeStamp { secs, nanos }
    }

    /// What the clock shows.
    pub fn now() -> (r: Self)
        ensures
            clock_shows(r@),
            0 <= r@ <= last_instant(),
    {
        let (secs, nanos) = utc_now();
        TimeStamp::from_clock(secs, nanos)
    }

    /// Whole milliseconds since the UNIX epoch.
    pub fn millis(&self) -> (millis: i64)
        ensures
            millis == millis_of(self@),
            millis * 1_000_000 <= self@ < (millis + 1) * 1_000_000,
    {
        proof {
            use_type_invariant(&*self);
        }
        self.secs * 1000 + (self.nanos / 1_000_000) as i64
    }

    /// The time in microseconds from `self` to `now`, rounded toward zero; the largest number if
    /// it is too long to be counted.
    pub fn micros_until(&self, now: &TimeStamp) -> (micros: i64)
        ensures
            ({
                let exact = truncated_quotient(now@ - self@, 1000);
                micros == if i64::MIN <= exact <= i64::MAX {
                    exact
                } else {
                    i64::MAX as int
                }
            }),
            micros < i64::MAX ==> {
                &&& self@ <= now@ ==> 0 <= micros && micros * 1000 <= now@ - self@ < micros * 1000
                    + 1000
                &&& now@ <= self@ ==> micros <= 0 && -1000 < now@ - self@ - micros * 1000 <= 0
            },
    {
        proof {
            use_type_invariant(&*self);
            use_type_invariant(&*now);
        }
        let elapsed: i128 = (now.secs as i128 - self.secs as i128) * 1_000_000_000 + (now.nanos as i128
            - self.nanos as i128);
        let micros: i128 = if elapsed < 0 {
            -((-elapsed) / 1000)
        } else {
            elapsed / 1000
        };
        if i64::MIN as i128 <= micros && micros <= i64::MAX as i128 {
            micros as i64
        } else {
            i64::MAX
        }
    }

    /// The time in microseconds since `self`. A clock that runs backwards can make it negative.
    pub fn micros_since(&self) -> (micros: i64)
        ensures
            exists|now: int|
                #[trigger] clock_shows(now) && 0 <= now <= last_instant() && {
                    let exact = truncated_quotient(now - self@, 1000);
                    micros == if i64::MIN <= exact <= i64::MAX {
                        exact
                    } else {
                        i64::MAX as int
                    }
                },
    {
        let now = TimeStamp::now();
        self.micros_until(&now)
    }

    /// Whole microseconds since the UNIX epoch.
    pub fn raw(&self) -> (micros: i64)
        ensures
            micros == micros_of(self@),
            micros * 1000 <= self@ < (micros + 1) * 1000,
            nameable_micros(micros as int),
    {
        proof {
            use_type_invariant(&*self);
        }
        self.secs * 1_000_000 + (self.nanos / 1000) as i64
    }

    /// The point in time that lies `micros` microseconds after the UNIX epoch, or the last one if
    /// there is none.
    pub fn from_raw(micros: i64) -> (r: Self)
        ensures
            r@ == instant_of(micros as int),
            -8_334_601_228_800_000_000 <= micros < 8_210_266_876_800_000_000 ==> r@ == micros * 1000,
            !(-8_334_601_228_800_000_000 <= micros < 8_210_266_876_800_000_000) ==> r@
                == 8_210_266_876_799_999_999_999,
    {
        match date_from_micros(micros) {
            Some((secs, nanos)) => TimeStamp { secs, nanos },
            None => TimeStamp { secs: MAX_SECS, nanos: 999_999_999 },
        }
    }
}

/// Reading a number of microseconds as a point in time and writing it again gives the same
/// number, for every number that a date can name.
pub proof fn law_raw_round_trip(micros: int)
    requires
        nameable_micros(micros),
    ensures
        micros_of(instant_of(micros)) == micros,
        first_instant() <= instant_of(micros) <= last_instant(),
{
}

/// Writing a point in time as microseconds and reading it back loses less than a microsecond.
pub proof fn law_raw_truncates(instant: int)
    requires
        first_instant() <= instant <= last_instant(),
    ensures
        nameable_micros(micros_of(instant)),
        0 <= instant - instant_of(micros_of(instant)) < 1000,
{
}

/// Milliseconds and microseconds are counted in full: a point in time lies at or after its number
/// of them, and before the next. A millisecond has a thousand microseconds.
pub proof fn law_whole_units(instant: int)
    ensures
        millis_of(instant) * 1_000_000 <= instant < millis_of(instant) * 1_000_000 + 1_000_000,
        micros_of(instant) * 1000 <= instant < micros_of(instant) * 1000 + 1000,
        millis_of(instant) == micros_of(instant) / 1000,
{
}

/// A number of microseconds outside the calendar gives the last point in time.
pub proof fn law_raw_outside_the_calendar(micros: int)
    ensures
        nameable_micros(micros) <==> first_instant() <= micros * 1000 <= last_instant(),
        !nameable_micros(micros) ==> instant_of(micros) == last_instant(),
        first_instant() == -8_334_601_228_800 * 1_000_000_000,
        last_instant() == 8_210_266_876_800 * 1_000_000_000 - 1,
{
}

/// A quotient that is rounded toward zero has the sign of the number, and misses it by less than
/// the divisor.
pub proof fn law_truncated_quotient(n: int, d: int)
    requires
        d > 0,
    ensures
        n >= 0 ==> 0 <= d * truncated_quotient(n, d) <= n < d * truncated_quotient(n, d) + d,
        truncated_quotient(-n, d) == -truncated_quotient(n, d),
{
    if n >= 0 {
        vstd::arithmetic::div_mod::lemma_fundamental_div_mod(n, d);
        vstd::arithmetic::div_mod::lemma_div_pos_is_pos(n, d);
        assert(0 <= d * (n / d)) by (nonlinear_arith)
            requires
                d > 0,
                n / d >= 0,
        ;
    }
    assert(0int / d == 0) by (nonlinear_arith)
        requires
            d > 0,
    ;
}

/// What the clock can show is what reading it can give, in seconds and nanoseconds of the second.
proof fn law_clock_is_read(instant: int)
    ensures
        clock_shows(instant) <==> exists|now: (i64, u32)| #[trigger]
            call_ensures(utc_now, (), now) && instant == now.0 * 1_000_000_000 + now.1,
{
}

/// A time in milliseconds or microseconds that the clock can show is that of a point in time that it
/// can show, which lies less than one of them later.
pub proof fn law_clock_units(millis: i64, micros: i64)
    ensures
        clock_shows_millis(millis) ==> exists|instant: int| #[trigger]
            clock_shows(instant) && millis * 1_000_000 <= instant < millis * 1_000_000 + 1_000_000,
        clock_shows_micros(micros) ==> exists|instant: int| #[trigger]
            clock_shows(instant) && micros * 1000 <= instant < micros * 1000 + 1000,
{
}

/// Later points in time have no smaller number of microseconds.
pub proof fn law_raw_keeps_order(earlier: int, later: int)
    requires
        earlier <= later,
    ensures
        micros_of(earlier) <= micros_of(later),
{
}

} // verus!
