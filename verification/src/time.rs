//! Times of day, as `chrono` keeps them: whole seconds since midnight and
//! nanoseconds since the whole second, the nanoseconds running past one
//! second to stand for a leap second.

use crate::error::Error;
use crate::text::{
    back_class, digit_char, from_chars, skip_class, spec_decimal, spec_is_whitespace, spec_trim,
    spec_two_digits, to_chars, trim, two_digits, CharClass,
};
use chrono::{NaiveTime, TimeDelta, Timelike};
use vstd::prelude::*;
use vstd::string::StringExecFns;

verus! {

/// The nanoseconds that one second holds.
pub const NANOS_PER_SECOND: u32 = 1_000_000_000;

/// The seconds that one day holds.
pub const SECONDS_PER_DAY: u32 = 86_400;

/// The nanoseconds that one hundredth of a second holds.
pub const NANOS_PER_HUNDREDTH: u32 = 10_000_000;

/// What a [`Time`] stands for.
pub struct TimeView {
    /// Whole seconds since midnight, the leap second not counted.
    pub secs: int,
    /// Nanoseconds since the whole second; one second or more within a
    /// leap second.
    pub nanos: int,
}

impl TimeView {
    /// The values that a time of day can take: a leap second only follows
    /// second 59 of a minute.
    pub open spec fn wf(self) -> bool {
        &&& 0 <= self.secs < SECONDS_PER_DAY
        &&& 0 <= self.nanos < 2 * NANOS_PER_SECOND
        &&& (self.nanos >= NANOS_PER_SECOND ==> self.secs % 60 == 59)
    }

    pub open spec fn is_leap_second(self) -> bool {
        self.nanos >= NANOS_PER_SECOND
    }

    /// Nanoseconds since midnight.
    pub open spec fn total_nanos(self) -> int {
        self.secs * NANOS_PER_SECOND + self.nanos
    }

    pub open spec fn hour(self) -> int {
        self.secs / 3600
    }

    pub open spec fn minute(self) -> int {
        (self.secs / 60) % 60
    }

    pub open spec fn second(self) -> int {
        self.secs % 60
    }

    /// The order of times: by the whole second, then by the nanoseconds.
    pub open spec fn before(self, other: TimeView) -> bool {
        self.secs < other.secs || (self.secs == other.secs && self.nanos < other.nanos)
    }
}

/// A time of day.
#[derive(Clone, Copy, Debug, PartialEq, Eq, Structural, Ord, Hash)]
pub struct Time {
    secs: u32,
    nanos: u32,
}

impl View for Time {
    type V = TimeView;

    closed spec fn view(&self) -> TimeView {
        TimeView { secs: self.secs as int, nanos: self.nanos as int }
    }
}

impl Time {
    #[verifier::type_invariant]
    pub closed spec fn valid(self) -> bool {
        self@.wf()
    }

    /// The time `secs` seconds and `nanos` nanoseconds after midnight.
    pub fn from_num_seconds_from_midnight(secs: u32, nanos: u32) -> (out: Option<Time>)
        ensures
            out is Some == (TimeView { secs: secs as int, nanos: nanos as int }).wf(),
            out matches Some(t) ==> t@ == (TimeView { secs: secs as int, nanos: nanos as int }),
    {
        if secs >= SECONDS_PER_DAY || nanos >= 2 * NANOS_PER_SECOND || (nanos >= NANOS_PER_SECOND
            && secs % 60 != 59) {
            None
        } else {
            Some(Time { secs, nanos })
        }
    }

    /// The time of the given hour, minute, second and nanosecond.
    pub fn from_hms_nano(hour: u32, minute: u32, second: u32, nanos: u32) -> (out: Option<Time>)
        ensures
            out is Some == (hour < 24 && minute < 60 && second < 60 && nanos < 2 * NANOS_PER_SECOND
                && (nanos >= NANOS_PER_SECOND ==> second == 59)),
            out matches Some(t) ==> t@ == (TimeView {
                secs: hour * 3600 + minute * 60 + second,
                nanos: nanos as int,
            }),
    {
        if hour >= 24 || minute >= 60 || second >= 60 {
            return None;
        }
        Time::from_num_seconds_from_midnight(hour * 3600 + minute * 60 + second, nanos)
    }

    /// The time of the given hour, minute, second and millisecond.
    pub fn from_hms_milli(hour: u32, minute: u32, second: u32, millis: u32) -> (out: Option<Time>)
        ensures
            out is Some == (hour < 24 && minute < 60 && second < 60 && millis < 2000 && (millis
                >= 1000 ==> second == 59)),
            out matches Some(t) ==> t@ == (TimeView {
                secs: hour * 3600 + minute * 60 + second,
                nanos: millis * 1_000_000,
            }),
    {
        if millis >= 2000 {
            return None;
        }
        Time::from_hms_nano(hour, minute, second, millis * 1_000_000)
    }

    /// Whole seconds since midnight.
    pub fn num_seconds_from_midnight(&self) -> (secs: u32)
        ensures
            secs == self@.secs,
            self@.wf(),
    {
        proof {
            use_type_invariant(self);
        }
        self.secs
    }

    /// Nanoseconds since the whole second.
    pub fn nanosecond(&self) -> (nanos: u32)
        ensures
            nanos == self@.nanos,
            self@.wf(),
    {
        proof {
            use_type_invariant(self);
        }
        self.nanos
    }

    pub fn hour(&self) -> (hour: u32)
        ensures
            hour == self@.hour(),
            hour < 24,
    {
        proof {
            use_type_invariant(self);
        }
        self.secs / 3600
    }

    pub fn minute(&self) -> (minute: u32)
        ensures
            minute == self@.minute(),
            minute < 60,
    {
        (self.secs / 60) % 60
    }

    pub fn second(&self) -> (second: u32)
        ensures
            second == self@.second(),
            second < 60,
    {
        self.secs % 60
    }

    /// Whether `self` comes before `other`.
    pub fn is_before(&self, other: &Time) -> (b: bool)
        ensures
            b == self@.before(other@),
    {
        self.secs < other.secs || (self.secs == other.secs && self.nanos < other.nanos)
    }
}

/// Two times neither of which comes before the other are the same.
pub proof fn lemma_same_time(a: TimeView, b: TimeView)
    ensures
        (!a.before(b) && !b.before(a)) == (a == b),
{
}

/// `chrono::ParseError`, why `chrono` could not read a time.
#[verifier::external_type_specification]
#[verifier::external_body]
pub struct ExParseError(chrono::ParseError);

/// The time that `chrono` reads from `text` under the format string
/// `format`, if it reads one.
pub uninterp spec fn parsed_time(text: Seq<char>, format: Seq<char>) -> Option<TimeView>;

/// `chrono::NaiveTime::parse_from_str`. The result depends on the two
/// strings alone, and a time that comes back is a time of day. Nothing is
/// claimed of which strings are times.
#[verifier::external_body]
fn chrono_parse(text: &str, format: &str) -> (out: Result<Time, chrono::ParseError>)
    ensures
        out is Ok == parsed_time(text@, format@) is Some,
        out matches Ok(t) ==> parsed_time(text@, format@) == Some(t@) && t@.wf(),
{
    match NaiveTime::parse_from_str(text, format) {
        Ok(t) => Ok(Time { secs: t.num_seconds_from_midnight(), nanos: t.nanosecond() }),
        Err(e) => Err(e),
    }
}

/// What reading a time gives once `chrono` has answered: the time, or
/// `MalformedTime`.
pub open spec fn time_or_error(parsed: Option<TimeView>) -> Result<TimeView, Error> {
    match parsed {
        Some(t) => Ok(t),
        None => Err(Error::MalformedTime),
    }
}

/// What a time, if there is one, stands for.
pub open spec fn time_option_view(t: Option<Time>) -> Option<TimeView> {
    match t {
        Some(t) => Some(t@),
        None => None,
    }
}

/// What the result of reading a time stands for.
pub open spec fn result_view(r: Result<Time, Error>) -> Result<TimeView, Error> {
    match r {
        Ok(t) => Ok(t@),
        Err(e) => Err(e),
    }
}

/// Turns the answer of the time parser into the library's own result.
pub fn time_from_parsed(parsed: Result<Time, chrono::ParseError>) -> (out: Result<Time, Error>)
    ensures
        out == match parsed {
            Ok(t) => Ok::<Time, Error>(t),
            Err(_) => Err(Error::MalformedTime),
        },
{
    match parsed {
        Ok(t) => Ok(t),
        Err(_) => Err(Error::MalformedTime),
    }
}

/// Reads a time from `text` under the `chrono` format string `format`.
pub fn parse_time(text: &str, format: &str) -> (out: Result<Time, Error>)
    ensures
        result_view(out) == time_or_error(parsed_time(text@, format@)),
{
    time_from_parsed(chrono_parse(text, format))
}

/// The hour, blank-padded to two places, then the minute and the second in
/// two digits each, with colons between; the leap second shows as second 60.
pub open spec fn clock_text(t: TimeView) -> Seq<char> {
    let h = t.hour() as nat;
    let m = t.minute() as nat;
    let s = (t.second() + t.nanos / (NANOS_PER_SECOND as int)) as nat;
    seq![
        if h < 10 { ' ' } else { digit_char(h / 10) },
        digit_char(h % 10),
        ':',
        digit_char(m / 10),
        digit_char(m % 10),
        ':',
        digit_char(s / 10),
        digit_char(s % 10),
    ]
}

/// The `chrono` format of the clock: the hour blank-padded, then minute and
/// second in two digits each.
pub const CLOCK_FORMAT: &'static str = "%k:%M:%S";

/// `chrono::NaiveTime::format` with the format string `%k:%M:%S`, written
/// out to a string: the hour blank-padded, minute and second zero-padded.
/// A `Time` is a time of day, so `chrono` takes its two numbers.
#[verifier::external_body]
fn chrono_clock(t: Time, format: &str) -> (out: String)
    requires
        format@ == CLOCK_FORMAT@,
    ensures
        out@ == clock_text(t@),
{
    NaiveTime::from_num_seconds_from_midnight_opt(t.secs, t.nanos).unwrap().format(
        format,
    ).to_string()
}

/// A time as the script shows it: hour without padding, minute, second, and
/// the hundredths of the second, cut off and not rounded.
pub open spec fn spec_timestamp(t: TimeView) -> Seq<char> {
    spec_trim(clock_text(t)) + seq!['.'] + spec_two_digits(
        (t.nanos / (NANOS_PER_HUNDREDTH as int)) as nat,
    )
}

/// Writes `t` as `H:MM:SS.CC`.
pub fn timestamp(t: Time) -> (out: String)
    ensures
        out@ == spec_timestamp(t@),
{
    let clock = chrono_clock(t, CLOCK_FORMAT);
    let mut out = from_chars(&trim(&to_chars(clock.as_str())));
    out.append(".");
    proof {
        reveal_strlit(".");
        assert("."@ == seq!['.']);
    }
    let hundredths = t.nanosecond() / NANOS_PER_HUNDREDTH;
    out.append(from_chars(&two_digits(hundredths as u128)).as_str());
    out
}

/// A time is shown with its hour in one or two digits, without padding,
/// and with the hundredths that its nanoseconds hold in full: the rest of
/// the nanoseconds is cut off, never rounded up.
pub proof fn lemma_timestamp(t: TimeView)
    requires
        t.wf(),
    ensures
        spec_timestamp(t) == spec_decimal(t.hour() as nat) + seq![
            ':',
            digit_char((t.minute() / 10) as nat),
            digit_char((t.minute() % 10) as nat),
            ':',
            digit_char(((t.second() + t.nanos / 1_000_000_000) / 10) as nat),
            digit_char(((t.second() + t.nanos / 1_000_000_000) % 10) as nat),
            '.',
        ] + spec_two_digits((t.nanos / 10_000_000) as nat),
        (t.nanos / 10_000_000) * 10_000_000 <= t.nanos < (t.nanos / 10_000_000 + 1) * 10_000_000,
{
    let clock = clock_text(t);
    let h = t.hour() as nat;
    assert(h < 24);
    assert(forall|d: nat| d < 10 ==> !spec_is_whitespace(#[trigger] digit_char(d)));
    assert(!spec_is_whitespace(clock[7]));
    assert(!spec_is_whitespace(clock[1]));
    reveal_with_fuel(skip_class, 3);
    reveal_with_fuel(back_class, 2);
    reveal_with_fuel(spec_decimal, 2);
    if h < 10 {
        assert(spec_is_whitespace(clock[0]));
        assert(skip_class(clock, CharClass::Whitespace, 0) == 1);
        assert(back_class(clock, CharClass::Whitespace, 1, 8) == 8);
        assert(spec_trim(clock) =~= clock.subrange(1, 8));
    } else {
        assert(!spec_is_whitespace(clock[0]));
        assert(skip_class(clock, CharClass::Whitespace, 0) == 0);
        assert(back_class(clock, CharClass::Whitespace, 0, 8) == 8);
        assert(spec_trim(clock) =~= clock.subrange(0, 8));
        assert(spec_decimal(h) =~= seq![digit_char(h / 10), digit_char(h % 10)]);
    }
    assert(spec_timestamp(t) =~= spec_decimal(h) + seq![
        ':',
        digit_char((t.minute() / 10) as nat),
        digit_char((t.minute() % 10) as nat),
        ':',
        digit_char(((t.second() + t.nanos / 1_000_000_000) / 10) as nat),
        digit_char(((t.second() + t.nanos / 1_000_000_000) % 10) as nat),
        '.',
    ] + spec_two_digits((t.nanos / 10_000_000) as nat));
}

/// The nanoseconds that `chrono` counts from the second time to the first
/// where one of them lies in a leap second.
pub uninterp spec fn leap_elapsed(a_secs: int, a_nanos: int, b_secs: int, b_nanos: int) -> int;

/// The nanoseconds from `b` to `a`, negative where `a` comes first.
pub open spec fn elapsed(a: TimeView, b: TimeView) -> int {
    if a.is_leap_second() || b.is_leap_second() {
        leap_elapsed(a.secs, a.nanos, b.secs, b.nanos)
    } else {
        a.total_nanos() - b.total_nanos()
    }
}

/// `chrono::NaiveTime::signed_duration_since`, the duration taken in
/// nanoseconds with `TimeDelta::num_nanoseconds`. Between two times outside
/// a leap second it is the difference of their nanoseconds since midnight;
/// it is always less than two days, so the nanoseconds fit.
#[verifier::external_body]
fn chrono_since(a: Time, b: Time) -> (nanos: i64)
    ensures
        nanos == if a@.is_leap_second() || b@.is_leap_second() {
            leap_elapsed(a@.secs, a@.nanos, b@.secs, b@.nanos)
        } else {
            a@.total_nanos() - b@.total_nanos()
        },
{
    let a = NaiveTime::from_num_seconds_from_midnight_opt(a.secs, a.nanos).unwrap();
    let b = NaiveTime::from_num_seconds_from_midnight_opt(b.secs, b.nanos).unwrap();
    a.signed_duration_since(b).num_nanoseconds().unwrap()
}

/// The time that `chrono` reaches from a time within a leap second, and
/// the seconds of the whole days that it left out.
pub uninterp spec fn leap_moved(secs: int, nanos: int, delta: int) -> (TimeView, int);

/// The time `delta` nanoseconds after `t`, where `t` lies in no leap
/// second: the sum taken within the day, and the seconds of the whole days
/// left out.
pub open spec fn moved_within_day(t: TimeView, delta: int) -> (TimeView, int) {
    let total = t.total_nanos() + delta;
    let secs = total / (NANOS_PER_SECOND as int);
    let in_day = secs % (SECONDS_PER_DAY as int);
    (TimeView { secs: in_day, nanos: total % (NANOS_PER_SECOND as int) }, secs - in_day)
}

/// The time `delta` nanoseconds after `t`, taken within the day, and the
/// seconds of the whole days left out: zero where the sum stays in the day.
pub open spec fn moved(t: TimeView, delta: int) -> (TimeView, int) {
    if t.is_leap_second() {
        leap_moved(t.secs, t.nanos, delta)
    } else {
        moved_within_day(t, delta)
    }
}

/// `chrono::NaiveTime::overflowing_add_signed` with the duration that
/// `TimeDelta::nanoseconds` makes of `delta`. From a time outside a leap
/// second it adds the nanoseconds, keeps what is left after whole days, and
/// hands back the seconds of those days. What comes back is a time of day.
#[verifier::external_body]
fn chrono_shift(t: Time, delta: i64) -> (out: (Time, i64))
    ensures
        (out.0@, out.1 as int) == if t@.is_leap_second() {
            leap_moved(t@.secs, t@.nanos, delta as int)
        } else {
            moved_within_day(t@, delta as int)
        },
        out.0@.wf(),
{
    let start = NaiveTime::from_num_seconds_from_midnight_opt(t.secs, t.nanos).unwrap();
    let (time, days) = start.overflowing_add_signed(TimeDelta::nanoseconds(delta));
    (Time { secs: time.num_seconds_from_midnight(), nanos: time.nanosecond() }, days)
}

impl Time {
    /// The nanoseconds from `earlier` to `self`.
    pub fn since(&self, earlier: &Time) -> (nanos: i64)
        ensures
            nanos == elapsed(self@, earlier@),
    {
        chrono_since(*self, *earlier)
    }

    /// The time `delta` nanoseconds after `self`, or `None` where that
    /// leaves the day.
    pub fn shifted(&self, delta: i64) -> (out: Option<Time>)
        ensures
            out is Some == (moved(self@, delta as int).1 == 0),
            out matches Some(t) ==> t@ == moved(self@, delta as int).0 && t@.wf(),
    {
        let (time, days) = chrono_shift(*self, delta);
        if days == 0 {
            Some(time)
        } else {
            None
        }
    }
}

} // verus!
