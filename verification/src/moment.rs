//! Moments in time: reading the clock, writing a moment down, and measuring an age.
use crate::text::{signed_decimal, signed_decimal_text};
use chrono::{DateTime, FixedOffset, Local, SecondsFormat};
use vstd::prelude::*;

verus! {

/// The first second that has a calendar date.
pub const EARLIEST: i64 = -8334601228800;

/// The last second that has a calendar date.
pub const LATEST: i64 = 8210266876799;

/// A moment: seconds and nanoseconds since the start of 1970 in UTC, and how many seconds the
/// local clock is ahead of UTC. A leap second is the second before it with a thousand million
/// nanoseconds or more.
#[derive(Clone, Copy, Debug, PartialEq, Eq, Structural)]
pub struct Moment {
    pub secs: i64,
    pub nanos: u32,
    pub offset_secs: i32,
}

impl Moment {
    /// Whether the fields name a moment.
    pub open spec fn valid(self) -> bool {
        &&& EARLIEST <= self.secs <= LATEST
        &&& self.nanos < 2_000_000_000
        &&& self.nanos >= 1_000_000_000 ==> self.secs % 60 == 59
        &&& -86400 < self.offset_secs < 86400
    }

    /// Whether the moment has a date on the local calendar.
    pub open spec fn dated(self) -> bool {
        EARLIEST <= self.secs + self.offset_secs <= LATEST
    }

    /// Whether the fields name a moment.
    pub fn is_valid(&self) -> (res: bool)
        ensures
            res == self.valid(),
    {
        if !(EARLIEST <= self.secs && self.secs <= LATEST) {
            return false;
        }
        // A remainder that is never negative.
        let far: i64 = self.secs + 8334601228800;
        self.nanos < 2_000_000_000 && (self.nanos < 1_000_000_000 || far % 60 == 59) && -86400
            < self.offset_secs && self.offset_secs < 86400
    }

    /// Whether the moment has a date on the local calendar.
    pub fn is_dated(&self) -> (res: bool)
        requires
            self.valid(),
        ensures
            res == self.dated(),
    {
        let local: i64 = self.secs + self.offset_secs as i64;
        EARLIEST <= local && local <= LATEST
    }
}

/// Reads the clock with `chrono::Local::now`. Whatever it shows, the fields name a moment and
/// no leap second. Which moment it is depends on the machine; a clock set before 1970 stops the
/// program there.
#[verifier::external_body]
pub(crate) fn local_now() -> (res: Moment)
    ensures
        res.valid(),
        res.nanos < 1_000_000_000,
{
    let now = Local::now();
    Moment {
        secs: now.timestamp(),
        nanos: now.timestamp_subsec_nanos(),
        offset_secs: now.offset().local_minus_utc(),
    }
}

/// Whether the clock showed `moment`: a call of the function that reads it gave that moment.
pub closed spec fn is_reading(moment: Moment) -> bool {
    call_ensures(local_now, (), moment)
}

/// Read the clock.
pub fn read_clock() -> (res: Moment)
    ensures
        is_reading(res),
        res.valid(),
        res.nanos < 1_000_000_000,
{
    let clock = local_now;
    clock()
}

/// A reading of the clock is nothing but what the clock gave: no other moment passes for one.
pub(crate) proof fn reading_comes_from_the_clock(moment: Moment)
    requires
        is_reading(moment),
    ensures
        call_ensures(local_now, (), moment),
        moment.valid(),
{
}

/// What `chrono::DateTime::to_rfc3339_opts` writes for a moment, to the second and with the
/// offset in digits.
pub uninterp spec fn rfc3339(secs: i64, nanos: u32, offset_secs: i32) -> Seq<char>;

/// Whether `c` is a decimal digit.
pub open spec fn is_digit(c: char) -> bool {
    '0' <= c <= '9'
}

/// Whether `s` reads as a year: four digits, or a sign and at least four digits.
pub open spec fn year_shape(s: Seq<char>) -> bool {
    ||| s.len() == 4 && forall|i: int| 0 <= i < 4 ==> is_digit(#[trigger] s[i])
    ||| s.len() >= 5 && (s[0] == '+' || s[0] == '-') && forall|i: int|
        1 <= i < s.len() ==> is_digit(#[trigger] s[i])
}

/// Whether `s` reads `-MM-DDThh:mm:ss+hh:mm`, with either sign before the offset.
pub open spec fn day_shape(s: Seq<char>) -> bool {
    &&& s.len() == 21
    &&& s[0] == '-' && is_digit(s[1]) && is_digit(s[2])
    &&& s[3] == '-' && is_digit(s[4]) && is_digit(s[5])
    &&& s[6] == 'T' && is_digit(s[7]) && is_digit(s[8])
    &&& s[9] == ':' && is_digit(s[10]) && is_digit(s[11])
    &&& s[12] == ':' && is_digit(s[13]) && is_digit(s[14])
    &&& (s[15] == '+' || s[15] == '-') && is_digit(s[16]) && is_digit(s[17])
    &&& s[18] == ':' && is_digit(s[19]) && is_digit(s[20])
}

/// Whether `s` reads as an RFC 3339 time to the second.
pub open spec fn stamp_shape(s: Seq<char>) -> bool {
    &&& s.len() >= 25
    &&& year_shape(s.take(s.len() - 21))
    &&& day_shape(s.skip(s.len() - 21))
}

/// Calls `chrono::DateTime::to_rfc3339_opts` on the moment, to the second and with the offset in
/// digits: the text depends on the moment alone and has the shape of such a time. The year has a
/// sign where it is not of four digits.
#[verifier::external_body]
pub(crate) fn rfc3339_text(moment: Moment) -> (res: String)
    requires
        moment.valid(),
        moment.dated(),
    ensures
        res@ == rfc3339(moment.secs, moment.nanos, moment.offset_secs),
        stamp_shape(res@),
{
    let zone = FixedOffset::east_opt(moment.offset_secs).unwrap();
    let utc = DateTime::from_timestamp(moment.secs, moment.nanos).unwrap();
    utc.with_timezone(&zone).to_rfc3339_opts(SecondsFormat::Secs, false)
}

/// The second of the day, in UTC.
pub open spec fn day_second(moment: Moment) -> int {
    moment.secs as int % 86400
}

/// The leap second that the count of seconds from `earlier` to `later` leaves out.
pub open spec fn leap(later: Moment, earlier: Moment) -> int {
    if day_second(later) > day_second(earlier) && earlier.nanos >= 1_000_000_000 {
        1
    } else if day_second(later) < day_second(earlier) && later.nanos >= 1_000_000_000 {
        -1
    } else {
        0
    }
}

/// The nanoseconds from `earlier` to `later`.
pub open spec fn nanos_between(later: Moment, earlier: Moment) -> int {
    (later.secs - earlier.secs + leap(later, earlier)) * 1_000_000_000 + (later.nanos
        - earlier.nanos)
}

/// The whole seconds in `nanos`, with the fraction cut off towards zero.
pub open spec fn whole_seconds(nanos: int) -> int {
    if nanos >= 0 {
        nanos / 1_000_000_000
    } else {
        -((-nanos) / 1_000_000_000)
    }
}

/// Calls `chrono::DateTime::signed_duration_since` and `chrono::TimeDelta::num_seconds`: the whole
/// seconds from `earlier` to `later`, negative where `later` comes first.
#[verifier::external_body]
pub(crate) fn seconds_between(later: Moment, earlier: Moment) -> (res: i64)
    requires
        later.valid(),
        earlier.valid(),
    ensures
        res == whole_seconds(nanos_between(later, earlier)),
{
    let end = DateTime::from_timestamp(later.secs, later.nanos).unwrap();
    let start = DateTime::from_timestamp(earlier.secs, earlier.nanos).unwrap();
    end.signed_duration_since(start).num_seconds()
}

/// An age in the largest unit of which it holds one, and "ago".
pub open spec fn age(secs: int) -> Seq<char> {
    if secs < 60 {
        signed_decimal(secs) + "s ago"@
    } else if secs < 3600 {
        signed_decimal(secs / 60) + "m ago"@
    } else if secs < 86400 {
        signed_decimal(secs / 3600) + "h ago"@
    } else {
        signed_decimal(secs / 86400) + "d ago"@
    }
}

/// An age of `secs` seconds, as text.
pub fn age_text(secs: i64) -> (res: String)
    ensures
        res@ == age(secs as int),
{
    if secs < 60 {
        signed_decimal_text(secs).concat("s ago")
    } else if secs < 3600 {
        signed_decimal_text(secs / 60).concat("m ago")
    } else if secs < 86400 {
        signed_decimal_text(secs / 3600).concat("h ago")
    } else {
        signed_decimal_text(secs / 86400).concat("d ago")
    }
}

/// How long before `now` the moment `created` was.
pub fn age_at(now: Moment, created: Moment) -> (res: String)
    requires
        now.valid(),
        created.valid(),
    ensures
        res@ == age(whole_seconds(nanos_between(now, created))),
{
    age_text(seconds_between(now, created))
}

/// How long ago `created` was, by the clock.
pub fn format_age(created: Moment) -> (res: String)
    requires
        created.valid(),
    ensures
        exists|now: Moment|
            now.valid() && res@ == #[trigger] age(
                whole_seconds(nanos_between(now, created)),
            ),
        exists|now: Moment| #[trigger]
            is_reading(now) && res@ == age(whole_seconds(nanos_between(now, created))),
{
    let now = read_clock();
    age_at(now, created)
}

/// The time suffix for a shadow made at `now`: the RFC 3339 time, or nothing where the local
/// calendar has no date for that moment.
pub fn stamp_at(now: Moment) -> (res: Option<String>)
    requires
        now.valid(),
    ensures
        match res {
            Some(text) => now.dated() && text@ == rfc3339(now.secs, now.nanos, now.offset_secs)
                && stamp_shape(text@),
            None => !now.dated(),
        },
{
    if now.is_dated() {
        Some(rfc3339_text(now))
    } else {
        None
    }
}

/// A time suffix is ASCII and holds no slash, so that it adds no directory to a path.
pub proof fn stamp_is_one_name(s: Seq<char>)
    requires
        stamp_shape(s),
    ensures
        forall|i: int| 0 <= i < s.len() ==> s[i] != '/' && (#[trigger] s[i] as u32) < 128,
{
    let n = s.len() - 21;
    assert forall|i: int| 0 <= i < s.len() implies s[i] != '/' && (#[trigger] s[i] as u32)
        < 128 by {
        if i < n {
            assert(s.take(n)[i] == s[i]);
        } else {
            let day = s.skip(n);
            assert(day[i - n] == s[i]);
        }
    }
}

/// An age is told in days where it is a day or more, else in hours where it is an hour or more, else in
/// minutes where it is a minute or more, else in seconds; what is left over is not told.
pub proof fn age_is_whole_units(secs: int, n: int)
    ensures
        secs < 60 ==> age(secs) == signed_decimal(secs) + "s ago"@,
        60 <= secs < 60 * 60 && n * 60 <= secs < (n + 1) * 60 ==> age(secs) == signed_decimal(n)
            + "m ago"@,
        60 * 60 <= secs < 24 * 60 * 60 && n * 60 * 60 <= secs < (n + 1) * 60 * 60 ==> age(secs)
            == signed_decimal(n) + "h ago"@,
        24 * 60 * 60 <= secs && n * 24 * 60 * 60 <= secs < (n + 1) * 24 * 60 * 60 ==> age(secs)
            == signed_decimal(n) + "d ago"@,
{
}

/// Between two moments that are no leap seconds lies what their clocks differ by, in whichever zones
/// they were read; the whole seconds leave out the fraction, before and after.
pub proof fn time_between_is_the_difference(later: Moment, earlier: Moment, n: int, rest: int)
    requires
        later.nanos < 1_000_000_000,
        earlier.nanos < 1_000_000_000,
        0 <= rest < 1_000_000_000,
    ensures
        nanos_between(later, earlier) == (later.secs * 1_000_000_000 + later.nanos) - (earlier.secs
            * 1_000_000_000 + earlier.nanos),
        nanos_between(earlier, later) == -nanos_between(later, earlier),
        n >= 0 ==> whole_seconds(n * 1_000_000_000 + rest) == n,
        n >= 0 ==> whole_seconds(-(n * 1_000_000_000 + rest)) == -n,
{
}

/// A moment has a date on the local calendar where its second, ahead by the offset, is one of those
/// that have a date; the fields name a moment where they are within their bounds.
pub proof fn moments_have_bounds(moment: Moment)
    ensures
        moment.dated() <==> -8334601228800 <= moment.secs + moment.offset_secs <= 8210266876799,
        moment.valid() <==> -8334601228800 <= moment.secs <= 8210266876799 && -86400
            < moment.offset_secs < 86400 && (moment.nanos < 1_000_000_000 || (moment.nanos
            < 2_000_000_000 && moment.secs as int % 60 == 59)),
{
}

} // verus!
