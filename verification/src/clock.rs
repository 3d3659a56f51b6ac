//! Points in time, wall-clock readings, spans between points and time zones.
//!
//! A point in time is the number of seconds since 1970-01-01T00:00:00Z and the nanoseconds into
//! that second. Nanoseconds of one thousand million and more stand for a leap second, which is
//! counted within the second before it. Calendar and time-zone knowledge comes from `chrono` and
//! `chrono_tz`.

use chrono::{DateTime, FixedOffset, NaiveDateTime, Offset, TimeDelta, TimeZone, Timelike};
use chrono_tz::Tz;
use vstd::prelude::*;
use vstd::string::*;

use crate::date::{date_of, law_date_of, law_within_year, year_text};
use crate::text::{decimal, two_digits};

verus! {

/// The first representable second: midnight of the first day of the year -262143.
pub const FIRST_SECOND: i64 = -8_334_601_228_800;

/// The last representable second: the end of the last day of the year 262142.
pub const LAST_SECOND: i64 = 8_210_266_876_799;

/// The seconds of a day.
pub const DAY: i64 = 86_400;

/// Whether a count of seconds is representable.
pub open spec fn in_range(secs: int) -> bool {
    FIRST_SECOND <= secs <= LAST_SECOND
}

/// A point in time.
#[derive(Clone, Copy, Debug, PartialEq, Eq, Structural)]
pub struct Moment {
    /// Seconds since 1970-01-01T00:00:00Z.
    pub secs: i64,
    /// Nanoseconds into the second; from one thousand million on, into the leap second after it.
    pub nanos: u32,
}

/// What a wall clock shows: a date and a time of day without a zone.
#[derive(Clone, Copy, Debug, PartialEq, Eq, Structural)]
pub struct WallTime {
    /// Seconds since the wall clock showed 1970-01-01T00:00:00.
    pub secs: i64,
    /// Nanoseconds into the second, as in [`Moment`].
    pub nanos: u32,
}

/// A signed distance in time. Both fields have the sign of the whole.
#[derive(Clone, Copy, Debug, PartialEq, Eq, Structural)]
pub struct Span {
    /// Whole seconds, rounded towards zero.
    pub secs: i64,
    /// The remaining nanoseconds.
    pub nanos: i32,
}

impl Moment {
    /// A representable point in time.
    pub open spec fn valid(self) -> bool {
        in_range(self.secs as int) && self.nanos < 2_000_000_000
    }

    /// Whether the point lies within a leap second.
    pub open spec fn in_leap_second(self) -> bool {
        self.nanos >= 1_000_000_000
    }

    /// The nanoseconds since 1970-01-01T00:00:00Z.
    pub open spec fn total(self) -> int {
        self.secs * 1_000_000_000 + self.nanos
    }

    /// Strictly later in time.
    pub open spec fn after(self, other: Moment) -> bool {
        self.secs > other.secs || (self.secs == other.secs && self.nanos > other.nanos)
    }
}

impl WallTime {
    /// A representable wall-clock reading.
    pub open spec fn valid(self) -> bool {
        in_range(self.secs as int) && self.nanos < 2_000_000_000
    }
}

impl Span {
    /// A representable span.
    pub open spec fn valid(self) -> bool {
        &&& -9_000_000_000_000_000 <= self.secs <= 9_000_000_000_000_000
        &&& -1_000_000_000 < self.nanos < 1_000_000_000
        &&& self.secs > 0 ==> self.nanos >= 0
        &&& self.secs < 0 ==> self.nanos <= 0
    }

    /// The length in nanoseconds.
    pub open spec fn total(self) -> int {
        self.secs * 1_000_000_000 + self.nanos
    }
}

/// The distance in nanoseconds from `from` to `to`. Every minute has sixty seconds, except that a
/// leap second which `from` or `to` itself lies in is counted when the other end is on the far
/// side of it in the day.
pub open spec fn distance(to: Moment, from: Moment) -> int {
    let plain = to.total() - from.total();
    if to.secs % DAY > from.secs % DAY && from.in_leap_second() {
        plain + 1_000_000_000
    } else if to.secs % DAY < from.secs % DAY && to.in_leap_second() {
        plain - 1_000_000_000
    } else {
        plain
    }
}

/// The seconds and nanoseconds that are reached `by` nanoseconds after `at`. A leap second is
/// counted only when `at` lies in one and the step leaves it forwards.
pub open spec fn advanced(at: Moment, by: int) -> (int, int) {
    if at.in_leap_second() && -1_000_000_000 < by && at.nanos + by < 2_000_000_000 {
        (at.secs as int, at.nanos + by)
    } else {
        let total = if at.in_leap_second() && at.nanos + by >= 2_000_000_000 {
            at.total() + by - 1_000_000_000
        } else {
            at.total() + by
        };
        (total / 1_000_000_000, total % 1_000_000_000)
    }
}

/// The point in time `by` nanoseconds after `at`, if it is representable.
pub open spec fn moved(at: Moment, by: int) -> Option<Moment> {
    let (secs, nanos) = advanced(at, by);
    if in_range(secs) {
        Some(Moment { secs: secs as i64, nanos: nanos as u32 })
    } else {
        None
    }
}

/// Whether the time-zone database knows a zone of this name.
pub uninterp spec fn zone_known(name: Seq<char>) -> bool;

/// The seconds by which the wall clocks of a zone are ahead of UTC at a point in time.
pub uninterp spec fn zone_offset(zone: Seq<char>, secs: i64) -> i32;

/// What a text says in a `strftime` format: the seconds and nanoseconds of a wall-clock reading.
pub uninterp spec fn parsed_time(text: Seq<char>, format: Seq<char>) -> Option<(i64, u32)>;

/// The wall-clock reading of a point in time in a zone, in seconds.
pub open spec fn wall_secs(zone: Seq<char>, secs: i64) -> int {
    secs + zone_offset(zone, secs)
}

/// Whether a second is the only representable one at which the wall clocks of a zone show a
/// reading.
pub open spec fn only_reading(zone: Seq<char>, secs: i64, wall: i64) -> bool {
    &&& in_range(secs as int)
    &&& wall_secs(zone, secs) == wall
    &&& forall|other: i64|
        in_range(other as int) && #[trigger] wall_secs(zone, other) == wall ==> other == secs
}

/// Whether the wall clocks of a zone show a reading at exactly one representable second.
pub open spec fn shown_once(zone: Seq<char>, wall: i64) -> bool {
    exists|secs: i64| only_reading(zone, secs, wall)
}

/// The one representable second at which the wall clocks of a zone show a reading; `None` where
/// they never show it and where they show it more than once.
pub open spec fn zone_instant(zone: Seq<char>, wall: i64) -> Option<i64> {
    if shown_once(zone, wall) {
        Some(choose|secs: i64| only_reading(zone, secs, wall))
    } else {
        None
    }
}

/// A reading stands for a second exactly if that second is the only one at which the wall clocks
/// of the zone show it. So a reading that they show once always stands for a second.
pub proof fn law_instant_is_only_reading(zone: Seq<char>, secs: i64, wall: i64)
    ensures
        zone_instant(zone, wall) == Some(secs) <==> only_reading(zone, secs, wall),
{
}

/// Hour and minute of a second of the day: the hour without a leading zero, a colon, and the
/// minute in two digits.
pub open spec fn hour_minute(second: int) -> Seq<char> {
    decimal((second / 3600) as nat) + seq![':'] + two_digits(second / 60 % 60)
}

/// Hour, minute and second of a second of the day in two digits each, with colons between. Within
/// a leap second the second is one higher.
pub open spec fn hour_minute_second(second: int, nanos: int) -> Seq<char> {
    two_digits(second / 3600) + seq![':'] + two_digits(second / 60 % 60) + seq![':'] + two_digits(
        second % 60 + nanos / 1_000_000_000,
    )
}

/// A wall-clock reading in digits: the date, a `T`, and hour, minute and second. Within a leap
/// second the second is one higher.
pub open spec fn basic_stamp(wall: int, nanos: int) -> Seq<char> {
    let date = date_of(wall / 86_400);
    let second = wall % 86_400;
    year_text(date.year) + two_digits(date.month) + two_digits(date.day) + seq!['T'] + two_digits(
        second / 3600,
    ) + two_digits(second / 60 % 60) + two_digits(second % 60 + nanos / 1_000_000_000)
}

/// A wall-clock reading: the date with dashes, a blank, and hour, minute and second with colons.
pub open spec fn dashed_stamp(wall: int, nanos: int) -> Seq<char> {
    let date = date_of(wall / 86_400);
    year_text(date.year) + seq!['-'] + two_digits(date.month) + seq!['-'] + two_digits(date.day)
        + seq![' '] + hour_minute_second(wall % 86_400, nanos)
}

/// Whether a wall-clock reading is in a year of at most four digits and is a whole second or the
/// start of a leap second after the last second of a minute.
pub open spec fn plain_reading(secs: i64, nanos: u32) -> bool {
    &&& in_range(secs as int)
    &&& 0 <= date_of(secs as int / 86_400).year <= 9999
    &&& nanos == 0 || (nanos == 1_000_000_000 && secs % 60 == 59)
}

/// Whether a text in digits is read in the form `%Y%m%dT%H%M%S` as what it was written for.
pub open spec fn reads_back(text: Seq<char>) -> bool {
    forall|secs: i64, nanos: u32|
        plain_reading(secs, nanos) && text == #[trigger] basic_stamp(secs as int, nanos as int)
            ==> parsed_time(text, "%Y%m%dT%H%M%S"@) == Some((secs, nanos))
}

/// The `FromStr` impl of `chrono_tz::Tz`: it succeeds on the names of the zones in the database
/// that the crate carries. Which names these are is left unsaid.
#[verifier::external_body]
fn is_zone_name(name: &str) -> (known: bool)
    ensures
        known == zone_known(name@),
{
    name.parse::<Tz>().is_ok()
}

/// `DateTime::with_timezone` with a `chrono_tz::Tz`: the offset that it looks up is a function of
/// the zone and of the seconds, and is less than a day. The zone's rules are left unsaid.
#[verifier::external_body]
fn offset_in_zone(zone: &str, at: Moment) -> (offset: i32)
    requires
        zone_known(zone@),
        at.valid(),
    ensures
        offset == zone_offset(zone@, at.secs),
        -86_400 < offset < 86_400,
{
    let tz: Tz = zone.parse().unwrap();
    let utc = DateTime::from_timestamp(at.secs, 0).unwrap().naive_utc();
    let utc = utc.with_nanosecond(at.nanos).unwrap().and_utc();
    utc.with_timezone(&tz).offset().fix().local_minus_utc()
}

/// `TimeZone::from_local_datetime` of `chrono_tz::Tz`, where it gives a single result: that
/// result keeps the nanoseconds and is the only representable second that reads as `wall` on the
/// wall clocks of the zone. Where it gives none or two, there is no such second.
#[verifier::external_body]
fn single_in_zone(zone: &str, wall: WallTime) -> (at: Option<Moment>)
    requires
        zone_known(zone@),
        wall.valid(),
    ensures
        at matches Some(m) ==> m.nanos == wall.nanos && only_reading(zone@, m.secs, wall.secs),
        at is None ==> !shown_once(zone@, wall.secs),
{
    let tz: Tz = zone.parse().unwrap();
    let local = DateTime::from_timestamp(wall.secs, 0).unwrap().naive_utc();
    let local = local.with_nanosecond(wall.nanos).unwrap();
    let single = tz.from_local_datetime(&local).single();
    single.map(|t| Moment { secs: t.timestamp(), nanos: t.timestamp_subsec_nanos() })
}

/// `NaiveDateTime::parse_from_str`: what it reads is a function of the text and of the format, and
/// is representable. In the form `%Y%m%dT%H%M%S` it reads what [`basic_stamp`] writes. Which other
/// texts a format accepts is left unsaid.
#[verifier::external_body]
pub(crate) fn parse_time(text: &str, format: &str) -> (wall: Option<WallTime>)
    ensures
        match parsed_time(text@, format@) {
            Some((secs, nanos)) => wall == Some(WallTime { secs, nanos }),
            None => wall is None,
        },
        wall matches Some(w) ==> w.valid(),
        format@ == "%Y%m%dT%H%M%S"@ ==> forall|secs: i64, nanos: u32|
            plain_reading(secs, nanos) && text@ == #[trigger] basic_stamp(
                secs as int,
                nanos as int,
            ) ==> wall == Some(WallTime { secs, nanos }),
{
    let parsed = NaiveDateTime::parse_from_str(text, format).ok()?.and_utc();
    Some(WallTime { secs: parsed.timestamp(), nanos: parsed.timestamp_subsec_nanos() })
}

/// `DateTime::format`: in each of the four formats, the text gives the date and the time of day
/// that wall clocks `offset` seconds ahead of UTC show.
#[verifier::external_body]
pub(crate) fn format_time(at: Moment, offset: i32, format: &str) -> (text: String)
    requires
        at.valid(),
        -86_400 < offset < 86_400,
        format@ == "%Y%m%dT%H%M%SZ"@ || format@ == "%Y-%m-%d %H:%M:%S"@ || format@ == "%-H:%M"@
            || format@ == "%H:%M:%S"@,
    ensures
        format@ == "%Y%m%dT%H%M%SZ"@ ==> text@ == basic_stamp(
            at.secs + offset,
            at.nanos as int,
        ) + "Z"@,
        format@ == "%Y-%m-%d %H:%M:%S"@ ==> text@ == dashed_stamp(
            at.secs + offset,
            at.nanos as int,
        ),
        format@ == "%-H:%M"@ ==> text@ == hour_minute((at.secs + offset) % 86_400),
        format@ == "%H:%M:%S"@ ==> text@ == hour_minute_second(
            (at.secs + offset) % 86_400,
            at.nanos as int,
        ),
{
    let utc = DateTime::from_timestamp(at.secs, 0).unwrap().naive_utc();
    let utc = utc.with_nanosecond(at.nanos).unwrap().and_utc();
    utc.with_timezone(&FixedOffset::east_opt(offset).unwrap()).format(format).to_string()
}

/// `DateTime::signed_duration_since`, which is what `-` between two `DateTime`s calls: the result
/// has the length that [`distance`] gives.
#[verifier::external_body]
fn signed_duration_since(to: Moment, from: Moment) -> (span: Span)
    requires
        to.valid(),
        from.valid(),
    ensures
        span.valid(),
        span.total() == distance(to, from),
{
    let a = DateTime::from_timestamp(to.secs, 0).unwrap().naive_utc();
    let b = DateTime::from_timestamp(from.secs, 0).unwrap().naive_utc();
    let a = a.with_nanosecond(to.nanos).unwrap().and_utc();
    let b = b.with_nanosecond(from.nanos).unwrap().and_utc();
    let delta = a.signed_duration_since(b);
    Span { secs: delta.num_seconds(), nanos: delta.subsec_nanos() }
}

/// `DateTime::checked_add_signed`, which is what `+` between a `DateTime` and a `TimeDelta` calls:
/// the result is the point that [`moved`] gives. The span is given as whole seconds, rounded
/// down, and the nanoseconds after them.
#[verifier::external_body]
fn checked_add_signed(at: Moment, secs: i64, nanos: u32) -> (sum: Option<Moment>)
    requires
        at.valid(),
        -9_000_000_000_000_001 <= secs <= 9_000_000_000_000_000,
        nanos < 1_000_000_000,
    ensures
        sum == moved(at, secs * 1_000_000_000 + nanos),
{
    let utc = DateTime::from_timestamp(at.secs, 0).unwrap().naive_utc();
    let utc = utc.with_nanosecond(at.nanos).unwrap().and_utc();
    let sum = utc.checked_add_signed(TimeDelta::new(secs, nanos).unwrap())?;
    Some(Moment { secs: sum.timestamp(), nanos: sum.timestamp_subsec_nanos() })
}

impl Moment {
    /// A point in time, if it is representable.
    pub fn new(secs: i64, nanos: u32) -> (r: Option<Moment>)
        ensures
            r is Some <==> (Moment { secs, nanos }).valid(),
            r matches Some(at) ==> at.secs == secs && at.nanos == nanos,
    {
        if FIRST_SECOND <= secs && secs <= LAST_SECOND && nanos < 2_000_000_000 {
            Some(Moment { secs, nanos })
        } else {
            None
        }
    }

    /// Whether this point is strictly later than another.
    pub fn is_after(self, other: Moment) -> (r: bool)
        ensures
            r == self.after(other),
    {
        self.secs > other.secs || (self.secs == other.secs && self.nanos > other.nanos)
    }

    /// The span from an earlier point to this one; negative if that point is later.
    pub fn since(self, other: Moment) -> (r: Span)
        requires
            self.valid(),
            other.valid(),
        ensures
            r.valid(),
            r.total() == distance(self, other),
    {
        signed_duration_since(self, other)
    }

    /// The point that lies a span after this one, if it is representable.
    pub fn checked_add(self, span: Span) -> (r: Option<Moment>)
        requires
            self.valid(),
            span.valid(),
        ensures
            r == moved(self, span.total()),
            r matches Some(m) ==> m.valid(),
    {
        if span.nanos < 0 {
            checked_add_signed(self, span.secs - 1, (span.nanos + 1_000_000_000) as u32)
        } else {
            checked_add_signed(self, span.secs, span.nanos as u32)
        }
    }
}

impl Span {
    /// Twenty-four hours.
    pub fn one_day() -> (r: Span)
        ensures
            r.valid(),
            r.total() == DAY * 1_000_000_000,
            r.total() == 86_400_000_000_000,
    {
        Span { secs: DAY, nanos: 0 }
    }

    /// The whole minutes of a span, rounded towards zero.
    pub fn num_minutes(self) -> (r: i64)
        requires
            self.valid(),
        ensures
            self.total() >= 0 ==> r == self.total() / 60_000_000_000,
            self.total() < 0 ==> r == -((-self.total()) / 60_000_000_000),
    {
        if self.secs >= 0 {
            self.secs / 60
        } else {
            -(-self.secs / 60)
        }
    }
}

/// A point reached by moving is as far away as it was moved. Where the start lies in a leap second
/// and the move leaves it, this needs the end to be later in the day exactly if it is later.
pub proof fn law_moved_distance(at: Moment, by: int)
    requires
        at.valid(),
        moved(at, by) is Some,
        at.in_leap_second() && (moved(at, by)->0).secs != at.secs ==> ((by > 0) <==> (moved(
            at,
            by,
        )->0).secs % DAY > at.secs % DAY),
    ensures
        distance(moved(at, by)->0, at) == by,
{
}

/// A point in time is later than another exactly if its second is later, or if the second is the
/// same and more of it has passed. Leap seconds aside, it is later exactly if more nanoseconds have
/// passed since 1970-01-01T00:00:00Z.
pub proof fn law_after(a: Moment, b: Moment)
    ensures
        a.secs > b.secs ==> a.after(b),
        a.secs < b.secs ==> !a.after(b),
        a.secs == b.secs ==> (a.after(b) <==> a.nanos > b.nanos),
        a.nanos < 1_000_000_000 && b.nanos < 1_000_000_000 ==> (a.after(b) <==> a.secs
            * 1_000_000_000 + a.nanos > b.secs * 1_000_000_000 + b.nanos),
{
}

/// The hour and the minute of a time of day are written as they are, whatever the second is.
pub proof fn law_hour_minute(hour: int, minute: int, second: int, nanos: int)
    requires
        0 <= hour < 24,
        0 <= minute < 60,
        0 <= second < 60,
        0 <= nanos < 2_000_000_000,
    ensures
        hour_minute(3600 * hour + 60 * minute + second) == decimal(hour as nat) + seq![':']
            + two_digits(minute),
        hour_minute_second(3600 * hour + 60 * minute + second, nanos) == two_digits(hour) + seq![
            ':',
        ] + two_digits(minute) + seq![':'] + two_digits(
            if nanos < 1_000_000_000 {
                second
            } else {
                second + 1
            },
        ),
{
    let total = 3600 * hour + 60 * minute + second;
    assert(total / 3600 == hour);
    assert(total / 60 % 60 == minute);
    assert(total % 60 == second);
}

/// Of two points in time exactly one is later, unless they are the same; and later is transitive.
pub proof fn law_after_is_total_order(a: Moment, b: Moment, c: Moment)
    ensures
        a.after(b) ==> !b.after(a),
        a == b || a.after(b) || b.after(a),
        a.after(b) && b.after(c) ==> a.after(c),
{
}

/// The representable seconds are those of the years -262143 to 262142.
pub proof fn law_range_in_years(secs: int)
    ensures
        in_range(secs) <==> -262_143 <= date_of(secs / 86_400).year <= 262_142,
{
    let date = date_of(secs / 86_400);
    law_date_of(secs / 86_400, date);
    law_within_year(date);
}

/// Different readings in years of at most four digits are written differently in digits.
pub proof fn law_basic_stamp_distinct(a: i64, a_nanos: u32, b: i64, b_nanos: u32)
    requires
        plain_reading(a, a_nanos),
        plain_reading(b, b_nanos),
        basic_stamp(a as int, a_nanos as int) == basic_stamp(b as int, b_nanos as int),
    ensures
        a == b,
        a_nanos == b_nanos,
{
    lemma_basic_stamp_chars(a, a_nanos);
    lemma_basic_stamp_chars(b, b_nanos);
    lemma_parts(a as int, a_nanos as int, b as int, b_nanos as int);
}

/// Date, hour, minute and second make up a reading.
proof fn lemma_parts(a: int, a_nanos: int, b: int, b_nanos: int)
    requires
        date_of(a / 86_400) == date_of(b / 86_400),
        a % 86_400 / 3600 == b % 86_400 / 3600,
        a % 86_400 / 60 % 60 == b % 86_400 / 60 % 60,
        a % 86_400 % 60 + a_nanos / 1_000_000_000 == b % 86_400 % 60 + b_nanos / 1_000_000_000,
        a_nanos == 0 || (a_nanos == 1_000_000_000 && a % 60 == 59),
        b_nanos == 0 || (b_nanos == 1_000_000_000 && b % 60 == 59),
    ensures
        a == b,
        a_nanos == b_nanos,
{
    law_date_of(a / 86_400, date_of(a / 86_400));
    law_date_of(b / 86_400, date_of(b / 86_400));
    assert(a / 86_400 == b / 86_400);
    assert(a % 86_400 % 60 == a % 60);
    assert(b % 86_400 % 60 == b % 60);
}

/// Which characters stand where in a reading in digits.
proof fn lemma_basic_stamp_chars(secs: i64, nanos: u32)
    requires
        plain_reading(secs, nanos),
    ensures
        ({
            let s = basic_stamp(secs as int, nanos as int);
            let date = date_of(secs as int / 86_400);
            let second = secs as int % 86_400;
            &&& s.len() == 15
            &&& value(s, 0) * 100 + value(s, 2) == date.year
            &&& value(s, 4) == date.month
            &&& value(s, 6) == date.day
            &&& value(s, 9) == second / 3600
            &&& value(s, 11) == second / 60 % 60
            &&& value(s, 13) == second % 60 + nanos / 1_000_000_000
        }),
{
    let date = date_of(secs as int / 86_400);
    law_date_of(secs as int / 86_400, date);
}

/// The number that two digits of a text stand for.
spec fn value(s: Seq<char>, at: int) -> int {
    (s[at] as int - 48) * 10 + (s[at + 1] as int - 48)
}

/// The day that a second falls on, counted from 1970-01-01.
pub fn day_of(secs: i64) -> (r: i64)
    ensures
        r == secs as int / DAY as int,
{
    secs.checked_div_euclid(DAY).unwrap()
}

/// The second of the day that a second is.
pub fn second_of_day(secs: i64) -> (r: i64)
    ensures
        r == secs as int % DAY as int,
        0 <= r < DAY,
{
    secs.checked_rem_euclid(DAY).unwrap()
}

/// A time zone that the time-zone database knows.
#[derive(Debug)]
pub struct Zone {
    name: String,
}

impl View for Zone {
    type V = Seq<char>;

    closed spec fn view(&self) -> Seq<char> {
        self.name@
    }
}

impl Zone {
    #[verifier::type_invariant]
    spec fn known(self) -> bool {
        zone_known(self.name@)
    }

    /// The zone of a name, if the database knows it.
    pub fn parse(name: &str) -> (r: Option<Zone>)
        ensures
            r is Some <==> zone_known(name@),
            r matches Some(zone) ==> zone@ == name@,
    {
        if is_zone_name(name) {
            Some(Zone { name: name.to_owned() })
        } else {
            None
        }
    }

    /// The name of the zone.
    pub fn name(&self) -> (r: &str)
        ensures
            r@ == self@,
            zone_known(r@),
    {
        proof {
            use_type_invariant(self);
        }
        self.name.as_str()
    }

    /// The seconds by which the wall clocks of the zone are ahead of UTC at a point in time.
    pub fn offset_at(&self, at: Moment) -> (r: i32)
        requires
            at.valid(),
        ensures
            r == zone_offset(self@, at.secs),
            -86_400 < r < 86_400,
    {
        proof {
            use_type_invariant(self);
        }
        offset_in_zone(self.name.as_str(), at)
    }

    /// The one point in time at which the wall clocks of the zone show a reading. There is one
    /// exactly if they show it once.
    pub fn single(&self, wall: WallTime) -> (r: Option<Moment>)
        requires
            wall.valid(),
        ensures
            match zone_instant(self@, wall.secs) {
                Some(secs) => r == Some(Moment { secs, nanos: wall.nanos }),
                None => r is None,
            },
            r is Some <==> shown_once(self@, wall.secs),
            r matches Some(at) ==> at.valid() && only_reading(self@, at.secs, wall.secs),
    {
        proof {
            use_type_invariant(self);
        }
        let single = single_in_zone(self.name.as_str(), wall);
        proof {
            if let Some(at) = single {
                law_instant_is_only_reading(self@, at.secs, wall.secs);
            }
        }
        single
    }
}

} // verus!
