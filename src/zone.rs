//! The time zone side of a conversion: absolute instants, calendar dates,
//! the offsets a zone gives a local date and time, and the rule that turns
//! those offsets into one instant.

use jiff::tz::TimeZone;
use vstd::prelude::*;

verus! {

#[verifier::external_type_specification]
#[verifier::external_body]
pub struct ExTimeZone(jiff::tz::TimeZone);

/// Largest offset from UTC, in seconds, that a zone can have (25:59:59).
pub const MAX_OFFSET_SECONDS: i32 = 93599;

/// Earliest instant, in seconds since the Unix epoch, that the time zone
/// library represents.
pub const MIN_INSTANT_SECONDS: i64 = -377705023201;

/// Latest instant, in seconds since the Unix epoch, that the time zone
/// library represents.
pub const MAX_INSTANT_SECONDS: i64 = 253402207200;

/// An absolute point in time: whole seconds since 1970-01-01T00:00:00Z.
#[derive(Clone, Copy, Debug, PartialEq, Eq, Structural)]
pub struct Instant {
    pub seconds: i64,
}

/// A calendar date in the proleptic Gregorian calendar.
#[derive(Clone, Copy, Debug, PartialEq, Eq, Structural)]
pub struct CivilDate {
    pub year: i16,
    pub month: i8,
    pub day: i8,
}

pub open spec fn is_leap_year(y: int) -> bool {
    (y % 4 == 0 && y % 100 != 0) || y % 400 == 0
}

pub open spec fn days_in_month(y: int, m: int) -> int {
    if m == 2 {
        if is_leap_year(y) {
            29
        } else {
            28
        }
    } else if m == 4 || m == 6 || m == 9 || m == 11 {
        30
    } else {
        31
    }
}

impl CivilDate {
    /// A real date within the years -9999..=9999.
    pub open spec fn wf(&self) -> bool {
        &&& -9999 <= self.year <= 9999
        &&& 1 <= self.month <= 12
        &&& 1 <= self.day <= days_in_month(self.year as int, self.month as int)
    }
}

/// The offsets (in seconds east of UTC) that a zone gives one local date
/// and time: one offset; none, because the clocks jumped over it (the
/// offsets before and after the gap); or two, because the clocks went back
/// over it (the earlier and the later offset of the fold).
#[derive(Clone, Copy, Debug, PartialEq, Eq, Structural)]
pub enum LocalOffsets {
    Unambiguous(i32),
    Gap(i32, i32),
    Fold(i32, i32),
}

pub open spec fn offset_ok(o: i32) -> bool {
    -MAX_OFFSET_SECONDS <= o <= MAX_OFFSET_SECONDS
}

impl LocalOffsets {
    pub open spec fn wf(&self) -> bool {
        match *self {
            LocalOffsets::Unambiguous(o) => offset_ok(o),
            LocalOffsets::Gap(b, a) => offset_ok(b) && offset_ok(a),
            LocalOffsets::Fold(b, a) => offset_ok(b) && offset_ok(a),
        }
    }
}

/// Why a local time could not be turned into an instant.
#[derive(Clone, Copy, Debug, PartialEq, Eq, Structural)]
pub enum ConvertError {
    /// The local time does not exist: the clocks jumped over it at a
    /// daylight saving transition.
    NonexistentLocalTime,
    /// The date lies outside the range of instants that can be represented.
    OutOfRange,
}

impl ConvertError {
    /// The message for the user; a gap is named as a daylight saving
    /// transition.
    pub open spec fn message_spec(&self) -> Seq<char> {
        match *self {
            ConvertError::NonexistentLocalTime => "the specified local time does not exist due to a DST transition"@,
            ConvertError::OutOfRange => "the date is out of the supported range"@,
        }
    }

    /// A message for the user.
    pub fn message(&self) -> (r: String)
        ensures
            r@ == self.message_spec(),
    {
        match self {
            ConvertError::NonexistentLocalTime => String::from_str(
                "the specified local time does not exist due to a DST transition",
            ),
            ConvertError::OutOfRange => String::from_str("the date is out of the supported range"),
        }
    }
}

/// The offset that a resolution uses: the only one, or in a fold the one
/// that puts the instant first (the larger offset).
pub open spec fn chosen_offset(offsets: LocalOffsets) -> int {
    match offsets {
        LocalOffsets::Unambiguous(o) => o as int,
        LocalOffsets::Fold(b, a) => if b >= a {
            b as int
        } else {
            a as int
        },
        LocalOffsets::Gap(b, _) => b as int,
    }
}

/// The instant of a local date and time, given as its seconds read as if
/// it were UTC, under the offsets that its zone gives it.
pub open spec fn resolve_spec(local_seconds: int, offsets: LocalOffsets) -> Result<int, ConvertError> {
    match offsets {
        LocalOffsets::Gap(_, _) => Err(ConvertError::NonexistentLocalTime),
        _ => Ok(local_seconds - chosen_offset(offsets)),
    }
}

pub open spec fn instant_result_view(r: Result<Instant, ConvertError>) -> Result<int, ConvertError> {
    match r {
        Ok(i) => Ok(i.seconds as int),
        Err(e) => Err(e),
    }
}

/// Resolves a local date and time (its seconds read as UTC) against the
/// offsets its zone gives it: a single offset is used; in a fold the
/// earlier of the two instants is taken; a gap is an error.
pub fn resolve_local_time(local_seconds: i64, offsets: LocalOffsets) -> (r: Result<
    Instant,
    ConvertError,
>)
    requires
        MIN_INSTANT_SECONDS <= local_seconds <= MAX_INSTANT_SECONDS,
        offsets.wf(),
    ensures
        instant_result_view(r) == resolve_spec(local_seconds as int, offsets),
{
    match offsets {
        LocalOffsets::Unambiguous(o) => Ok(Instant { seconds: local_seconds - o as i64 }),
        LocalOffsets::Fold(before, after) => {
            let o = if before >= after {
                before
            } else {
                after
            };
            Ok(Instant { seconds: local_seconds - o as i64 })
        },
        LocalOffsets::Gap(_, _) => Err(ConvertError::NonexistentLocalTime),
    }
}

/// A local time that falls in a gap of its zone is rejected with its own
/// error, never moved to a nearby time; one with an offset is always
/// resolved.
pub proof fn lemma_gap_is_rejected(local_seconds: int, offsets: LocalOffsets)
    ensures
        offsets is Gap <==> resolve_spec(local_seconds, offsets) == Err::<int, ConvertError>(
            ConvertError::NonexistentLocalTime,
        ),
        !(offsets is Gap) ==> resolve_spec(local_seconds, offsets) is Ok,
{
}

/// The seconds since the epoch of a local date and time read as if it were
/// UTC.
pub uninterp spec fn utc_seconds_of(year: int, month: int, day: int, hour: int, minute: int) -> int;

/// Relies on jiff's `Offset::to_timestamp` with the zero offset: the instant
/// at which UTC shows that date and time, if it lies within
/// `Timestamp::MIN..=Timestamp::MAX` (-377705023201..=253402207200 seconds).
/// Unix time has no leap seconds, so every day is 86400 seconds long.
#[verifier::external_body]
pub(crate) fn utc_seconds(date: CivilDate, hour: u8, minute: u8) -> (r: Option<i64>)
    requires
        date.wf(),
        hour < 24,
        minute < 60,
    ensures
        r matches Some(s) ==> {
            &&& s == utc_seconds_of(date.year as int, date.month as int, date.day as int, hour as int, minute as int)
            &&& MIN_INSTANT_SECONDS <= s <= MAX_INSTANT_SECONDS
            &&& (s - hour * 3600 - minute * 60) % 86400 == 0
        },
{
    let dt = jiff::civil::date(date.year, date.month, date.day).at(hour as i8, minute as i8, 0, 0);
    match jiff::tz::Offset::UTC.to_timestamp(dt) {
        Ok(t) => Some(t.as_second()),
        Err(_) => None,
    }
}

/// Relies on jiff's `TimeZone::to_ambiguous_timestamp`: the offsets that the
/// zone gives that local date and time, each within -25:59:59..=25:59:59.
#[verifier::external_body]
pub(crate) fn local_offsets(tz: &TimeZone, date: CivilDate, hour: u8, minute: u8) -> (r: LocalOffsets)
    requires
        date.wf(),
        hour < 24,
        minute < 60,
    ensures
        r.wf(),
{
    let dt = jiff::civil::date(date.year, date.month, date.day).at(hour as i8, minute as i8, 0, 0);
    match tz.to_ambiguous_timestamp(dt).offset() {
        jiff::tz::AmbiguousOffset::Unambiguous { offset } => LocalOffsets::Unambiguous(offset.seconds()),
        jiff::tz::AmbiguousOffset::Gap { before, after } => LocalOffsets::Gap(before.seconds(), after.seconds()),
        jiff::tz::AmbiguousOffset::Fold { before, after } => LocalOffsets::Fold(before.seconds(), after.seconds()),
    }
}

/// Relies on jiff's `Timestamp::now` and `Timestamp::to_zoned`: today's date
/// as the zone's clocks show it now (jiff's dates are always valid).
#[verifier::external_body]
pub(crate) fn today_in(tz: &TimeZone) -> (r: CivilDate)
    ensures
        r.wf(),
{
    let d = jiff::Timestamp::now().to_zoned(tz.clone()).date();
    CivilDate { year: d.year(), month: d.month(), day: d.day() }
}

/// Relies on jiff's `Timestamp::now`: the current instant, which lies within
/// `Timestamp::MIN..=Timestamp::MAX` like every timestamp.
#[verifier::external_body]
pub(crate) fn now_instant() -> (r: Instant)
    ensures
        MIN_INSTANT_SECONDS <= r.seconds <= MAX_INSTANT_SECONDS,
{
    Instant { seconds: jiff::Timestamp::now().as_second() }
}

/// Relies on jiff's `TimeZone::get`: the zone of that IANA name, when the
/// time zone database knows it.
#[verifier::external_body]
pub(crate) fn lookup_zone(name: &str) -> (r: Option<TimeZone>) {
    TimeZone::get(name).ok()
}

/// Relies on jiff's `Timestamp::strftime`: the instant as the zone's clocks
/// show it, written `YYYY-MM-DD HH:MM`; none if the instant cannot be
/// represented (`Timestamp::from_second` fails only outside
/// `Timestamp::MIN..=Timestamp::MAX`).
#[verifier::external_body]
pub(crate) fn format_local(instant: Instant, tz: &TimeZone) -> (r: Option<String>)
    ensures
        MIN_INSTANT_SECONDS <= instant.seconds <= MAX_INSTANT_SECONDS ==> r is Some,
{
    match jiff::Timestamp::from_second(instant.seconds) {
        Ok(t) => Some(t.to_zoned(tz.clone()).strftime("%Y-%m-%d %H:%M").to_string()),
        Err(_) => None,
    }
}

/// Relies on `jiff_tzdb::available`: the names of the zones bundled with the
/// time zone database (several hundred of them, never none).
#[verifier::external_body]
pub(crate) fn available_zone_names() -> (r: Vec<String>)
    ensures
        r@.len() > 0,
{
    jiff_tzdb::available().map(|n| n.to_string()).collect()
}

} // verus!
