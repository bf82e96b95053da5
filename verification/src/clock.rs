//! Calendar and instant arithmetic delegated to `jiff`, behind small
//! trusted wrappers whose contracts say what `jiff` documents.

use vstd::prelude::*;

verus! {

/// The range of whole Unix seconds `jiff::Timestamp` accepts
/// (`Timestamp::MIN` is -009999-01-02T01:59:59Z, `Timestamp::MAX` is
/// 9999-12-30T22:00:00Z, leaving room for any UTC offset).
pub open spec fn timestamp_seconds_in_range(secs: int) -> bool {
    -377705023201 <= secs <= 253402207200
}

/// `jiff::Timestamp::from_second`: accepts `secs` iff it lies within
/// the timestamp range and then represents exactly that second; the
/// error text is `jiff`'s own.
#[verifier::external_body]
pub(crate) fn timestamp_from_second(secs: i64) -> (r: Result<i64, String>)
    ensures
        r is Ok <==> timestamp_seconds_in_range(secs as int),
        r matches Ok(v) ==> v == secs,
{
    match jiff::Timestamp::from_second(secs) {
        Ok(ts) => Ok(ts.as_second()),
        Err(e) => Err(e.to_string()),
    }
}


/// Whether `year` is a leap year in the proleptic Gregorian calendar.
pub open spec fn is_leap_year(year: int) -> bool {
    (year % 4 == 0 && year % 100 != 0) || year % 400 == 0
}

/// Number of days in `month` of `year`.
pub open spec fn days_in_month(year: int, month: int) -> int {
    if month == 2 {
        if is_leap_year(year) { 29 } else { 28 }
    } else if month == 4 || month == 6 || month == 9 || month == 11 {
        30
    } else {
        31
    }
}

/// The fields `jiff::civil::DateTime::new` accepts: year -9999..=9999,
/// month 1..=12, a day that exists in that month, hour 0..=23, minute
/// and second 0..=59 (no leap seconds), nanosecond 0..=999_999_999.
pub open spec fn utc_civil_valid(year: int, month: int, day: int, hour: int, minute: int, second: int, nanos: int) -> bool {
    &&& -9999 <= year <= 9999
    &&& 1 <= month <= 12
    &&& 1 <= day <= days_in_month(year, month)
    &&& 0 <= hour <= 23
    &&& 0 <= minute <= 59
    &&& 0 <= second <= 59
    &&& 0 <= nanos <= 999_999_999
}

/// Days from 1970-01-01 to a date of the proleptic Gregorian calendar
/// (negative before it), counted by 400-year eras of 146097 days with
/// the year taken to start in March.
pub open spec fn days_from_civil(year: int, month: int, day: int) -> int {
    let y = if month <= 2 { year - 1 } else { year };
    let era = y / 400;
    let yoe = y - era * 400;
    let mp = if month > 2 { month - 3 } else { month + 9 };
    let doy = (153 * mp + 2) / 5 + day - 1;
    let doe = yoe * 365 + yoe / 4 - yoe / 100 + doy;
    era * 146097 + doe - 719468
}

/// The Unix second at which a UTC civil time begins.
pub open spec fn civil_seconds(year: int, month: int, day: int, hour: int, minute: int, second: int) -> int {
    days_from_civil(year, month, day) * 86400 + hour * 3600 + minute * 60 + second
}

/// What `jiff::civil::DateTime::new(..).to_zoned(TimeZone::UTC)` gives
/// for these fields: the Unix second at which that UTC civil time
/// begins, or `jiff`'s error text.
pub uninterp spec fn civil_utc(year: int, month: int, day: int, hour: int, minute: int, second: int, nanos: int) -> Result<int, Seq<char>>;

/// A UTC instant: whole Unix seconds plus the nanoseconds into that
/// second.
#[derive(Debug, Clone, Copy, PartialEq, Eq)]
pub struct UtcInstant {
    pub secs: i64,
    pub nanos: i32,
}

/// `jiff::civil::DateTime::new(..)` followed by `.to_zoned(TimeZone::UTC)`:
/// the instant of a UTC civil date and time, or the error `jiff` gives.
/// It succeeds when the fields form a valid civil date and time whose
/// instant lies in the timestamp range, and only then; years
/// 1970..=2999 lie well inside that range. From 1970 on, and for whole
/// seconds, `jiff`'s whole seconds and sub-second nanoseconds (which
/// share the instant's sign) are the floor second and the non-negative
/// remainder.
#[verifier::external_body]
pub(crate) fn utc_from_civil(year: i16, month: i8, day: i8, hour: i8, minute: i8, second: i8, nanos: i32) -> (r: Result<UtcInstant, String>)
    ensures
        1970 <= year <= 2999 ==> (r is Ok <==> utc_civil_valid(year as int, month as int, day as int, hour as int,
            minute as int, second as int, nanos as int)),
        r is Ok ==> utc_civil_valid(year as int, month as int, day as int, hour as int, minute as int, second as int,
            nanos as int),
        utc_civil_valid(year as int, month as int, day as int, hour as int, minute as int, second as int, nanos as int)
            && nanos == 0 && timestamp_seconds_in_range(civil_seconds(year as int, month as int, day as int,
            hour as int, minute as int, second as int)) ==> r is Ok,
        match r {
            Ok(t) => civil_utc(year as int, month as int, day as int, hour as int, minute as int, second as int, nanos as int)
                == Ok::<int, Seq<char>>(t.secs as int)
                && timestamp_seconds_in_range(t.secs as int)
                && ((year >= 1970 || nanos == 0) ==> t.nanos == nanos
                && t.secs == civil_seconds(year as int, month as int, day as int, hour as int, minute as int, second as int)),
            Err(m) => civil_utc(year as int, month as int, day as int, hour as int, minute as int, second as int, nanos as int)
                == Err::<int, Seq<char>>(m@),
        },
{
    match jiff::civil::DateTime::new(year, month, day, hour, minute, second, nanos) {
        Ok(dt) => match dt.to_zoned(jiff::tz::TimeZone::UTC) {
            Ok(z) => Ok(UtcInstant { secs: z.timestamp().as_second(), nanos: z.timestamp().subsec_nanosecond() }),
            Err(e) => Err(e.to_string()),
        },
        Err(e) => Err(e.to_string()),
    }
}

#[verifier::external_type_specification]
#[verifier::external_body]
pub struct ExTimeZone(jiff::tz::TimeZone);

/// `jiff::tz::TimeZone::to_offset` at an instant, in seconds east of
/// UTC, the instant taken by `jiff::Timestamp::new` (which accepts every
/// instant whose seconds lie in the timestamp range and whose
/// nanoseconds lie in `0..1_000_000_000`). Which offset a zone applies
/// is its rule database's (the machine's, for the system zone), so of
/// the offset only `jiff`'s range `-25:59:59..=25:59:59` is promised.
#[verifier::external_body]
pub(crate) fn zone_offset_at(t: UtcInstant, tz: &jiff::tz::TimeZone) -> (r: Result<i32, String>)
    ensures
        instant_valid(t) ==> r is Ok,
        r matches Ok(o) ==> -max_zone_offset_secs() <= o <= max_zone_offset_secs(),
{
    match jiff::Timestamp::new(t.secs, t.nanos) {
        Ok(ts) => Ok(tz.to_offset(ts).seconds()),
        Err(e) => Err(e.to_string()),
    }
}

/// What `jiff::fmt::strtime::format(fmt, &zoned)` gives for the instant
/// of `secs` seconds and `nanos` nanoseconds in the zone of the fixed UTC
/// offset `off` seconds (`TimeZone::fixed`): the text, or the error's.
pub uninterp spec fn strftime_fixed(fmt: Seq<char>, secs: int, nanos: int, off: int) -> Result<Seq<char>, Seq<char>>;

/// `jiff::fmt::strtime::format` for an instant in the zone of a fixed
/// UTC offset. The instant is taken by `jiff::Timestamp::new` and the
/// offset by `Offset::from_seconds`, which accept every valid instant
/// and every offset within `-25:59:59..=25:59:59`; at a fixed offset the
/// text depends on the format, the instant and the offset alone.
#[verifier::external_body]
pub(crate) fn strftime_at_offset(fmt: &str, t: UtcInstant, off: i32) -> (r: Result<String, String>)
    requires
        instant_valid(t),
        -max_zone_offset_secs() <= off <= max_zone_offset_secs(),
    ensures
        match r {
            Ok(s) => strftime_fixed(fmt@, t.secs as int, t.nanos as int, off as int) == Ok::<Seq<char>, Seq<char>>(s@),
            Err(m) => strftime_fixed(fmt@, t.secs as int, t.nanos as int, off as int) == Err::<Seq<char>, Seq<char>>(m@),
        },
{
    let ts = match jiff::Timestamp::new(t.secs, t.nanos) {
        Ok(ts) => ts,
        Err(e) => return Err(e.to_string()),
    };
    let offset = match jiff::tz::Offset::from_seconds(off) {
        Ok(o) => o,
        Err(e) => return Err(e.to_string()),
    };
    jiff::fmt::strtime::format(fmt, &ts.to_zoned(jiff::tz::TimeZone::fixed(offset))).map_err(|e| e.to_string())
}

/// What `jiff::Timestamp`'s `Display` writes for the instant of `secs`
/// seconds and `nanos` nanoseconds: its RFC 3339 form in UTC.
pub uninterp spec fn timestamp_display(secs: int, nanos: int) -> Seq<char>;

/// `jiff::Timestamp::new(..)` shown through `Display`; every valid
/// instant is accepted.
#[verifier::external_body]
pub(crate) fn timestamp_text(t: UtcInstant) -> (s: String)
    requires
        instant_valid(t),
    ensures
        s@ == timestamp_display(t.secs as int, t.nanos as int),
{
    match jiff::Timestamp::new(t.secs, t.nanos) {
        Ok(ts) => ts.to_string(),
        Err(e) => e.to_string(),
    }
}

/// `jiff::fmt::strtime::format(fmt, &timestamp.to_zoned(tz))`: the text
/// `jiff`'s strftime writes for an instant in a zone, or its error text.
/// What it writes depends on the zone's rules and names, which are the
/// machine's, so nothing is promised of the text.
#[verifier::external_body]
pub(crate) fn strftime_in_zone(fmt: &str, t: UtcInstant, tz: &jiff::tz::TimeZone) -> (r: Result<String, String>)
{
    match jiff::Timestamp::new(t.secs, t.nanos) {
        Ok(ts) => jiff::fmt::strtime::format(fmt, &ts.to_zoned(tz.clone())).map_err(|e| e.to_string()),
        Err(e) => Err(e.to_string()),
    }
}

/// An instant as nanoseconds since the epoch.
pub open spec fn instant_nanos(t: UtcInstant) -> int {
    t.secs * 1_000_000_000 + t.nanos
}

/// Whether an instant is one `jiff::Timestamp` can hold, with its
/// nanoseconds in `0..1_000_000_000`.
pub open spec fn instant_valid(t: UtcInstant) -> bool {
    timestamp_seconds_in_range(t.secs as int) && 0 <= t.nanos < 1_000_000_000
}

/// Whether a count of nanoseconds since the epoch lies in the timestamp
/// range.
pub open spec fn nanos_in_range(n: int) -> bool {
    timestamp_seconds_in_range(n / 1_000_000_000)
}

/// An instant moved by a number of milliseconds, as `jiff` adds a
/// millisecond span to a timestamp: exactly, the result required to lie
/// in the timestamp range (out of it, `jiff` panics).
pub fn add_millis(t: UtcInstant, ms: i64) -> (r: UtcInstant)
    requires
        instant_valid(t),
        nanos_in_range(instant_nanos(t) + ms * 1_000_000),
    ensures
        instant_valid(r),
        instant_nanos(r) == instant_nanos(t) + ms * 1_000_000,
{
    let total: i128 = t.secs as i128 * 1_000_000_000 + t.nanos as i128 + ms as i128 * 1_000_000;
    let ghost n = instant_nanos(t) + ms * 1_000_000;
    proof {
        vstd::arithmetic::div_mod::lemma_fundamental_div_mod(n, 1_000_000_000);
    }
    let shifted: u128 = (total + 400_000_000_000_000_000_000) as u128;
    let q: u128 = shifted / 1_000_000_000;
    let rem: u128 = shifted % 1_000_000_000;
    proof {
        vstd::arithmetic::div_mod::lemma_fundamental_div_mod(shifted as int, 1_000_000_000);
        assert(n == (q - 400_000_000_000) * 1_000_000_000 + rem);
        vstd::arithmetic::div_mod::lemma_fundamental_div_mod_converse(n, 1_000_000_000, q - 400_000_000_000, rem as int);
    }
    let secs: i64 = (q as i128 - 400_000_000_000) as i64;
    UtcInstant { secs, nanos: rem as i32 }
}

/// A civil (wall-clock) date and time, to the second.
#[derive(Debug, Clone, Copy, PartialEq, Eq, Structural)]
pub struct CivilTime {
    pub year: i16,
    pub month: i8,
    pub day: i8,
    pub hour: i8,
    pub minute: i8,
    pub second: i8,
}

/// Whether the fields form a civil date and time `jiff` accepts.
pub open spec fn civil_valid(c: CivilTime) -> bool {
    utc_civil_valid(c.year as int, c.month as int, c.day as int, c.hour as int, c.minute as int, c.second as int, 0)
}

/// What `jiff::civil::DateTime::strptime(fmt, s)` gives, to the second.
pub uninterp spec fn civil_parse(fmt: Seq<char>, s: Seq<char>) -> Option<CivilTime>;

/// `jiff::civil::DateTime::strptime`: the civil time `s` spells in
/// `fmt`, if it does; what it accepts is `jiff`'s grammar, named here.
/// A `jiff` date and time is always a valid one.
#[verifier::external_body]
pub(crate) fn parse_civil(fmt: &str, s: &str) -> (r: Option<CivilTime>)
    ensures
        r == civil_parse(fmt@, s@),
        r matches Some(c) ==> civil_valid(c),
{
    match jiff::civil::DateTime::strptime(fmt, s) {
        Ok(dt) => Some(CivilTime {
            year: dt.year(),
            month: dt.month(),
            day: dt.day(),
            hour: dt.hour(),
            minute: dt.minute(),
            second: dt.second(),
        }),
        Err(_) => None,
    }
}

/// What `jiff::civil::DateTime::strftime(fmt)` writes for a civil time.
pub uninterp spec fn civil_text(fmt: Seq<char>, c: CivilTime) -> Seq<char>;

/// `n` in decimal, zero-padded on the left to `width` digits.
pub open spec fn zero_padded(n: nat, width: nat) -> Seq<char> {
    let d = crate::text::dec(n);
    if d.len() < width { Seq::new((width - d.len()) as nat, |i: int| '0') + d } else { d }
}

/// What `%Y-%m-%d` or `%H-%M-%S` writes for a civil time whose year is
/// not negative: each field zero-padded (the year to four digits, the
/// others to two), joined by `-`.
pub open spec fn civil_fields_text(fmt: Seq<char>, c: CivilTime) -> Seq<char> {
    if fmt == "%Y-%m-%d"@ {
        zero_padded(c.year as nat, 4) + "-"@ + zero_padded(c.month as nat, 2) + "-"@ + zero_padded(c.day as nat, 2)
    } else {
        zero_padded(c.hour as nat, 2) + "-"@ + zero_padded(c.minute as nat, 2) + "-"@ + zero_padded(c.second as nat, 2)
    }
}

/// `jiff::civil::DateTime::strftime` rendered to a string, for the
/// date-only and time-only formats used here (which `jiff` always
/// renders for a valid civil time): for a year not before 0, the
/// zero-padded fields; a negative year's sign and padding are left to
/// `jiff`, under the name.
#[verifier::external_body]
pub(crate) fn format_civil(fmt: &str, c: CivilTime) -> (s: String)
    requires
        civil_valid(c),
        fmt@ == "%Y-%m-%d"@ || fmt@ == "%H-%M-%S"@,
    ensures
        s@ == civil_text(fmt@, c),
        c.year >= 0 ==> s@ == civil_fields_text(fmt@, c),
{
    match jiff::civil::DateTime::new(c.year, c.month, c.day, c.hour, c.minute, c.second, 0) {
        Ok(dt) => dt.strftime(fmt).to_string(),
        Err(e) => e.to_string(),
    }
}

/// The largest distance, in seconds, between a civil time read in any
/// zone and the same civil time read as UTC: `jiff`'s offsets lie within
/// `-25:59:59..=25:59:59` (`Offset::MIN`, `Offset::MAX`).
pub open spec fn max_zone_offset_secs() -> int {
    93599int
}

/// `jiff::tz::TimeZone::system()`: the machine's time zone (UTC when it
/// cannot be found). Which zone that is is the machine's, so nothing is
/// promised of it.
#[verifier::external_body]
pub(crate) fn system_zone() -> (tz: jiff::tz::TimeZone)
{
    jiff::tz::TimeZone::system()
}

/// `jiff::civil::DateTime::new(..)` followed by `.to_zoned(tz)`, in whole
/// Unix seconds: the instant a civil time names in a zone (`jiff`'s
/// compatible handling of gaps and folds), or the error `jiff` gives
/// when the zone cannot place it. Which offset the zone applies is its
/// rules', so what is promised is that the second is a timestamp's and
/// that, where the civil time read as UTC is a timestamp, it lies within
/// one zone offset of that reading.
#[verifier::external_body]
fn zone_civil_seconds(c: CivilTime, tz: &jiff::tz::TimeZone) -> (r: Result<i64, String>)
    requires
        civil_valid(c),
    ensures
        r matches Ok(secs) ==> timestamp_seconds_in_range(secs as int)
            && (timestamp_seconds_in_range(civil_seconds(c.year as int, c.month as int, c.day as int, c.hour as int,
            c.minute as int, c.second as int)) ==> {
                let u = civil_seconds(c.year as int, c.month as int, c.day as int, c.hour as int, c.minute as int,
                    c.second as int);
                u - max_zone_offset_secs() <= secs <= u + max_zone_offset_secs()
            }),
{
    match jiff::civil::DateTime::new(c.year, c.month, c.day, c.hour, c.minute, c.second, 0) {
        Ok(dt) => match dt.to_zoned(tz.clone()) {
            Ok(z) => Ok(z.timestamp().as_second()),
            Err(e) => Err(e.to_string()),
        },
        Err(e) => Err(e.to_string()),
    }
}

/// A civil time plus `nanos` nanoseconds read in `tz`, or read as UTC
/// when that zone cannot place it. A time neither can place (past the
/// end of `jiff`'s range) gives the epoch's second. The instant is a
/// valid one with those nanoseconds, and, where the civil time read as
/// UTC is a timestamp, its second lies within one zone offset of that
/// reading.
pub fn resolve_in_zone(c: CivilTime, nanos: i32, tz: &jiff::tz::TimeZone) -> (t: UtcInstant)
    requires
        civil_valid(c),
        0 <= nanos < 1_000_000_000,
    ensures
        instant_valid(t),
        t.nanos == nanos,
        timestamp_seconds_in_range(civil_seconds(c.year as int, c.month as int, c.day as int, c.hour as int,
            c.minute as int, c.second as int)) ==> {
            let u = civil_seconds(c.year as int, c.month as int, c.day as int, c.hour as int, c.minute as int,
                c.second as int);
            u - max_zone_offset_secs() <= t.secs <= u + max_zone_offset_secs()
        },
{
    let secs = match zone_civil_seconds(c, tz) {
        Ok(secs) => secs,
        Err(_) => match utc_from_civil(c.year, c.month, c.day, c.hour, c.minute, c.second, 0) {
            Ok(t) => t.secs,
            Err(_) => 0,
        },
    };
    UtcInstant { secs, nanos }
}

/// A civil time read in the machine's zone, or read as UTC when that
/// zone cannot place it; in whole Unix seconds, as `resolve_in_zone`
/// gives it.
pub(crate) fn resolve_local(c: CivilTime) -> (secs: i64)
    requires
        civil_valid(c),
    ensures
        timestamp_seconds_in_range(secs as int),
        timestamp_seconds_in_range(civil_seconds(c.year as int, c.month as int, c.day as int, c.hour as int,
            c.minute as int, c.second as int)) ==> {
            let u = civil_seconds(c.year as int, c.month as int, c.day as int, c.hour as int, c.minute as int,
                c.second as int);
            u - max_zone_offset_secs() <= secs <= u + max_zone_offset_secs()
        },
{
    let tz = system_zone();
    resolve_in_zone(c, 0, &tz).secs
}
} // verus!
