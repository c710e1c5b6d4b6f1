//! The signing time: the current instant from the system clock and `chrono`,
//! written as a DER UTCTime.
use vstd::prelude::*;
use chrono::{Datelike, Timelike};

verus! {

/// A calendar instant in UTC, as `chrono` reports it.
pub struct UtcInstant {
    pub year: i32,
    pub month: u32,
    pub day: u32,
    pub hour: u32,
    pub minute: u32,
    pub second: u32,
    /// Nanoseconds since the whole second; 1_000_000_000 and above stand for a leap second.
    pub nanosecond: u32,
}

/// The ranges that `chrono` documents for the fields of an instant.
pub open spec fn valid_instant(t: UtcInstant) -> bool {
    &&& 1 <= t.month <= 12
    &&& 1 <= t.day <= 31
    &&& t.hour <= 23
    &&& t.minute <= 59
    &&& t.second <= 59
    &&& t.nanosecond <= 1_999_999_999
}

/// The system clock's time, as std reads it.
#[verifier::external_type_specification]
#[verifier::external_body]
pub struct ExSystemTime(std::time::SystemTime);

/// Calls `std::time::SystemTime::now`. Which time comes back depends on the
/// clock, so nothing is said of it.
#[verifier::external_body]
fn system_now() -> (r: std::time::SystemTime) {
    std::time::SystemTime::now()
}

/// Calls `std::time::SystemTime::duration_since` with the Unix epoch: the
/// time elapsed since 1970, `None` where `t` lies before. What is said of the
/// duration is said by the wrappers that read it.
#[verifier::external_body]
fn since_unix_epoch(t: &std::time::SystemTime) -> (r: Option<std::time::Duration>) {
    t.duration_since(std::time::UNIX_EPOCH).ok()
}

/// Calls `std::time::Duration::as_secs`: the whole seconds of `d`.
#[verifier::external_body]
fn whole_seconds(d: &std::time::Duration) -> (r: u64) {
    d.as_secs()
}

/// Calls `std::time::Duration::subsec_nanos`. Trusted: the nanoseconds of `d`
/// past its whole seconds, below one billion as std documents them.
#[verifier::external_body]
fn subsecond_nanos(d: &std::time::Duration) -> (r: u32)
    ensures
        r < 1_000_000_000,
{
    d.subsec_nanos()
}

/// The instant `secs` seconds and `nsecs` nanoseconds after 1970-01-01
/// 00:00:00 UTC, as `chrono::DateTime::from_timestamp` gives it (`None` where
/// chrono cannot represent it).
pub uninterp spec fn timestamp_instant(secs: i64, nsecs: u32) -> Option<UtcInstant>;

/// Calls `chrono::DateTime::from_timestamp` and reads the calendar fields of
/// the instant (`Datelike`, `Timelike`). Trusted: the result is named
/// `timestamp_instant`, and its fields lie in the ranges that chrono documents
/// for `month`, `day`, `hour`, `minute`, `second` and `nanosecond`. Which
/// timestamps chrono refuses is left unsaid.
#[verifier::external_body]
fn utc_from_timestamp(secs: i64, nsecs: u32) -> (r: Option<UtcInstant>)
    ensures
        r == timestamp_instant(secs, nsecs),
        r matches Some(t) ==> valid_instant(t),
{
    match chrono::DateTime::from_timestamp(secs, nsecs) {
        Some(d) => Some(UtcInstant {
            year: d.year(),
            month: d.month(),
            day: d.day(),
            hour: d.hour(),
            minute: d.minute(),
            second: d.second(),
            nanosecond: d.nanosecond(),
        }),
        None => None,
    }
}

/// Whether `t` is an instant that the clock can give: the instant of some
/// time since 1970, as chrono reads it.
pub open spec fn clock_instant(t: UtcInstant) -> bool {
    exists|secs: i64, nsecs: u32|
        secs >= 0 && nsecs < 1_000_000_000 && #[trigger] timestamp_instant(secs, nsecs) == Some(t)
}

/// The instant `secs` seconds and `nsecs` nanoseconds after 1970 as chrono
/// reads it (`timestamp_instant`); `None` where `secs` exceeds what an `i64`
/// holds.
pub fn instant_of_timestamp(secs: u64, nsecs: u32) -> (r: Option<UtcInstant>)
    ensures
        r == if secs <= i64::MAX {
            timestamp_instant(secs as i64, nsecs)
        } else {
            None
        },
        r matches Some(t) ==> valid_instant(t),
{
    if secs > 0x7fff_ffff_ffff_ffffu64 {
        return None;
    }
    utc_from_timestamp(secs as i64, nsecs)
}

/// The current instant in UTC: `None` where the clock reads before 1970, or
/// an instant that chrono cannot represent.
pub fn current_instant() -> (r: Option<UtcInstant>)
    ensures
        r matches Some(t) ==> valid_instant(t) && clock_instant(t),
{
    let now = system_now();
    let elapsed = match since_unix_epoch(&now) {
        Some(d) => d,
        None => return None,
    };
    let secs = whole_seconds(&elapsed);
    let nsecs = subsecond_nanos(&elapsed);
    let r = instant_of_timestamp(secs, nsecs);
    assert(r matches Some(t) ==> timestamp_instant(secs as i64, nsecs) == Some(t));
    r
}

/// Two decimal digits of a value below 100.
pub open spec fn two_digits(v: nat) -> Seq<u8> {
    seq![(48 + v / 10) as u8, (48 + v % 10) as u8]
}

/// The second as UTCTime writes it: a leap second is second 60.
pub open spec fn utc_second(t: UtcInstant) -> nat {
    if t.nanosecond >= 1_000_000_000 {
        (t.second + 1) as nat
    } else {
        t.second as nat
    }
}

/// The contents of the UTCTime of `t` in its DER form `YYMMDDHHMMSSZ`, the
/// year taken modulo 100.
pub open spec fn utc_time_content(t: UtcInstant) -> Seq<u8> {
    two_digits(((t.year as int) % 100) as nat) + two_digits(t.month as nat) + two_digits(
        t.day as nat,
    ) + two_digits(t.hour as nat) + two_digits(t.minute as nat) + two_digits(utc_second(t))
        + seq![90u8]
}

fn push_two_digits(out: &mut Vec<u8>, v: u32)
    requires
        v < 100,
    ensures
        final(out)@ == old(out)@ + two_digits(v as nat),
{
    out.push((48 + v / 10) as u8);
    out.push((48 + v % 10) as u8);
    assert(final(out)@ =~= old(out)@ + two_digits(v as nat));
}

/// The year modulo 100, counted from 0 to 99 also for years before year 0.
fn year_mod_100(y: i32) -> (r: u32)
    ensures
        r as int == (y as int) % 100,
        r < 100,
{
    if y >= 0 {
        (y as u32) % 100
    } else {
        let a: u32 = (-(y as i64)) as u32;
        let m = a % 100;
        if m == 0 {
            0
        } else {
            100 - m
        }
    }
}

/// The contents of the UTCTime of `t`.
pub fn encode_utc_time(t: &UtcInstant) -> (r: Vec<u8>)
    requires
        valid_instant(*t),
    ensures
        r@ == utc_time_content(*t),
{
    let mut out = Vec::new();
    push_two_digits(&mut out, year_mod_100(t.year));
    push_two_digits(&mut out, t.month);
    push_two_digits(&mut out, t.day);
    push_two_digits(&mut out, t.hour);
    push_two_digits(&mut out, t.minute);
    let second = if t.nanosecond >= 1_000_000_000 {
        t.second + 1
    } else {
        t.second
    };
    push_two_digits(&mut out, second);
    out.push(90u8);
    assert(out@ =~= utc_time_content(*t));
    out
}

} // verus!
