//! Reading the system clock, and a time as RFC 3339 text.
use vstd::prelude::*;

verus! {

#[verifier::external_type_specification]
#[verifier::external_body]
pub struct ExSystemTime(std::time::SystemTime);

/// `SystemTime::now`: the system clock's current reading. Nothing is
/// stated of it.
#[verifier::external_body]
fn system_now() -> std::time::SystemTime {
    std::time::SystemTime::now()
}

/// `SystemTime::duration_since(UNIX_EPOCH)`: the time elapsed since the
/// Unix epoch, or `None` (its `Err`) when the time is earlier. The time is
/// opaque here, so nothing is stated of the result.
#[verifier::external_body]
fn duration_since_epoch(t: std::time::SystemTime) -> Option<std::time::Duration> {
    match t.duration_since(std::time::UNIX_EPOCH) {
        Ok(d) => Some(d),
        Err(_) => None,
    }
}

/// `Duration::as_secs`: the whole seconds of the duration. The duration is
/// opaque here, so nothing is stated of the result.
#[verifier::external_body]
fn duration_secs(d: &std::time::Duration) -> u64 {
    d.as_secs()
}

/// `Duration::subsec_nanos`: the fractional part of the duration in
/// nanoseconds, which its documentation says is always below one billion.
#[verifier::external_body]
fn duration_subsec_nanos(d: &std::time::Duration) -> (n: u32)
    ensures
        n < 1_000_000_000,
{
    d.subsec_nanos()
}

/// The current time as whole seconds and nanoseconds since the Unix
/// epoch; `None` when the clock reads earlier than the epoch.
pub fn now_since_epoch() -> (r: Option<(u64, u32)>)
    ensures
        r matches Some(t) ==> t.1 < 1_000_000_000,
{
    match duration_since_epoch(system_now()) {
        Some(d) => Some((duration_secs(&d), duration_subsec_nanos(&d))),
        None => None,
    }
}

/// Whole milliseconds in a time of `secs` seconds and `nanos` nanoseconds,
/// as `Duration::as_millis` counts them.
pub open spec fn millis_of(secs: u64, nanos: u32) -> int {
    secs * 1000 + nanos / 1_000_000
}

/// What chrono makes of a Unix time of `secs` seconds and `nanos`
/// nanoseconds as RFC 3339 text; `None` when it lies outside chrono's range.
pub uninterp spec fn rfc3339_text(secs: i64, nanos: u32) -> Option<Seq<char>>;

/// `chrono::DateTime::from_timestamp(secs, nanos)` (`None` when the time is
/// out of chrono's range or the nanoseconds are invalid), rendered by
/// `to_rfc3339`, such as `2026-09-04T10:11:12.123456789+00:00`. The result
/// is named `rfc3339_text`; the text always begins with the date, so it is
/// never empty.
#[verifier::external_body]
fn rfc3339_at(secs: i64, nanos: u32) -> (r: Option<String>)
    ensures
        match r {
            Some(s) => rfc3339_text(secs, nanos) == Some(s@) && s@.len() > 0,
            None => rfc3339_text(secs, nanos) is None,
        },
{
    match chrono::DateTime::from_timestamp(secs, nanos) {
        Some(t) => Some(t.to_rfc3339()),
        None => None,
    }
}

/// A clock reading as chrono's RFC 3339 text: `rfc3339_text` of the
/// seconds and nanoseconds when there is a reading whose seconds fit an
/// `i64`; `None` otherwise.
pub open spec fn reading_text(now: Option<(u64, u32)>) -> Option<Seq<char>> {
    match now {
        Some(t) => if t.0 <= 0x7fff_ffff_ffff_ffffu64 {
            rfc3339_text(t.0 as i64, t.1)
        } else {
            None
        },
        None => None,
    }
}

/// A clock reading (seconds and nanoseconds since the epoch, `None` before
/// the epoch) as RFC 3339 text (see `reading_text`).
pub fn rfc3339_for(now: Option<(u64, u32)>) -> (r: Option<String>)
    ensures
        match r {
            Some(s) => reading_text(now) == Some(s@) && s@.len() > 0,
            None => reading_text(now) is None,
        },
{
    match now {
        Some((secs, nanos)) => {
            if secs > 0x7fff_ffff_ffff_ffff {
                None
            } else {
                rfc3339_at(secs as i64, nanos)
            }
        },
        None => None,
    }
}

/// The clock's current reading as RFC 3339 text: `rfc3339_for` of some
/// reading of the clock (`None` when the clock reads earlier than the
/// epoch or beyond what chrono represents).
pub fn now_rfc3339() -> (r: Option<String>)
    ensures
        exists|now: Option<(u64, u32)>|
            (now matches Some(t) ==> t.1 < 1_000_000_000) && #[trigger] reading_text(now) == match r {
                Some(s) => Some(s@),
                None => None,
            },
        r matches Some(s) ==> s@.len() > 0,
{
    let now = now_since_epoch();
    rfc3339_for(now)
}

} // verus!
