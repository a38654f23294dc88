//! Time sources for the session: a monotonic millisecond count, used only to
//! measure idle time, and an RFC 3339 wall-clock string, used to stamp
//! entries. The session logic takes the values a [`Clock`] reports, so
//! tests drive time with a [`FakeClock`] instead of waiting.

use vstd::prelude::*;
use vstd::string::StringExecFns;

verus! {

/// A source of monotonic time and wall-clock timestamps.
pub trait Clock {
    /// Milliseconds on a monotonic clock; only differences between two
    /// readings carry meaning.
    fn now(&self) -> u64;

    /// The current wall-clock time as an RFC 3339 string (UTC).
    fn now_rfc3339(&self) -> String;
}

#[verifier::external_type_specification]
#[verifier::external_body]
pub struct ExInstant(std::time::Instant);

#[verifier::external_type_specification]
#[verifier::external_body]
pub struct ExUtcDateTime(time::UtcDateTime);

/// Calls `std::time::Instant::now`. Nothing is claimed of the instant.
#[verifier::external_body]
fn instant_now() -> std::time::Instant {
    std::time::Instant::now()
}

/// Calls `Instant::elapsed` on `origin`: the time since `origin`. Nothing is
/// claimed of the duration.
#[verifier::external_body]
fn elapsed_since(origin: &std::time::Instant) -> std::time::Duration {
    origin.elapsed()
}

/// Calls `Duration::as_millis` on `d`: its whole milliseconds. Nothing is
/// claimed of the value.
#[verifier::external_body]
fn whole_millis(d: &std::time::Duration) -> u128 {
    d.as_millis()
}

/// `c` is an ASCII digit.
pub open spec fn is_digit_char(c: char) -> bool {
    '0' <= c && c <= '9'
}

/// `s` holds ASCII digits at the positions `from..to`.
pub open spec fn digits_at(s: Seq<char>, from: int, to: int) -> bool {
    forall|i: int| from <= i < to ==> is_digit_char(#[trigger] s[i])
}

/// `s` is an RFC 3339 timestamp in UTC as the `time` crate writes one:
/// `YYYY-MM-DDTHH:MM:SS`, then optionally `.` and one to nine digits of a
/// second, then `Z`.
pub open spec fn is_utc_timestamp(s: Seq<char>) -> bool {
    &&& 20 <= s.len() <= 30
    &&& digits_at(s, 0, 4) && s[4] == '-' && digits_at(s, 5, 7) && s[7] == '-'
    &&& digits_at(s, 8, 10) && s[10] == 'T' && digits_at(s, 11, 13) && s[13] == ':'
    &&& digits_at(s, 14, 16) && s[16] == ':' && digits_at(s, 17, 19)
    &&& s.last() == 'Z'
    &&& s.len() > 20 ==> s.len() >= 22 && s[19] == '.' && digits_at(s, 20, s.len() - 1)
}

/// Calls `time::UtcDateTime::now`. Nothing is claimed of the time.
#[verifier::external_body]
fn utc_now() -> time::UtcDateTime {
    time::UtcDateTime::now()
}

/// Calls `UtcDateTime::format` with the `Rfc3339` well-known format;
/// `None` when formatting fails (a year outside 0 to 9999).
///
/// Claims the shape the crate's RFC 3339 formatter writes for a value at
/// offset zero, which every `UtcDateTime` is: four-digit year, two-digit
/// month, day, hour, minute and second, a fraction of one to nine digits
/// when the nanoseconds are not zero, and `Z`. Which time it is, is left
/// unsaid.
#[verifier::external_body]
fn format_rfc3339(t: &time::UtcDateTime) -> (r: Option<String>)
    ensures
        r matches Some(s) ==> is_utc_timestamp(s@),
{
    t.format(&time::format_description::well_known::Rfc3339).ok()
}

/// The production clock: milliseconds since the clock was made, on the
/// monotonic system clock, and the real UTC wall clock.
#[derive(Debug, Clone, Copy)]
pub struct SystemClock {
    origin: std::time::Instant,
}

impl SystemClock {
    /// A clock whose monotonic count starts now.
    pub fn new() -> SystemClock {
        SystemClock { origin: instant_now() }
    }
}

/// The wall-clock string used when formatting the current time fails.
pub const EPOCH_RFC3339: &'static str = "1970-01-01T00:00:00Z";

impl Clock for SystemClock {
    fn now(&self) -> u64 {
        let ms = whole_millis(&elapsed_since(&self.origin));
        if ms > 0xffff_ffff_ffff_ffff {
            0xffff_ffff_ffff_ffff
        } else {
            ms as u64
        }
    }

    /// The current UTC time as the `time` crate formats it, or
    /// [`EPOCH_RFC3339`] when formatting fails; an RFC 3339 UTC timestamp
    /// either way.
    fn now_rfc3339(&self) -> (s: String)
        ensures
            is_utc_timestamp(s@),
    {
        match format_rfc3339(&utc_now()) {
            Some(s) => s,
            None => {
                let s = String::from_str(EPOCH_RFC3339);
                proof {
                    reveal_strlit("1970-01-01T00:00:00Z");
                    assert(is_utc_timestamp(s@));
                }
                s
            },
        }
    }
}

/// The wall-clock timestamp a [`FakeClock`] reports until it is set.
pub const DEFAULT_WALL: &'static str = "2026-06-14T00:00:00Z";

/// A clock moved by hand: its monotonic count only advances through
/// [`FakeClock::advance`], and its wall clock is whatever was last set.
#[derive(Debug, Clone, PartialEq, Eq)]
pub struct FakeClock {
    /// Milliseconds advanced so far.
    pub elapsed_ms: u64,
    /// The wall-clock string reported.
    pub wall: String,
}

impl FakeClock {
    /// A fake clock at zero with the [`DEFAULT_WALL`] timestamp.
    pub fn new() -> (c: FakeClock)
        ensures
            c.elapsed_ms == 0,
            c.wall@ == DEFAULT_WALL@,
    {
        FakeClock { elapsed_ms: 0, wall: String::from_str(DEFAULT_WALL) }
    }

    /// Advance the monotonic count by `delta_ms` milliseconds (saturating).
    /// The wall clock does not move.
    pub fn advance(&mut self, delta_ms: u64)
        ensures
            final(self).elapsed_ms == (if old(self).elapsed_ms + delta_ms <= u64::MAX {
                (old(self).elapsed_ms + delta_ms) as u64
            } else {
                u64::MAX
            }),
            final(self).wall == old(self).wall,
    {
        self.elapsed_ms = self.elapsed_ms.saturating_add(delta_ms);
    }

    /// Set the wall-clock string reported.
    pub fn set_wall(&mut self, rfc3339: &str)
        ensures
            final(self).wall@ == rfc3339@,
            final(self).elapsed_ms == old(self).elapsed_ms,
    {
        self.wall = String::from_str(rfc3339);
    }
}

impl Default for FakeClock {
    fn default() -> (c: FakeClock)
        ensures
            c.elapsed_ms == 0,
            c.wall@ == DEFAULT_WALL@,
    {
        FakeClock::new()
    }
}

impl Clock for FakeClock {
    fn now(&self) -> (ms: u64)
        ensures
            ms == self.elapsed_ms,
    {
        self.elapsed_ms
    }

    fn now_rfc3339(&self) -> (s: String)
        ensures
            s@ == self.wall@,
    {
        self.wall.clone()
    }
}

} // verus!
