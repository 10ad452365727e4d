//! Wall-clock readings and the timestamps made of them.

use vstd::prelude::*;

verus! {

/// The last second that has a timestamp: the end of the year 262142.
pub const LAST_SECOND: i64 = 8_210_266_876_799;

/// The RFC 3339 notation that `chrono` writes for a point in time in UTC, given by the seconds
/// since the beginning of 1970 and the nanoseconds since the last whole second.
pub uninterp spec fn rfc3339_text(secs: i64, nanos: u32) -> Seq<char>;

/// Writes a point in time with `chrono::DateTime::to_rfc3339`, after
/// `chrono::DateTime::from_timestamp` has made it. The result is `rfc3339_text` of the reading.
/// Every reading from 1970 up to the last second that `chrono` knows can be written.
#[verifier::external_body]
fn rfc3339(secs: i64, nanos: u32) -> (r: String)
    requires
        0 <= secs <= LAST_SECOND,
        nanos < 1_000_000_000,
    ensures
        r@ == rfc3339_text(secs, nanos),
{
    chrono::DateTime::from_timestamp(secs, nanos).unwrap().to_rfc3339()
}

/// A reading of the wall clock.
#[derive(Clone, Copy, Debug, PartialEq, Eq, Structural)]
pub struct WallTime {
    /// Seconds since the beginning of 1970, UTC.
    pub secs: i64,
    /// Nanoseconds since the last whole second.
    pub nanos: u32,
}

impl WallTime {
    /// The reading has a timestamp.
    pub open spec fn valid(self) -> bool {
        0 <= self.secs <= LAST_SECOND && self.nanos < 1_000_000_000
    }

    /// The timestamp of the reading.
    pub open spec fn text(self) -> Seq<char> {
        rfc3339_text(self.secs, self.nanos)
    }

    /// Whether the reading has a timestamp.
    pub fn is_valid(&self) -> (r: bool)
        ensures
            r == self.valid(),
    {
        0 <= self.secs && self.secs <= LAST_SECOND && self.nanos < 1_000_000_000
    }

    /// The timestamp of the reading.
    pub fn timestamp(&self) -> (r: String)
        requires
            self.valid(),
        ensures
            r@ == self.text(),
    {
        rfc3339(self.secs, self.nanos)
    }
}

/// The readings with a timestamp are those from the beginning of 1970 to the end of the year
/// 262142, each year of 365 days of 86400 seconds and a leap day in every fourth year, except in
/// the full centuries that four does not divide. The timestamp is that of the seconds and
/// nanoseconds of the reading.
pub proof fn valid_readings_are_in_range(wall: WallTime)
    ensures
        ({
            let before: int = 1969;
            let last: int = 262142;
            let leap_days = (last / 4 - last / 100 + last / 400) - (before / 4 - before / 100
                + before / 400);
            wall.valid() <==> 0 <= wall.secs < (365 * (last - before) + leap_days) * 86400 && wall.nanos
                <= 999_999_999
        }),
        wall.text() == rfc3339_text(wall.secs, wall.nanos),
{
}

} // verus!
