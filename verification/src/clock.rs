//! Points in time, kept as plain numbers; the calendar arithmetic is chrono's.
use vstd::prelude::*;

verus! {

/// A point in time that chrono represents and that lies in no leap second: whole seconds since
/// the Unix epoch and the nanoseconds after them.
#[derive(Clone, Copy, PartialEq, Eq, Structural, Debug)]
pub struct Timestamp {
    seconds: i64,
    nanos: u32,
}

/// The first second that chrono can represent.
pub const FIRST_SECOND: i64 = -8_334_601_228_800;

/// The last second that chrono can represent.
pub const LAST_SECOND: i64 = 8_210_266_876_799;

/// How far back the log history reaches.
pub const LOG_HISTORY_WINDOW_MINUTES: i64 = 5;

/// The nanoseconds of a number of seconds.
pub open spec fn nanos_of(seconds: int) -> int {
    seconds * 1_000_000_000
}

impl Timestamp {
    #[verifier::type_invariant]
    spec fn regular(self) -> bool {
        FIRST_SECOND <= self.seconds <= LAST_SECOND && self.nanos < 1_000_000_000
    }

    /// Nanoseconds since the Unix epoch.
    pub closed spec fn total_nanos(self) -> int {
        nanos_of(self.seconds as int) + self.nanos
    }

    /// The point in time that lies so many seconds and nanoseconds after the epoch, if it is one.
    pub fn new(seconds: i64, nanos: u32) -> (r: Option<Timestamp>)
        ensures
            r is Some <==> FIRST_SECOND <= seconds <= LAST_SECOND && nanos < 1_000_000_000,
            r matches Some(t) ==> t.total_nanos() == nanos_of(seconds as int) + nanos,
    {
        if FIRST_SECOND <= seconds && seconds <= LAST_SECOND && nanos < 1_000_000_000 {
            Some(Timestamp { seconds, nanos })
        } else {
            None
        }
    }

    /// The whole seconds since the epoch.
    pub fn seconds(&self) -> (r: i64)
        ensures
            FIRST_SECOND <= r <= LAST_SECOND,
            nanos_of(r as int) <= self.total_nanos() < nanos_of(r as int) + 1_000_000_000,
    {
        proof {
            use_type_invariant(self);
        }
        self.seconds
    }

    /// The nanoseconds after the whole seconds.
    pub fn subsec_nanos(&self) -> (r: u32)
        ensures
            r < 1_000_000_000,
            r == self.total_nanos() % 1_000_000_000,
    {
        proof {
            use_type_invariant(self);
        }
        self.nanos
    }

    /// Whether this point in time is not later than the other.
    pub fn not_after(&self, other: &Timestamp) -> (r: bool)
        ensures
            r == (self.total_nanos() <= other.total_nanos()),
    {
        proof {
            use_type_invariant(self);
            use_type_invariant(other);
        }
        self.seconds < other.seconds || (self.seconds == other.seconds && self.nanos <= other.nanos)
    }
}

/// Whole milliseconds in a number of nanoseconds, rounded toward zero.
pub open spec fn whole_millis(nanos: int) -> int {
    if nanos >= 0 {
        nanos / 1_000_000
    } else {
        -((-nanos) / 1_000_000)
    }
}

/// chrono's `Utc::now`: the system clock's time, which is not before the epoch. Which time it is
/// depends on the machine; nothing is claimed of that.
#[verifier::external_body]
fn chrono_now() -> (r: Timestamp)
    ensures
        r.total_nanos() >= 0,
{
    let now = chrono::Utc::now();
    Timestamp { seconds: now.timestamp(), nanos: now.timestamp_subsec_nanos() }
}

/// chrono's `DateTime::checked_sub_signed` on a whole number of seconds: the point in time that
/// many seconds earlier, and none where that lies before the first second that chrono
/// represents.
#[verifier::external_body]
pub(crate) fn chrono_seconds_before(t: Timestamp, seconds: i64) -> (r: Option<Timestamp>)
    requires
        0 <= seconds <= 1_000_000_000,
    ensures
        match r {
            Some(earlier) => earlier.total_nanos() == t.total_nanos() - nanos_of(seconds as int),
            None => t.total_nanos() - nanos_of(seconds as int) < nanos_of(FIRST_SECOND as int),
        },
{
    let base = chrono::DateTime::<chrono::Utc>::from_timestamp(t.seconds, t.nanos)?;
    let earlier = base.checked_sub_signed(chrono::TimeDelta::seconds(seconds))?;
    Some(Timestamp { seconds: earlier.timestamp(), nanos: earlier.timestamp_subsec_nanos() })
}

/// chrono's `DateTime::signed_duration_since`, in whole milliseconds (`num_milliseconds`): the
/// distance between two points in time, rounded toward zero.
#[verifier::external_body]
fn chrono_millis_between(later: Timestamp, earlier: Timestamp) -> (r: Option<i64>)
    ensures
        r is Some,
        r->0 == whole_millis(later.total_nanos() - earlier.total_nanos()),
{
    let end = chrono::DateTime::<chrono::Utc>::from_timestamp(later.seconds, later.nanos)?;
    let start = chrono::DateTime::<chrono::Utc>::from_timestamp(earlier.seconds, earlier.nanos)?;
    Some(end.signed_duration_since(start).num_milliseconds())
}

/// The current time.
pub fn utc_now() -> (r: Timestamp)
    ensures
        r.total_nanos() >= 0,
{
    chrono_now()
}

/// The whole milliseconds from one point in time to another, rounded toward zero.
pub fn millis_between(later: Timestamp, earlier: Timestamp) -> (r: i64)
    ensures
        r == whole_millis(later.total_nanos() - earlier.total_nanos()),
{
    match chrono_millis_between(later, earlier) {
        Some(millis) => millis,
        None => 0,
    }
}

/// Where the log history begins, seen from `now`.
pub fn log_history_start(now: Timestamp) -> (r: Timestamp)
    requires
        now.total_nanos() - nanos_of(LOG_HISTORY_WINDOW_MINUTES * 60) >= nanos_of(
            FIRST_SECOND as int,
        ),
    ensures
        r.total_nanos() == now.total_nanos() - nanos_of(LOG_HISTORY_WINDOW_MINUTES * 60),
{
    match chrono_seconds_before(now, LOG_HISTORY_WINDOW_MINUTES * 60) {
        Some(start) => start,
        None => now,
    }
}

/// Where the log history begins now: the window lies before a time of the clock.
pub fn log_history_since() -> (r: Timestamp)
    ensures
        exists|now: Timestamp|
            now.total_nanos() >= 0 && r.total_nanos() == #[trigger] now.total_nanos() - nanos_of(
                LOG_HISTORY_WINDOW_MINUTES * 60,
            ),
{
    let now = utc_now();
    log_history_start(now)
}

} // verus!
