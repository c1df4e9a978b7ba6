//! The daily scheduler's arithmetic: how long to sleep until the next
//! UTC midnight, always computed from the instant at hand so the loop
//! never accumulates drift, and the calendar date a dispatch run works
//! on.

use vstd::prelude::*;
use vstd::arithmetic::div_mod::lemma_fundamental_div_mod;
use vstd::arithmetic::div_mod::lemma_mod_multiples_basic;

verus! {

/// A UTC calendar date as the library reads it.
#[derive(Clone, Copy, PartialEq, Eq, Structural, Debug)]
pub struct Date {
    pub year: i32,
    pub month: u32,
    pub day: u32,
}

impl Date {
    /// The loose bounds every date handed out by this module meets.
    pub open spec fn valid(self) -> bool {
        1 <= self.month <= 12 && 1 <= self.day <= 31
    }
}

/// The next UTC midnight strictly after `now` (both in seconds since
/// the Unix epoch).
pub open spec fn spec_next_midnight(now: int) -> int {
    ((now / 86400) + 1) * 86400
}

/// Seconds to sleep until the next UTC midnight strictly after `now`.
/// The result lands exactly on a midnight boundary, and no earlier
/// boundary lies strictly between `now` and the wake instant.
pub fn next_wake_delay(now: u64) -> (delay: u64)
    ensures
        now + delay == spec_next_midnight(now as int),
        1 <= delay <= 86400,
        (now + delay) % 86400 == 0,
        forall|m: int| now < m < now + delay ==> (#[trigger] (m % 86400)) != 0,
{
    let r = now % 86400;
    let delay = 86400 - r;
    proof {
        let n = now as int;
        let q = n / 86400;
        lemma_fundamental_div_mod(n, 86400);
        assert(n == 86400 * q + n % 86400);
        assert(n + delay == (q + 1) * 86400) by (nonlinear_arith)
            requires
                n == 86400 * q + n % 86400,
                delay == 86400 - n % 86400,
        ;
        lemma_mod_multiples_basic(q + 1, 86400);
        assert forall|m: int| n < m < n + delay implies (#[trigger] (m % 86400)) != 0 by {
            if m % 86400 == 0 {
                let km = m / 86400;
                lemma_fundamental_div_mod(m, 86400);
                assert(m == 86400 * km);
                assert(false) by (nonlinear_arith)
                    requires
                        m == 86400 * km,
                        n == 86400 * q + n % 86400,
                        0 <= n % 86400 < 86400,
                        n < m,
                        m < (q + 1) * 86400,
                ;
            }
        }
    }
    delay
}

/// Relies on `std::time::SystemTime::now` and
/// `SystemTime::duration_since`: the system clock as whole seconds
/// since the Unix epoch, negative when the clock stands before it.
/// Total — both arms of the clock reading come back as a value, so a
/// machine with a pre-epoch clock gets a negative count, never an
/// abort.  Nothing is promised of the value: it depends on the clock.
#[verifier::external_body]
fn unix_now() -> i64 {
    match std::time::SystemTime::now().duration_since(std::time::UNIX_EPOCH) {
        Ok(since) => i64::try_from(since.as_secs()).unwrap_or(i64::MAX),
        Err(before) => i64::try_from(before.duration().as_secs()).map_or(i64::MIN, |s| -s),
    }
}

/// The proleptic Gregorian calendar date `(year, month, day)` of an
/// epoch timestamp, or nothing where the timestamp lies outside the
/// representable calendar.  A function of the timestamp alone; what it
/// is on given values only the calendar library says.
pub uninterp spec fn utc_calendar_of(secs: int) -> Option<(int, int, int)>;

/// A date's parts as the mathematics sees them.
pub open spec fn date_parts(d: Date) -> (int, int, int) {
    (d.year as int, d.month as int, d.day as int)
}

/// Relies on `chrono::DateTime::<Utc>::from_timestamp` and the
/// `chrono::Datelike` accessors `year`, `month` and `day`: the proleptic
/// Gregorian calendar date of an epoch timestamp — named
/// `utc_calendar_of`, since it depends on the timestamp alone — with
/// `month` in `1..=12` and `day` in `1..=31`, defined for any timestamp
/// chrono can represent, a range that covers the epoch through the year
/// 2100 and far beyond.
#[verifier::external_body]
fn utc_date_parts(secs: i64) -> (r: Option<(i32, u32, u32)>)
    ensures
        r matches Some(p) ==> 1 <= p.1 <= 12 && 1 <= p.2 <= 31,
        0 <= secs <= 4_102_444_800 ==> r is Some,
        r matches Some(p) ==> utc_calendar_of(secs as int) == Some(
            (p.0 as int, p.1 as int, p.2 as int),
        ),
        r is None ==> utc_calendar_of(secs as int) is None,
{
    match chrono::DateTime::<chrono::Utc>::from_timestamp(secs, 0) {
        Some(dt) => Some((
            chrono::Datelike::year(&dt),
            chrono::Datelike::month(&dt),
            chrono::Datelike::day(&dt),
        )),
        None => None,
    }
}

/// The UTC calendar date of an epoch timestamp: exactly
/// `utc_calendar_of(secs)`.  Every timestamp from the epoch through the
/// year 2100 has one.
pub fn today_from_unix(secs: i64) -> (r: Option<Date>)
    ensures
        r matches Some(d) ==> d.valid() && utc_calendar_of(secs as int) == Some(date_parts(d)),
        r is Some <==> utc_calendar_of(secs as int) is Some,
        0 <= secs <= 4_102_444_800 ==> r is Some,
{
    match utc_date_parts(secs) {
        Some((y, m, d)) => Some(Date { year: y, month: m, day: d }),
        None => None,
    }
}

/// The UTC calendar date right now: the calendar date of whatever
/// instant the clock reported.
pub fn current_utc_date() -> (r: Option<Date>)
    ensures
        r matches Some(d) ==> d.valid() && (exists|secs: int|
            #[trigger] utc_calendar_of(secs) == Some(date_parts(d))),
{
    let now = unix_now();
    let r = today_from_unix(now);
    proof {
        if r is Some {
            assert(utc_calendar_of(now as int) == Some(date_parts(r->Some_0)));
        }
    }
    r
}

/// Seconds to sleep from the current instant until the next UTC
/// midnight, read from the system clock; a clock before the epoch is
/// treated as the epoch itself.
pub fn delay_until_next_midnight() -> (d: u64)
    ensures
        1 <= d <= 86400,
{
    let now = unix_now();
    let nn: u64 = if now < 0 {
        0
    } else {
        now as u64
    };
    next_wake_delay(nn)
}

} // verus!
