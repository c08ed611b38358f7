//! Wall-clock time.

use vstd::prelude::*;

use crate::numeral::{
    all_digits, law_two_digits_read_back, numeral_value, push_two_digits, two_digits,
};

verus! {

/// The error of `SystemTime::elapsed`: the clock is set before the point in
/// time that is asked about.
#[verifier::external_type_specification]
#[verifier::external_body]
pub struct ExSystemTimeError(std::time::SystemTimeError);

/// Nanoseconds in a second.
pub const NANOS: u32 = 1_000_000_000;

/// Calls `SystemTime::elapsed` for the epoch, which takes the clock's present
/// reading, and hands the duration over as whole seconds and the nanoseconds
/// behind them. Trusted: the nanoseconds are less than a second. Nothing is
/// claimed of what the clock shows.
#[verifier::external_body]
fn since_epoch() -> (elapsed: Result<(u64, u32), std::time::SystemTimeError>)
    ensures
        elapsed is Ok ==> elapsed->Ok_0.1 < NANOS,
{
    match std::time::UNIX_EPOCH.elapsed() {
        Ok(duration) => Ok((duration.as_secs(), duration.subsec_nanos())),
        Err(error) => Err(error),
    }
}

/// The whole seconds of a time since the epoch, given as seconds and the
/// nanoseconds behind them; none, if the clock is set before the epoch.
pub fn elapsed_secs(elapsed: Result<(u64, u32), std::time::SystemTimeError>) -> (secs: u64)
    ensures
        secs == (match elapsed {
            Ok(time) => time.0,
            Err(_) => 0u64,
        }),
        elapsed matches Ok(time) ==> time.1 < NANOS ==> secs * NANOS <= time.0 * NANOS + time.1 < (
        secs + 1) * NANOS,
{
    match elapsed {
        Ok(time) => time.0,
        Err(_) => 0,
    }
}

/// The whole seconds of a time are the time in nanoseconds, rounded down to
/// seconds.
pub proof fn law_whole_seconds(time: (u64, u32))
    requires
        time.1 < NANOS,
    ensures
        time.0 == (time.0 * NANOS + time.1) / NANOS as int,
{
    assert(time.0 == (time.0 * NANOS + time.1) / NANOS as int) by (nonlinear_arith)
        requires
            time.1 < NANOS,
            NANOS > 0,
    ;
}

/// Whether a time since the epoch is one that the system's clock gave.
pub closed spec fn clock_reads(elapsed: Result<(u64, u32), std::time::SystemTimeError>) -> bool {
    call_ensures(since_epoch, (), elapsed)
}

/// Whether the system's clock shows so many seconds: they are the whole
/// seconds of a time that it gave, or none where it is set before the epoch.
pub open spec fn clock_shows(secs: u64) -> bool {
    exists|elapsed: Result<(u64, u32), std::time::SystemTimeError>| #[trigger]
        clock_reads(elapsed) && secs == (match elapsed {
            Ok(time) => time.0,
            Err(_) => 0u64,
        })
}

/// The system's clock in whole seconds since the epoch, or zero if it is set
/// before the epoch. The time is the one that the clock gave; which one that
/// is depends on the machine alone.
pub fn now_secs() -> (secs: u64)
    ensures
        clock_shows(secs),
{
    let elapsed = since_epoch();
    assert(clock_reads(elapsed));
    elapsed_secs(elapsed)
}

/// Hour of the day, in UTC.
pub open spec fn hour(ts: nat) -> nat {
    (ts % 86_400) / 3600
}

/// Minute of the hour.
pub open spec fn minute(ts: nat) -> nat {
    (ts % 3600) / 60
}

/// A time of day as `HH:MM`.
pub open spec fn clock_text(ts: nat) -> Seq<char> {
    two_digits(hour(ts)) + ":"@ + two_digits(minute(ts))
}

/// A time as `HH:MM` in UTC.
pub fn hhmm(ts: u64) -> (r: String)
    ensures
        r@ == clock_text(ts as nat),
{
    let s: u64 = ts % 86_400;
    assert(s % 3600 == ts % 3600) by (nonlinear_arith)
        requires
            s == ts % 86_400,
    ;
    let mut out = String::new();
    push_two_digits(&mut out, s / 3600);
    out.append(":");
    push_two_digits(&mut out, (s % 3600) / 60);
    assert(out@ =~= clock_text(ts as nat));
    out
}

/// A time of day has an hour below twenty-four and a minute below sixty,
/// takes five characters, and comes round every day.
pub proof fn law_clock_text(ts: nat)
    ensures
        hour(ts) < 24,
        minute(ts) < 60,
        clock_text(ts).len() == 5,
        clock_text(ts + 86_400) == clock_text(ts),
{
    reveal_strlit(":");
    assert((ts + 86_400) % 86_400 == ts % 86_400);
    assert((ts + 86_400) % 3600 == ts % 3600) by (nonlinear_arith);
}

/// A time of day reads back: two digits of hours, a colon and two digits of
/// minutes, which together are the seconds since midnight, rounded down to a
/// minute.
pub proof fn law_clock_text_reads_back(ts: nat)
    ensures
        clock_text(ts).len() == 5,
        clock_text(ts)[2] == ':',
        all_digits(clock_text(ts).take(2)),
        all_digits(clock_text(ts).skip(3)),
        0 <= numeral_value(clock_text(ts).take(2)) < 24,
        0 <= numeral_value(clock_text(ts).skip(3)) < 60,
        ({
            let minutes = 60 * numeral_value(clock_text(ts).take(2)) + numeral_value(
                clock_text(ts).skip(3),
            );
            60 * minutes <= ts % 86_400 < 60 * minutes + 60
        }),
{
    reveal_strlit(":");
    let s = ts % 86_400;
    assert(s % 3600 == ts % 3600) by (nonlinear_arith)
        requires
            s == ts % 86_400,
    ;
    law_two_digits_read_back(hour(ts));
    law_two_digits_read_back(minute(ts));
    assert(clock_text(ts).take(2) =~= two_digits(hour(ts)));
    assert(clock_text(ts).skip(3) =~= two_digits(minute(ts)));
}

/// What the clock shows is a time that it gave, rounded down to seconds, or
/// nothing where it gave none.
pub proof fn law_clock_rounds_down(secs: u64)
    requires
        clock_shows(secs),
    ensures
        exists|elapsed: Result<(u64, u32), std::time::SystemTimeError>| #[trigger]
            clock_reads(elapsed) && match elapsed {
                Ok(time) => secs * NANOS <= time.0 * NANOS + time.1 < (secs + 1) * NANOS,
                Err(_) => secs == 0,
            },
{
    let elapsed = choose|elapsed: Result<(u64, u32), std::time::SystemTimeError>| #[trigger]
        clock_reads(elapsed) && secs == (match elapsed {
            Ok(time) => time.0,
            Err(_) => 0u64,
        });
    assert(clock_reads(elapsed));
}

/// Of a time since the epoch the whole seconds count, of none nothing.
pub proof fn law_elapsed_secs(time: (u64, u32), error: std::time::SystemTimeError, a: u64, b: u64)
    requires
        time.1 < NANOS,
        call_ensures(elapsed_secs, (Ok(time),), a),
        call_ensures(elapsed_secs, (Err(error),), b),
    ensures
        a * 1_000_000_000 <= time.0 * 1_000_000_000 + time.1 < (a + 1) * 1_000_000_000,
        b == 0,
{
}

/// What `hhmm` gives back reads back as the time of day.
pub proof fn law_hhmm(ts: u64, r: String)
    requires
        call_ensures(hhmm, (ts,), r),
    ensures
        r@.len() == 5,
        r@[2] == ':',
        all_digits(r@.take(2)),
        all_digits(r@.skip(3)),
        numeral_value(r@.take(2)) < 24,
        numeral_value(r@.skip(3)) < 60,
        ({
            let minutes = 60 * numeral_value(r@.take(2)) + numeral_value(r@.skip(3));
            60 * minutes <= ts % 86_400 < 60 * minutes + 60
        }),
{
    law_clock_text_reads_back(ts as nat);
}

} // verus!
