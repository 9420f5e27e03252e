//! Where the time comes from.
use std::time::Duration;
use vstd::prelude::*;

verus! {

/// Seconds since the Unix epoch for what the clock shows past it: none where
/// it is set before the epoch, and no more than an `i64` holds.
pub open spec fn epoch_seconds(elapsed: Option<u64>) -> i64 {
    match elapsed {
        Some(seconds) if seconds <= i64::MAX => seconds as i64,
        Some(_) => i64::MAX,
        None => 0,
    }
}

/// What `Duration::from_secs` makes of a number of seconds.
pub uninterp spec fn seconds(count: u64) -> Duration;

/// `std::time::Duration::from_secs`: the duration depends on nothing but the
/// number of seconds.
pub assume_specification[ Duration::from_secs ](secs: u64) -> (duration: Duration)
    ensures
        duration == seconds(secs),
;

/// `std::time::Duration::as_secs`: of a duration of whole seconds, how many.
/// Of one that has a fraction besides, which this leaves out, nothing is
/// claimed.
pub assume_specification[ Duration::as_secs ](duration: &Duration) -> (secs: u64)
    ensures
        forall|count: u64| *duration == #[trigger] seconds(count) ==> secs == count,
;

/// `std::time::SystemTime::elapsed` of the Unix epoch: the time that the
/// system's clock shows past it, or `None` where the clock is set before it.
/// Nothing is claimed of what the clock shows.
#[verifier::external_body]
fn unix_time() -> (elapsed: Option<Duration>) {
    std::time::UNIX_EPOCH.elapsed().ok()
}

/// Whether the system's clock can show this time past the Unix epoch, or, with
/// `None`, can be set before it.
pub closed spec fn system_reads(since: Option<Duration>) -> bool {
    call_ensures(unix_time, (), since)
}

/// Whether the system's clock can show this many whole seconds past the Unix
/// epoch, or, with `None`, can be set before it.
pub closed spec fn system_shows(elapsed: Option<u64>) -> bool {
    exists|since: Option<Duration>| #[trigger]
        call_ensures(unix_time, (), since) && match (since, elapsed) {
            (Some(since), Some(whole)) => call_ensures(Duration::as_secs, (&since,), whole),
            (None, None) => true,
            _ => false,
        }
}

/// The seconds since the Unix epoch, given what the clock shows past it.
pub fn seconds_since_epoch(elapsed: Option<u64>) -> (seconds: i64)
    ensures
        seconds == epoch_seconds(elapsed),
{
    match elapsed {
        Some(seconds) => if seconds <= 0x7fff_ffff_ffff_ffff {
            seconds as i64
        } else {
            i64::MAX
        },
        None => 0,
    }
}

/// Seconds since the Unix epoch, now.
#[must_use]
pub fn now() -> (seconds: i64)
    ensures
        exists|elapsed: Option<u64>| #[trigger]
            system_shows(elapsed) && seconds == epoch_seconds(elapsed),
        seconds >= 0,
{
    let since = unix_time();
    let elapsed: Option<u64> = match &since {
        Some(since) => Some(since.as_secs()),
        None => None,
    };
    assert(system_shows(elapsed));
    seconds_since_epoch(elapsed)
}

/// A clock that can be asked for the time, in seconds since the Unix epoch.
pub(crate) trait Clock: Send + Sync {
    /// Whether the clock can be read.
    spec fn readable(&self) -> bool;

    /// Whether the clock can show this time.
    spec fn shows(&self, seconds: i64) -> bool;

    /// The time that the clock shows.
    fn read(&self) -> (seconds: i64)
        requires
            self.readable(),
        ensures
            self.shows(seconds),
    ;
}

/// The system's clock: it shows what [`now`] gives.
pub(crate) struct SystemClock;

impl Clock for SystemClock {
    open spec fn readable(&self) -> bool {
        true
    }

    open spec fn shows(&self, seconds: i64) -> bool {
        call_ensures(now, (), seconds)
    }

    fn read(&self) -> (seconds: i64) {
        now()
    }
}

/// A function that says what time it is.
pub(crate) struct FnClock<F>(pub F);

impl<F: Fn() -> i64 + Send + Sync> Clock for FnClock<F> {
    open spec fn readable(&self) -> bool {
        self.0.requires(())
    }

    open spec fn shows(&self, seconds: i64) -> bool {
        self.0.ensures((), seconds)
    }

    fn read(&self) -> (seconds: i64) {
        (self.0)()
    }
}

proof fn lemma_now_reads_the_clock(time: i64)
    requires
        call_ensures(now, (), time),
    ensures
        exists|since: Option<Duration>| #[trigger]
            call_ensures(unix_time, (), since) && match since {
                Some(duration) => exists|whole: u64| #[trigger]
                    call_ensures(Duration::as_secs, (&duration,), whole) && time == (if whole
                        <= i64::MAX {
                        whole as int
                    } else {
                        i64::MAX as int
                    }),
                None => time == 0,
            },
{
    let elapsed = choose|elapsed: Option<u64>| #[trigger]
        system_shows(elapsed) && time == epoch_seconds(elapsed);
    assert(system_shows(elapsed));
}

/// `now` is what the system's clock shows past the Unix epoch, in seconds:
/// where that is `count` whole seconds and an `i64` holds them it is `count`,
/// past that it is the greatest `i64`, and before the epoch it is zero.
pub proof fn now_is_in_seconds(time: i64)
    requires
        call_ensures(now, (), time),
    ensures
        exists|since: Option<Duration>| #[trigger]
            system_reads(since) && {
                &&& since is None ==> time == 0
                &&& forall|count: u64|
                    since == Some(#[trigger] seconds(count)) && count <= i64::MAX ==> time == count
                &&& forall|count: u64|
                    since == Some(#[trigger] seconds(count)) && count > i64::MAX ==> time
                        == i64::MAX
            },
{
    lemma_now_reads_the_clock(time);
    let since = choose|since: Option<Duration>| #[trigger]
        call_ensures(unix_time, (), since) && match since {
            Some(duration) => exists|whole: u64| #[trigger]
                call_ensures(Duration::as_secs, (&duration,), whole) && time == (if whole
                    <= i64::MAX {
                    whole as int
                } else {
                    i64::MAX as int
                }),
            None => time == 0,
        };
    assert(system_reads(since));
}

/// Seconds that an `i64` holds are kept, more are the greatest `i64`, and none
/// are zero.
pub proof fn seconds_are_kept(elapsed: Option<u64>, time: i64)
    requires
        call_ensures(seconds_since_epoch, (elapsed,), time),
    ensures
        elapsed is None ==> time == 0,
        forall|count: u64| elapsed == Some(count) && count <= i64::MAX ==> time == count,
        forall|count: u64| elapsed == Some(count) && count > i64::MAX ==> time == i64::MAX,
{
}

} // verus!
