//! A named stopwatch that measures wall-clock milliseconds.
use std::time::Duration;
use std::time::SystemTime;
use vstd::prelude::*;

verus! {

/// A point in wall-clock time, carried through as it is.
#[verifier::external_type_specification]
#[verifier::external_body]
pub struct ExSystemTime(SystemTime);

/// `SystemTime::now`: the current wall-clock time. Nothing is promised of it.
#[verifier::external_body]
fn system_now() -> SystemTime {
    SystemTime::now()
}

/// `SystemTime::duration_since(UNIX_EPOCH)`: the time elapsed since the Unix epoch,
/// `None` for a time before it. Nothing more is promised of it.
#[verifier::external_body]
fn since_unix_epoch(t: &SystemTime) -> Option<Duration> {
    t.duration_since(std::time::UNIX_EPOCH).ok()
}

/// `Duration::as_millis`: the whole milliseconds of a duration. A duration is opaque
/// here, so nothing is promised of the number.
#[verifier::external_body]
fn duration_as_millis(d: &Duration) -> u128 {
    d.as_millis()
}

/// A stopwatch: a name and the moment, in milliseconds since the Unix epoch, at
/// which it started.
pub struct Bench {
    name: String,
    timestamp: u128,
}

impl Bench {
    /// The stopwatch's name.
    pub closed spec fn spec_name(&self) -> Seq<char> {
        self.name@
    }

    /// The moment at which the stopwatch started.
    pub closed spec fn spec_timestamp(&self) -> u128 {
        self.timestamp
    }

    /// A stopwatch named `name`, started now; `None` where the clock reads a time
    /// before the Unix epoch, at which no start can be taken.
    pub fn new(name: &str) -> (b: Option<Bench>)
        ensures
            b matches Some(b) ==> b.spec_name() == name@,
    {
        match Bench::cur_timestamp_mils() {
            Some(timestamp) => Some(Bench::started_at(name, timestamp)),
            None => None,
        }
    }

    /// A stopwatch named `name` that started at `timestamp`.
    pub fn started_at(name: &str, timestamp: u128) -> (b: Bench)
        ensures
            b.spec_name() == name@,
            b.spec_timestamp() == timestamp,
    {
        Bench { name: name.to_owned(), timestamp }
    }

    /// The milliseconds elapsed since the Unix epoch, or `None` where the clock reads
    /// a time before the epoch. The clock is outside this library, so nothing is
    /// promised of which answer comes or of the number.
    pub fn cur_timestamp_mils() -> Option<u128> {
        let system_time = system_now();
        match since_unix_epoch(&system_time) {
            Some(since_the_epoch) => Some(duration_as_millis(&since_the_epoch)),
            None => None,
        }
    }

    /// The stopwatch's name.
    pub fn name(&self) -> (r: &str)
        ensures
            r@ == self.spec_name(),
    {
        self.name.as_str()
    }

    /// The moment at which the stopwatch started.
    pub fn timestamp(&self) -> (r: u128)
        ensures
            r == self.spec_timestamp(),
    {
        self.timestamp
    }

    /// The milliseconds from the start of the stopwatch to `now`.
    pub fn elapsed_mils(&self, now: u128) -> (r: u128)
        requires
            self.spec_timestamp() <= now,
        ensures
            r == now - self.spec_timestamp(),
    {
        now - self.timestamp
    }
}

} // verus!
