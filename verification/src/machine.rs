//! What the machine is like.

use vstd::prelude::*;

use crate::time::Timestamp;

verus! {

/// `num_cpus::get` tells how many processors there are. Nothing is claimed of the number.
#[verifier::external_body]
pub(crate) fn cpu_count() -> (n: usize) {
    num_cpus::get()
}

/// `chrono::Utc::now` tells the time. Nothing is claimed of it.
#[verifier::external_body]
pub(crate) fn current_time() -> (t: Timestamp) {
    let now = chrono::Utc::now();
    Timestamp { seconds: now.timestamp(), nanos: now.timestamp_subsec_nanos() }
}

/// `chrono::Duration::from_std` refuses durations of more milliseconds than a signed 64-bit number
/// holds, with an error of one text.
#[verifier::external_body]
pub(crate) fn conversion_problem(seconds: u64, nanos: u32) -> (r: Option<String>)
    requires
        nanos < 1_000_000_000,
    ensures
        r is Some <==> seconds * 1_000_000_000 + nanos > i64::MAX * 1_000_000,
        r is Some ==> r->0@ == "Source duration value is out of range for the target type"@,
{
    chrono::Duration::from_std(std::time::Duration::new(seconds, nanos)).err().map(
        |e| e.to_string(),
    )
}

/// How `chrono` shows the point in time of seconds and nanoseconds in UTC; nothing where
/// `chrono::DateTime::from_timestamp` takes them for none.
pub uninterp spec fn moment_text(seconds: i64, nanos: u32) -> Option<Seq<char>>;

/// `chrono::DateTime::from_timestamp` makes a point in time of seconds and nanoseconds, which is
/// shown as a text. The text has the name [`moment_text`].
#[verifier::external_body]
pub(crate) fn show_moment(seconds: i64, nanos: u32) -> (r: Option<String>)
    ensures
        r is Some == moment_text(seconds, nanos) is Some,
        r is Some ==> r->0@ == moment_text(seconds, nanos)->0,
{
    chrono::DateTime::from_timestamp(seconds, nanos).map(|t| t.to_string())
}

} // verus!
