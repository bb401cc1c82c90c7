//! Wall-clock milliseconds and request identifiers.
use vstd::prelude::*;

use std::time::{Duration, SystemTime};

use crate::text::{decimal, push_decimal};

verus! {

#[verifier::external_type_specification]
#[verifier::external_body]
pub struct ExSystemTime(SystemTime);

/// Calls `std::time::SystemTime::now`. Nothing is claimed of the reading.
#[verifier::external_body]
fn system_now() -> SystemTime {
    SystemTime::now()
}

/// Calls `SystemTime::duration_since(UNIX_EPOCH)`; a time before the epoch
/// gives `None`. Nothing is claimed of the duration.
#[verifier::external_body]
fn since_unix_epoch(t: &SystemTime) -> Option<Duration> {
    t.duration_since(std::time::UNIX_EPOCH).ok()
}

/// Calls `Duration::as_millis`. Nothing is claimed of the value: the
/// duration is opaque here.
#[verifier::external_body]
fn duration_millis(d: &Duration) -> u128 {
    d.as_millis()
}

/// Milliseconds since the Unix epoch (0 before it), truncated to `u64`.
/// The value comes from the clock, so nothing is stated of it; what is done
/// with the reading is `epoch_millis`.
pub fn now_ms() -> u64 {
    let now = system_now();
    let elapsed: Option<u128> = match since_unix_epoch(&now) {
        Some(d) => Some(duration_millis(&d)),
        None => None,
    };
    epoch_millis(elapsed)
}

/// The millisecond stamp of a clock reading: the milliseconds elapsed since
/// the epoch, truncated to `u64`, or 0 for a time before the epoch.
pub fn epoch_millis(elapsed: Option<u128>) -> (ms: u64)
    ensures
        ms == match elapsed {
            Some(m) => m as u64,
            None => 0u64,
        },
{
    match elapsed {
        Some(m) => m as u64,
        None => 0,
    }
}

/// The counter value after one is handed out (wrapping at `u64::MAX`).
pub open spec fn bumped(n: u64) -> u64 {
    if n == u64::MAX {
        0
    } else {
        (n + 1) as u64
    }
}

/// The sequence number shared by request and memory identifiers.
pub struct RequestCounter {
    pub next: u64,
}

impl RequestCounter {
    /// A counter that hands out 1 first.
    pub fn new() -> (c: Self)
        ensures
            c.next == 1,
    {
        RequestCounter { next: 1 }
    }

    /// Hands out the current number and advances (wrapping, as
    /// `AtomicU64::fetch_add` does).
    pub fn take(&mut self) -> (n: u64)
        ensures
            n == old(self).next,
            final(self).next == bumped(old(self).next),
    {
        let n = self.next;
        self.next = if n == u64::MAX {
            0
        } else {
            n + 1
        };
        n
    }
}

/// `req-{ms}-{n}`.
pub open spec fn request_id_text(ms: nat, n: nat) -> Seq<char> {
    "req-"@ + decimal(ms) + "-"@ + decimal(n)
}

/// The identifier `req-{ms}-{n}` of a chat request.
pub fn format_request_id(ms: u64, n: u64) -> (res: String)
    ensures
        res@ == request_id_text(ms as nat, n as nat),
{
    let mut out = String::from_str("req-");
    push_decimal(&mut out, ms);
    out.append("-");
    push_decimal(&mut out, n);
    out
}

/// A fresh request identifier: the current time and the next counter value.
pub fn request_id(counter: &mut RequestCounter) -> (res: String)
    ensures
        exists|ms: u64| res@ == request_id_text(ms as nat, old(counter).next as nat),
        final(counter).next == bumped(old(counter).next),
{
    let ms = now_ms();
    let n = counter.take();
    format_request_id(ms, n)
}

} // verus!
