//! The debounced "something changed" signal.  Producers raise a raw
//! signal at any time; the forwarder delivers to subscribers at most
//! once per fixed window, collapsing bursts onto the trailing edge and
//! never extending a running cooldown.  The timing decisions live
//! here; the host's forwarder task sleeps and sends as told.

use vstd::prelude::*;

verus! {

/// Default window between deliveries, in milliseconds.
pub const RECORD_WRITE_CONSTANT_BACKOFF_MS: u64 = 5000;

/// How long the forwarder still waits before delivering a raw signal
/// observed at `now_ms`: nothing on the first delivery, else the
/// remainder of the window opened by the previous one.
pub open spec fn wait_spec(delay_ms: u64, last_sent: Option<u64>, now_ms: u64) -> u64
    recommends
        last_sent matches Some(t) ==> t <= now_ms,
{
    match last_sent {
        None => 0u64,
        Some(t) => if now_ms - t >= delay_ms {
            0u64
        } else {
            (delay_ms - (now_ms - t)) as u64
        },
    }
}

/// The forwarder's state: its window and the moment of the last
/// delivery.
pub struct ConstantBackoffWatch {
    pub delay_ms: u64,
    pub last_sent: Option<u64>,
}

impl ConstantBackoffWatch {
    pub fn new(delay_ms: u64) -> (r: ConstantBackoffWatch)
        ensures
            r.delay_ms == delay_ms,
            r.last_sent is None,
    {
        ConstantBackoffWatch { delay_ms, last_sent: None }
    }

    /// A raw signal arrived: how long to wait before delivering it.
    /// Time is monotonic: the present moment is not before the last
    /// delivery.
    pub fn on_raw_signal(&self, now_ms: u64) -> (wait: u64)
        requires
            self.last_sent matches Some(t) ==> t <= now_ms,
        ensures
            wait == wait_spec(self.delay_ms, self.last_sent, now_ms),
    {
        match &self.last_sent {
            None => 0,
            Some(t) => {
                let since = now_ms - *t;
                if since >= self.delay_ms {
                    0
                } else {
                    self.delay_ms - since
                }
            },
        }
    }

    /// A delivery went out at `now_ms`: open the next window.
    pub fn on_deliver(&mut self, now_ms: u64)
        ensures
            final(self).delay_ms == old(self).delay_ms,
            final(self).last_sent == Some(now_ms),
    {
        self.last_sent = Some(now_ms);
    }
}

/// Deliveries are at least one window apart: a raw signal observed at
/// `now_ms`, delivered after the returned wait, lands no earlier than
/// one window past the previous delivery.
pub proof fn lemma_deliveries_spaced(delay_ms: u64, t: u64, now_ms: u64)
    requires
        t <= now_ms,
        now_ms + wait_spec(delay_ms, Some(t), now_ms) <= u64::MAX,
    ensures
        now_ms + wait_spec(delay_ms, Some(t), now_ms) >= t + delay_ms,
{
}

/// A burst is never lost and never deferred past one window: the wait
/// owed to any raw signal is at most the window itself, so the signal
/// is delivered within one window of its arrival.
pub proof fn lemma_delivery_within_window(delay_ms: u64, last_sent: Option<u64>, now_ms: u64)
    requires
        last_sent matches Some(t) ==> t <= now_ms,
    ensures
        wait_spec(delay_ms, last_sent, now_ms) <= delay_ms,
{
}

/// Signals during a cooldown do not extend it: the delivery moment
/// depends only on the previous delivery, not on how many raw signals
/// arrive inside the window, and it is exactly one window after the
/// previous delivery whenever the signal falls inside the window.
pub proof fn lemma_cooldown_not_extended(delay_ms: u64, t: u64, now_ms: u64)
    requires
        t <= now_ms,
        now_ms - t < delay_ms,
        t + delay_ms <= u64::MAX,
    ensures
        now_ms + wait_spec(delay_ms, Some(t), now_ms) == t + delay_ms,
{
}

} // verus!
