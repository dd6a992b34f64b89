//! A source of wall-clock time in milliseconds since the epoch.  The
//! system variant asks the operating system; the test variant holds a
//! settable instant, so time-dependent logic can be driven by tests.

use vstd::prelude::*;

verus! {

/// The test clock's held instant.
#[derive(Clone, Copy, Debug)]
pub struct ClockState {
    pub now_ms: u64,
}

#[derive(Clone, Copy, Debug)]
enum ClockInner {
    System,
    Test(ClockState),
}

/// Relies on std's `SystemTime::now`, converted to whole milliseconds
/// since the epoch.  The clock is ambient, so nothing is promised of
/// the value.
#[verifier::external_body]
fn system_now_ms() -> u64 {
    match std::time::SystemTime::now().duration_since(std::time::SystemTime::UNIX_EPOCH) {
        Ok(elapsed) => elapsed.as_millis() as u64,
        Err(_) => 0,
    }
}

#[derive(Clone, Copy, Debug)]
pub struct Clock {
    inner: ClockInner,
}

impl Clock {
    pub closed spec fn is_test(self) -> bool {
        self.inner is Test
    }

    /// The test clock's instant.
    pub closed spec fn test_now(self) -> u64 {
        match self.inner {
            ClockInner::System => 0,
            ClockInner::Test(state) => state.now_ms,
        }
    }

    /// The system clock.
    pub fn new() -> (r: Clock)
        ensures
            !r.is_test(),
    {
        Clock { inner: ClockInner::System }
    }

    /// A settable clock for tests, starting at the present moment.
    pub fn new_for_test() -> (r: Clock)
        ensures
            r.is_test(),
    {
        Clock { inner: ClockInner::Test(ClockState { now_ms: system_now_ms() }) }
    }

    /// The present moment.  On a test clock this is the held instant.
    pub fn now(&self) -> (r: u64)
        ensures
            self.is_test() ==> r == self.test_now(),
    {
        match &self.inner {
            ClockInner::System => system_now_ms(),
            ClockInner::Test(state) => state.now_ms,
        }
    }

    /// Advance a test clock.
    pub fn add(&mut self, ms: u64)
        requires
            old(self).is_test(),
            old(self).test_now() + ms <= u64::MAX,
        ensures
            final(self).is_test(),
            final(self).test_now() == old(self).test_now() + ms,
    {
        match &mut self.inner {
            ClockInner::System => (),
            ClockInner::Test(state) => {
                state.now_ms = state.now_ms + ms;
            },
        }
    }
}

} // verus!
