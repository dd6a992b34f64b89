//! Exponential upload backoff, persisted as a small JSON file.  The
//! state machine lives here in full: the wait computation, the success
//! and failure transitions, and the exact bytes of the persisted file.
//! The host only writes or deletes the file as instructed.

use vstd::prelude::*;
use vstd::arithmetic::power2::{lemma2_to64, lemma_pow2_strictly_increases, pow2};
use crate::calendar::day_limit;
use crate::encoding::{all_dec_digits, dec_value, parse_u32_dec, u64_to_dec};
use crate::timestamp::{format_timestamp, is_timestamp_text, parse_timestamp, timestamp_value};
use crate::DAY_MS;

verus! {

/// First wait after a failure, in milliseconds.
pub const INITIAL_WAIT_AFTER_FAILURE_MS: u64 = 1000;

/// Longest wait after a failure, in milliseconds.
pub const MAX_WAIT_AFTER_FAILURE_MS: u64 = 86_400_000;

/// A recorded upload failure: when it happened and how many failures
/// preceded it.
#[derive(Clone, Copy, PartialEq, Eq, Structural, Debug)]
pub struct Failure {
    pub at_ms: u64,
    pub prev_failure_count: u32,
}

/// The wait owed after a failure: the initial wait doubled once per
/// preceding failure, clamped to the daily maximum.
pub open spec fn duration_to_retry_spec(prev_failure_count: nat) -> u64 {
    if 1000 * pow2(prev_failure_count) >= 86_400_000 {
        86_400_000u64
    } else {
        (1000 * pow2(prev_failure_count)) as u64
    }
}

impl Failure {
    /// Milliseconds to wait before the next attempt.
    pub fn duration_to_retry(&self) -> (r: u64)
        ensures
            r == duration_to_retry_spec(self.prev_failure_count as nat),
    {
        proof {
            lemma2_to64();
        }
        if self.prev_failure_count >= 17 {
            proof {
                if self.prev_failure_count > 17 {
                    lemma_pow2_strictly_increases(17, self.prev_failure_count as nat);
                }
            }
            return MAX_WAIT_AFTER_FAILURE_MS;
        }
        let mut p: u64 = 1;
        let mut i: u32 = 0;
        while i < self.prev_failure_count
            invariant
                i <= self.prev_failure_count < 17,
                p == pow2(i as nat),
                p <= 65536,
            decreases self.prev_failure_count - i,
        {
            proof {
                lemma2_to64();
                if i as nat + 1 < 17 {
                    lemma_pow2_strictly_increases(i as nat + 1, 17);
                }
            }
            p = p * 2;
            i = i + 1;
        }
        1000 * p
    }
}

/// Persisted backoff state: all clear, or the latest failure.
#[derive(Clone, Copy, PartialEq, Eq, Structural, Debug)]
pub enum State {
    Success,
    Failure(Failure),
}

/// What the host must do to the backoff file after a transition.
#[derive(Debug)]
pub enum BackoffFileOp {
    Write(Vec<u8>),
    Delete,
}

/// `{"at":"` — the opening of the persisted file.
pub open spec fn backoff_prefix_spec() -> Seq<u8> {
    seq![123u8, 34u8, 97u8, 116u8, 34u8, 58u8, 34u8]
}

/// `","prev_failure_count":` — the middle of the persisted file.
pub open spec fn backoff_mid_spec() -> Seq<u8> {
    seq![
        34u8,
        44u8,
        34u8,
        112u8,
        114u8,
        101u8,
        118u8,
        95u8,
        102u8,
        97u8,
        105u8,
        108u8,
        117u8,
        114u8,
        101u8,
        95u8,
        99u8,
        111u8,
        117u8,
        110u8,
        116u8,
        34u8,
        58u8,
    ]
}

/// Where the timestamp field of a backoff file ends: the first
/// quotation mark past its opening.  Timestamp texts hold no
/// quotation mark, so the scan is exact.
pub open spec fn backoff_ts_end(s: Seq<u8>) -> int {
    crate::encoding::sep_at(s, 7, 34u8)
}

/// Shape of the persisted backoff file: the two fixed pieces around a
/// timestamp text and a decimal failure count, closed by a brace.
pub open spec fn is_backoff_file(s: Seq<u8>) -> bool {
    let q = backoff_ts_end(s);
    &&& s.len() >= 52
    &&& s.subrange(0, 7) == backoff_prefix_spec()
    &&& is_timestamp_text(s.subrange(7, q))
    &&& q + 23 < s.len() - 1
    &&& s.subrange(q, q + 23) == backoff_mid_spec()
    &&& all_dec_digits(s.subrange(q + 23, s.len() - 1))
    &&& dec_value(s.subrange(q + 23, s.len() - 1)) <= u32::MAX
    &&& s.last() == 125u8
}

/// The failure a well-shaped backoff file records.
pub open spec fn backoff_file_failure(s: Seq<u8>) -> Failure {
    let q = backoff_ts_end(s);
    Failure {
        at_ms: timestamp_value(s.subrange(7, q)) as u64,
        prev_failure_count: dec_value(s.subrange(q + 23, s.len() - 1)) as u32,
    }
}

/// Append literal bytes one by one (the fixed pieces of the file).
fn push_backoff_prefix(out: &mut Vec<u8>)
    ensures
        final(out)@ == old(out)@ + backoff_prefix_spec(),
{
    out.push(123u8);
    out.push(34u8);
    out.push(97u8);
    out.push(116u8);
    out.push(34u8);
    out.push(58u8);
    out.push(34u8);
    proof {
        assert(out@ =~= old(out)@ + backoff_prefix_spec());
    }
}

fn push_backoff_mid(out: &mut Vec<u8>)
    ensures
        final(out)@ == old(out)@ + backoff_mid_spec(),
{
    out.push(34u8);
    out.push(44u8);
    out.push(34u8);
    out.push(112u8);
    out.push(114u8);
    out.push(101u8);
    out.push(118u8);
    out.push(95u8);
    out.push(102u8);
    out.push(97u8);
    out.push(105u8);
    out.push(108u8);
    out.push(117u8);
    out.push(114u8);
    out.push(101u8);
    out.push(95u8);
    out.push(99u8);
    out.push(111u8);
    out.push(117u8);
    out.push(110u8);
    out.push(116u8);
    out.push(34u8);
    out.push(58u8);
    proof {
        assert(out@ =~= old(out)@ + backoff_mid_spec());
    }
}

/// Do the bytes of `s` starting at `at` match `pat` exactly?
pub fn match_bytes(s: &[u8], at: usize, pat: &Vec<u8>) -> (r: bool)
    requires
        at + pat@.len() <= s@.len(),
    ensures
        r == (s@.subrange(at as int, at as int + pat@.len()) == pat@),
{
    let n = s.len();
    let mut i: usize = 0;
    while i < pat.len()
        invariant
            0 <= i <= pat@.len(),
            at + pat@.len() <= s@.len(),
            n == s@.len(),
            forall|j: int| 0 <= j < i ==> s@[at + j] == pat@[j],
        decreases pat@.len() - i,
    {
        if s[at + i] != pat[i] {
            proof {
                assert(s@.subrange(at as int, at as int + pat@.len())[i as int] != pat@[i as int]);
            }
            return false;
        }
        i = i + 1;
    }
    proof {
        assert(s@.subrange(at as int, at as int + pat@.len()) =~= pat@);
    }
    true
}

/// Print the persisted form of a failure.
pub fn encode_backoff_file(f: &Failure) -> (r: Vec<u8>)
    requires
        (f.at_ms as int / DAY_MS as int) < day_limit(),
    ensures
        is_backoff_file(r@),
        backoff_file_failure(r@) == *f,
{
    let mut out: Vec<u8> = Vec::new();
    push_backoff_prefix(&mut out);
    let mut ts = format_timestamp(f.at_ms);
    let ghost tsv = ts@;
    out.append(&mut ts);
    push_backoff_mid(&mut out);
    let mut count = u64_to_dec(f.prev_failure_count as u64);
    let ghost cntv = count@;
    proof {
        crate::encoding::lemma_dec_bytes_digits(f.prev_failure_count as nat);
        crate::encoding::lemma_dec_roundtrip(f.prev_failure_count as nat);
    }
    out.append(&mut count);
    out.push(125u8);
    proof {
        let s = out@;
        assert(s =~= backoff_prefix_spec() + tsv + backoff_mid_spec() + cntv + seq![125u8]);
        assert(s.subrange(0, 7) =~= backoff_prefix_spec());
        assert(s.subrange(7, 31) =~= tsv);
        crate::timestamp::lemma_timestamp_no_quote(tsv);
        assert forall|j: int| 7 <= j < 31 implies s[j] != 34u8 by {
            assert(s[j] == tsv[j - 7]);
        }
        assert(s[31] == 34u8);
        crate::encoding::lemma_sep_at_found(s, 7, 34u8, 31);
        assert(s.subrange(31, 54) =~= backoff_mid_spec());
        assert(s.subrange(54, s.len() - 1) =~= cntv);
        assert(s.last() == 125u8);
    }
    out
}

/// Read the persisted form back.  Succeeds exactly on well-shaped files.
pub fn parse_backoff_file(s: &[u8]) -> (r: Option<Failure>)
    ensures
        match r {
            Some(f) => is_backoff_file(s@) && f == backoff_file_failure(s@),
            None => !is_backoff_file(s@),
        },
{
    if s.len() < 52 {
        return None;
    }
    let mut prefix: Vec<u8> = Vec::new();
    push_backoff_prefix(&mut prefix);
    if !match_bytes(s, 0, &prefix) {
        return None;
    }
    let q = crate::encoding::find_sep(s, 7, 34u8);
    if q >= s.len() - 24 {
        return None;
    }
    let mut mid: Vec<u8> = Vec::new();
    push_backoff_mid(&mut mid);
    if !match_bytes(s, q, &mid) {
        return None;
    }
    let at_ms = match parse_timestamp(vstd::slice::slice_subrange(s, 7, q)) {
        Some(v) => v,
        None => {
            return None;
        },
    };
    if s[s.len() - 1] != 125u8 {
        return None;
    }
    let count = match parse_u32_dec(vstd::slice::slice_subrange(s, q + 23, s.len() - 1)) {
        Some(v) => v,
        None => {
            return None;
        },
    };
    Some(Failure { at_ms, prev_failure_count: count })
}

/// Which sleep the runner owes before the next upload attempt.
pub enum SleepFor {
    Forever,
    Duration(u64),
}

impl SleepFor {
    /// The duration inside; asking this of a `Forever` is a caller error.
    pub fn unwrap_duration(&self) -> (r: u64)
        requires
            !(self is Forever),
        ensures
            *self == SleepFor::Duration(r),
    {
        match self {
            SleepFor::Forever => unreached(),
            SleepFor::Duration(d) => *d,
        }
    }

    pub fn is_forever(&self) -> (r: bool)
        ensures
            r == (*self is Forever),
    {
        matches!(self, SleepFor::Forever)
    }
}

/// The backoff state machine.  `persisted` models the backoff file's
/// decoded content: what a fresh load of the file would yield.
pub struct Backoff {
    pub stopped: bool,
    pub state: State,
    pub persisted: Option<Failure>,
}

/// The wait `sleep_for` owes in a given state at a given moment.
pub open spec fn sleep_for_spec(b: Backoff, now_ms: u64) -> SleepFor {
    if b.stopped {
        SleepFor::Forever
    } else {
        match b.state {
            State::Success => SleepFor::Duration(0),
            State::Failure(f) => {
                let since = if now_ms >= f.at_ms {
                    (now_ms - f.at_ms) as u64
                } else {
                    0u64
                };
                let owed = duration_to_retry_spec(f.prev_failure_count as nat);
                SleepFor::Duration(
                    if owed >= since {
                        (owed - since) as u64
                    } else {
                        0u64
                    },
                )
            },
        }
    }
}

impl Backoff {
    /// Decode a freshly read backoff file.  A file that fails to decode
    /// is reported for deletion, and the state starts clear; so does an
    /// absent file.
    pub fn new_with(content: Option<&Vec<u8>>) -> (r: (Backoff, bool))
        ensures
            !r.0.stopped,
            match content {
                Some(bytes) => {
                    if is_backoff_file(bytes@) {
                        r.0.state == State::Failure(backoff_file_failure(bytes@)) && r.0.persisted
                            == Some(backoff_file_failure(bytes@)) && !r.1
                    } else {
                        r.0.state == State::Success && r.0.persisted is None && r.1
                    }
                },
                None => r.0.state == State::Success && r.0.persisted is None && !r.1,
            },
    {
        match content {
            Some(bytes) => match parse_backoff_file(bytes.as_slice()) {
                Some(f) => (
                    Backoff { stopped: false, state: State::Failure(f), persisted: Some(f) },
                    false,
                ),
                None => (Backoff { stopped: false, state: State::Success, persisted: None }, true),
            },
            None => (Backoff { stopped: false, state: State::Success, persisted: None }, false),
        }
    }

    /// How long to sleep before the next upload attempt: forever while
    /// stopped, not at all in success, and the remainder of the owed
    /// wait after a failure.  A clock that moved backward counts as no
    /// time elapsed.
    pub fn sleep_for(&self, now_ms: u64) -> (r: SleepFor)
        ensures
            r == sleep_for_spec(*self, now_ms),
    {
        if self.stopped {
            return SleepFor::Forever;
        }
        match &self.state {
            State::Success => SleepFor::Duration(0),
            State::Failure(f) => {
                let since = if now_ms >= f.at_ms {
                    now_ms - f.at_ms
                } else {
                    0
                };
                let owed = f.duration_to_retry();
                SleepFor::Duration(
                    if owed >= since {
                        owed - since
                    } else {
                        0
                    },
                )
            },
        }
    }

    /// Stop sleeping-based retries; `sleep_for` returns `Forever` until
    /// `resume`.  The persisted state is untouched.
    pub fn stop(&mut self)
        ensures
            *final(self) == (Backoff { stopped: true, ..*old(self) }),
    {
        self.stopped = true;
    }

    pub fn resume(&mut self)
        ensures
            *final(self) == (Backoff { stopped: false, ..*old(self) }),
    {
        self.stopped = false;
    }

    pub fn is_stopped(&self) -> (r: bool)
        ensures
            r == self.stopped,
    {
        self.stopped
    }

    /// An upload went through: clear the state and delete the file.
    pub fn succeeded(&mut self) -> (op: BackoffFileOp)
        ensures
            final(self).state == State::Success,
            final(self).persisted is None,
            final(self).stopped == old(self).stopped,
            op is Delete,
    {
        self.state = State::Success;
        self.persisted = None;
        BackoffFileOp::Delete
    }

    /// An upload failed: advance the failure count, stamp the moment,
    /// and write the file.  The count saturates at its type's maximum;
    /// the owed wait is clamped far earlier.
    pub fn failed(&mut self, now_ms: u64) -> (op: BackoffFileOp)
        requires
            (now_ms as int / DAY_MS as int) < day_limit(),
        ensures
            ({
                let count = match old(self).state {
                    State::Success => 0u32,
                    State::Failure(f) => if f.prev_failure_count < u32::MAX {
                        (f.prev_failure_count + 1) as u32
                    } else {
                        u32::MAX
                    },
                };
                let f = Failure { at_ms: now_ms, prev_failure_count: count };
                &&& final(self).state == State::Failure(f)
                &&& final(self).persisted == Some(f)
                &&& final(self).stopped == old(self).stopped
                &&& match op {
                    BackoffFileOp::Write(bytes) => is_backoff_file(bytes@) && backoff_file_failure(
                        bytes@,
                    ) == f,
                    BackoffFileOp::Delete => false,
                }
            }),
    {
        let count = match &self.state {
            State::Success => 0u32,
            State::Failure(f) => if f.prev_failure_count < u32::MAX {
                f.prev_failure_count + 1
            } else {
                u32::MAX
            },
        };
        let f = Failure { at_ms: now_ms, prev_failure_count: count };
        self.state = State::Failure(f);
        self.persisted = Some(f);
        BackoffFileOp::Write(encode_backoff_file(&f))
    }
}

/// The retry wait is the clamped exponential of the failure count:
/// one second doubled per preceding failure, at most one day.
pub proof fn lemma_duration_to_retry_clamp(n: nat)
    ensures
        n < 17 ==> duration_to_retry_spec(n) == 1000 * pow2(n),
        n >= 17 ==> duration_to_retry_spec(n) == 86_400_000,
{
    lemma2_to64();
    if n >= 17 {
        if n > 17 {
            lemma_pow2_strictly_increases(17, n);
        }
    } else {
        if n < 16 {
            lemma_pow2_strictly_increases(n, 16);
        }
    }
}

/// `sleep_for` owes an unbounded sleep exactly while stopped.
pub proof fn lemma_sleep_forever_iff_stopped(b: Backoff, now_ms: u64)
    ensures
        (sleep_for_spec(b, now_ms) is Forever) <==> b.stopped,
{
}

} // verus!
