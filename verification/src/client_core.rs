//! Client-side reconnection helpers: the retry delay and where a stream resumes.
use std::time::Duration;
use vstd::prelude::*;

verus! {

/// Names the `Duration` that `Duration::from_millis(ms)` returns.
pub uninterp spec fn duration_of_millis(ms: u64) -> Duration;

/// `Duration::from_millis`. Its result is a function of `ms` alone; the contract
/// names it and says nothing more.
#[verifier::external_body]
pub(crate) fn millis(ms: u64) -> (d: Duration)
    ensures
        d == duration_of_millis(ms),
{
    Duration::from_millis(ms)
}

/// First delay, in milliseconds.
pub const INITIAL_DELAY_MS: u64 = 250;

/// Longest delay, in milliseconds.
pub const MAX_DELAY_MS: u64 = 10_000;

/// Reconnect delay: starts at 250 ms, doubles on each use, never exceeds 10 s.
pub struct Backoff {
    next_ms: u64,
}

impl Backoff {
    #[verifier::type_invariant]
    spec fn inv(self) -> bool {
        INITIAL_DELAY_MS <= self.next_ms <= MAX_DELAY_MS
    }

    /// The delay the next call of `next_delay` returns, in milliseconds.
    pub closed spec fn next_ms(&self) -> u64 {
        self.next_ms
    }

    pub fn new() -> (b: Self)
        ensures
            b.next_ms() == INITIAL_DELAY_MS,
            b.next_ms() == delay_ms_after(0),
    {
        Backoff { next_ms: INITIAL_DELAY_MS }
    }

    /// Returns the current delay and doubles the next one, up to the cap.
    pub fn next_delay(&mut self) -> (d: Duration)
        ensures
            d == duration_of_millis(old(self).next_ms()),
            INITIAL_DELAY_MS <= old(self).next_ms() <= MAX_DELAY_MS,
            final(self).next_ms() == if 2 * old(self).next_ms() <= MAX_DELAY_MS {
                2 * old(self).next_ms()
            } else {
                MAX_DELAY_MS as int
            },
            final(self).next_ms() == doubled_ms(old(self).next_ms() as int),
    {
        proof {
            use_type_invariant(&*self);
        }
        let current = self.next_ms;
        self.next_ms = if current <= MAX_DELAY_MS / 2 {
            current * 2
        } else {
            MAX_DELAY_MS
        };
        millis(current)
    }

    /// Back to the first delay (after a successful connection).
    pub fn reset(&mut self)
        ensures
            final(self).next_ms() == INITIAL_DELAY_MS,
            final(self).next_ms() == delay_ms_after(0),
    {
        self.next_ms = INITIAL_DELAY_MS;
    }
}

/// The delay after `n`, in milliseconds: doubled, up to [`MAX_DELAY_MS`].
pub open spec fn doubled_ms(n: int) -> int {
    if 2 * n <= MAX_DELAY_MS {
        2 * n
    } else {
        MAX_DELAY_MS as int
    }
}

/// The delay the `k`-th call of `next_delay` returns (counted from 0) after `new` or
/// `reset`, in milliseconds.
pub open spec fn delay_ms_after(k: nat) -> int
    decreases k,
{
    if k == 0 {
        INITIAL_DELAY_MS as int
    } else {
        doubled_ms(delay_ms_after((k - 1) as nat))
    }
}

/// `2^k`.
pub open spec fn pow2(k: nat) -> int
    decreases k,
{
    if k == 0 {
        1
    } else {
        2 * pow2((k - 1) as nat)
    }
}

/// The reconnect delays double from 250 ms and stop at 10 s: the `k`-th delay after
/// a (re)start is `min(250 ms * 2^k, 10 s)`, and no delay is shorter than the one
/// before it.
pub proof fn delays_double_up_to_the_cap(k: nat)
    ensures
        delay_ms_after(k) == if INITIAL_DELAY_MS * pow2(k) <= MAX_DELAY_MS {
            INITIAL_DELAY_MS * pow2(k)
        } else {
            MAX_DELAY_MS as int
        },
        delay_ms_after(k) <= delay_ms_after(k + 1),
        INITIAL_DELAY_MS <= delay_ms_after(k) <= MAX_DELAY_MS,
    decreases k,
{
    if k > 0 {
        delays_double_up_to_the_cap((k - 1) as nat);
        assert(pow2(k) == 2 * pow2((k - 1) as nat));
        assert(INITIAL_DELAY_MS * pow2(k) == 2 * (INITIAL_DELAY_MS * pow2((k - 1) as nat)));
        assert(pow2((k - 1) as nat) >= 1) by {
            lemma_pow2_pos((k - 1) as nat);
        }
    }
    assert(delay_ms_after(k + 1) == doubled_ms(delay_ms_after(k)));
}

/// The closed form over a run of calls: if `ms[0]` is the delay after `new` or
/// `reset` and each next value is what `next_delay` leaves after returning the one
/// before (its contract), then the `k`-th call returns `min(250 ms * 2^k, 10 s)`.
pub proof fn backoff_after_k_calls(ms: Seq<int>, k: int)
    requires
        ms.len() > 0,
        ms[0] == INITIAL_DELAY_MS,
        forall|i: int| 0 <= i < ms.len() - 1 ==> #[trigger] ms[i + 1] == doubled_ms(ms[i]),
        0 <= k < ms.len(),
    ensures
        ms[k] == delay_ms_after(k as nat),
        ms[k] == if INITIAL_DELAY_MS * pow2(k as nat) <= MAX_DELAY_MS {
            INITIAL_DELAY_MS * pow2(k as nat)
        } else {
            MAX_DELAY_MS as int
        },
    decreases k,
{
    if k > 0 {
        backoff_after_k_calls(ms, k - 1);
        assert(ms[(k - 1) + 1] == doubled_ms(ms[k - 1]));
    }
    delays_double_up_to_the_cap(k as nat);
}

proof fn lemma_pow2_pos(k: nat)
    ensures
        pow2(k) >= 1,
    decreases k,
{
    if k > 0 {
        lemma_pow2_pos((k - 1) as nat);
    }
}

impl Default for Backoff {
    fn default() -> (b: Self)
        ensures
            b.next_ms() == INITIAL_DELAY_MS,
    {
        Self::new()
    }
}

/// Where a resumed stream should pick up: the sequence number it has received up to.
pub struct ResumeTracker {
    last_seq: Option<u64>,
}

impl ResumeTracker {
    pub closed spec fn spec_last_seq(&self) -> Option<u64> {
        self.last_seq
    }

    pub fn new() -> (t: Self)
        ensures
            t.spec_last_seq() is None,
    {
        ResumeTracker { last_seq: None }
    }

    /// A data frame ended at `end_seq`.
    pub fn on_data(&mut self, end_seq: u64)
        ensures
            final(self).spec_last_seq() == Some(end_seq),
    {
        self.last_seq = Some(end_seq);
    }

    /// A resync ended; `seq` is its authoritative anchor.
    pub fn on_resync_end(&mut self, seq: u64)
        ensures
            final(self).spec_last_seq() == Some(seq),
    {
        self.last_seq = Some(seq);
    }

    pub fn last_seq(&self) -> (r: Option<u64>)
        ensures
            r == self.spec_last_seq(),
    {
        self.last_seq
    }
}

impl Default for ResumeTracker {
    fn default() -> (t: Self)
        ensures
            t.spec_last_seq() is None,
    {
        Self::new()
    }
}

} // verus!
