//! The decisions of one dispatch lane: when it may start its next request,
//! and whether a failed attempt is retried or published.
use vstd::prelude::*;

verus! {

/// Least time, in milliseconds, between the starts of two consecutive
/// requests of one lane.
pub const MIN_INTERVAL_MS: u64 = 1000;

/// Pause, in milliseconds, before a failed attempt is tried again.
pub const BACKOFF_MS: u64 = 1000;

/// Attempts made for one request before its failure is published.
pub const MAX_ATTEMPTS: u32 = 4;

/// What a lane does after an attempt has ended.
#[derive(Debug, Clone, Copy, PartialEq, Eq, Structural)]
pub enum AfterAttempt {
    /// Sleep this many milliseconds, then attempt the same request again.
    Retry(u64),
    /// Publish the outcome of the last attempt.
    Publish,
}

/// Pacing and retry state of one lane. Times are milliseconds on a clock
/// that the caller reads; the lane never reads a clock itself.
#[derive(Debug, Clone, Copy)]
pub struct Lane {
    /// Start of the lane's most recent request, if it has started one.
    pub last_start: Option<u64>,
    /// Attempts made so far for the current request.
    pub attempts: u32,
}

/// Time elapsed since `last`, taken as zero when the clock reads earlier.
pub open spec fn elapsed(last: u64, now: u64) -> int {
    if now >= last {
        now - last
    } else {
        0
    }
}

/// Whether a lane whose last request started at `last` may start one at `now`.
pub open spec fn may_start(last: Option<u64>, now: u64) -> bool {
    match last {
        None => true,
        Some(l) => elapsed(l, now) >= MIN_INTERVAL_MS,
    }
}

/// The decision after an attempt: a state of `attempts` attempts made, and
/// whether the transport delivered a response.
pub open spec fn after_attempt_spec(attempts: u32, delivered: bool) -> (AfterAttempt, u32) {
    if delivered || attempts >= MAX_ATTEMPTS {
        (AfterAttempt::Publish, attempts)
    } else {
        (AfterAttempt::Retry(BACKOFF_MS), (attempts + 1) as u32)
    }
}

impl Lane {
    /// The lane's state invariant: no more attempts than the cap allows.
    pub open spec fn wf(&self) -> bool {
        self.attempts <= MAX_ATTEMPTS
    }

    /// A lane that has not started any request.
    pub fn new() -> (r: Lane)
        ensures
            r.last_start is None,
            r.attempts == 0,
            r.wf(),
    {
        Lane { last_start: None, attempts: 0 }
    }

    /// Asks to start the next request at `now`. Returns `None` when it
    /// starts: its start is recorded and it counts one attempt. Returns
    /// `Some(d)` when the lane must first sleep `d` milliseconds; nothing
    /// changes then.
    pub fn pace(&mut self, now: u64) -> (r: Option<u64>)
        requires
            old(self).wf(),
        ensures
            may_start(old(self).last_start, now) ==> r is None && final(self).last_start == Some(now)
                && final(self).attempts == 1,
            !may_start(old(self).last_start, now) ==> r == Some(
                (MIN_INTERVAL_MS - elapsed(old(self).last_start->0, now)) as u64,
            ) && *final(self) == *old(self),
            r is Some ==> 0 < r->0 <= MIN_INTERVAL_MS,
            final(self).wf(),
    {
        match self.last_start {
            Some(last) => {
                let gone: u64 = if now >= last {
                    now - last
                } else {
                    0
                };
                if gone < MIN_INTERVAL_MS {
                    return Some(MIN_INTERVAL_MS - gone);
                }
            },
            None => {},
        }
        self.last_start = Some(now);
        self.attempts = 1;
        None
    }

    /// Decides what follows an attempt of the current request;
    /// `delivered` tells whether a response came back (whatever its status).
    pub fn after_attempt(&mut self, delivered: bool) -> (r: AfterAttempt)
        requires
            old(self).wf(),
        ensures
            (r, final(self).attempts) == after_attempt_spec(old(self).attempts, delivered),
            final(self).last_start == old(self).last_start,
            final(self).wf(),
    {
        if delivered || self.attempts >= MAX_ATTEMPTS {
            AfterAttempt::Publish
        } else {
            self.attempts = self.attempts + 1;
            AfterAttempt::Retry(BACKOFF_MS)
        }
    }
}

/// A request whose attempts all fail is attempted `MAX_ATTEMPTS` times: the
/// first three failures are retried after the backoff, the fourth is
/// published, and a lane within its invariant never counts a fifth attempt.
pub proof fn lemma_retry_cap()
    ensures
        after_attempt_spec(1, false) == (AfterAttempt::Retry(BACKOFF_MS), 2u32),
        after_attempt_spec(2, false) == (AfterAttempt::Retry(BACKOFF_MS), 3u32),
        after_attempt_spec(3, false) == (AfterAttempt::Retry(BACKOFF_MS), 4u32),
        after_attempt_spec(4, false) == (AfterAttempt::Publish, 4u32),
        forall|a: u32, delivered: bool|
            a <= MAX_ATTEMPTS ==> #[trigger] after_attempt_spec(a, delivered).1 <= MAX_ATTEMPTS,
{
}

/// Whether the starts in `starts` (lane, time), listed in the order in which
/// the requests were handed out, keep each lane's starts `MIN_INTERVAL_MS` apart.
pub open spec fn lanes_paced(starts: Seq<(nat, int)>) -> bool {
    forall|i: int, j: int|
        0 <= i < j < starts.len() && #[trigger] starts[i].0 == #[trigger] starts[j].0 ==> starts[j].1
            >= starts[i].1 + MIN_INTERVAL_MS
}

/// Number of starts in `starts` made by lane `l`.
pub open spec fn lane_count(starts: Seq<(nat, int)>, l: nat) -> nat
    decreases starts.len(),
{
    if starts.len() == 0 {
        0
    } else {
        lane_count(starts.drop_last(), l) + if starts.last().0 == l {
            1nat
        } else {
            0nat
        }
    }
}

/// Starts made by the lanes `0..n` together.
pub open spec fn count_below(starts: Seq<(nat, int)>, n: nat) -> nat
    decreases n,
{
    if n == 0 {
        0
    } else {
        count_below(starts, (n - 1) as nat) + lane_count(starts, (n - 1) as nat)
    }
}

proof fn lemma_count_below_empty(n: nat)
    ensures
        count_below(Seq::empty(), n) == 0,
    decreases n,
{
    if n > 0 {
        lemma_count_below_empty((n - 1) as nat);
    }
}

proof fn lemma_count_below_push(p: Seq<(nat, int)>, x: (nat, int), n: nat)
    ensures
        count_below(p.push(x), n) == count_below(p, n) + if x.0 < n {
            1nat
        } else {
            0nat
        },
    decreases n,
{
    if n > 0 {
        lemma_count_below_push(p, x, (n - 1) as nat);
        assert(p.push(x).drop_last() == p);
    }
}

proof fn lemma_count_below_total(s: Seq<(nat, int)>, n: nat)
    requires
        forall|i: int| 0 <= i < s.len() ==> #[trigger] s[i].0 < n,
    ensures
        count_below(s, n) == s.len(),
    decreases s.len(),
{
    if s.len() == 0 {
        lemma_count_below_empty(n);
        assert(s == Seq::<(nat, int)>::empty());
    } else {
        let p = s.drop_last();
        assert forall|i: int| 0 <= i < p.len() implies #[trigger] p[i].0 < n by {
            assert(p[i] == s[i]);
        }
        lemma_count_below_total(p, n);
        lemma_count_below_push(p, s.last(), n);
        assert(p.push(s.last()) == s);
    }
}

proof fn lemma_count_below_bound(s: Seq<(nat, int)>, n: nat, c: nat)
    requires
        forall|l: nat| l < n ==> #[trigger] lane_count(s, l) <= c,
    ensures
        count_below(s, n) <= n * c,
    decreases n,
{
    if n > 0 {
        lemma_count_below_bound(s, (n - 1) as nat, c);
        assert(lane_count(s, (n - 1) as nat) <= c);
        assert(count_below(s, n) <= n * c) by (nonlinear_arith)
            requires
                count_below(s, n) == count_below(s, (n - 1) as nat) + lane_count(s, (n - 1) as nat),
                count_below(s, (n - 1) as nat) <= (n - 1) * c,
                lane_count(s, (n - 1) as nat) <= c,
                n > 0,
        ;
    }
}

/// Two starts of lane `l`, the second being its last one, that lie
/// `lane_count - 1` intervals apart.
proof fn lemma_lane_span(s: Seq<(nat, int)>, l: nat) -> (r: (int, int))
    requires
        lane_count(s, l) >= 1,
        lanes_paced(s),
    ensures
        0 <= r.0 <= r.1 < s.len(),
        s[r.0].0 == l,
        s[r.1].0 == l,
        s[r.1].1 - s[r.0].1 >= (lane_count(s, l) - 1) * MIN_INTERVAL_MS,
        forall|t: int| r.1 < t < s.len() ==> #[trigger] s[t].0 != l,
    decreases s.len(),
{
    let p = s.drop_last();
    let last = (s.len() - 1) as int;
    assert forall|i: int, j: int|
        0 <= i < j < p.len() && #[trigger] p[i].0 == #[trigger] p[j].0 implies p[j].1 >= p[i].1
            + MIN_INTERVAL_MS by {
        assert(s[i].0 == s[j].0);
    }
    if s.last().0 != l {
        let q = lemma_lane_span(p, l);
        assert forall|t: int| q.1 < t < s.len() implies #[trigger] s[t].0 != l by {
            if t < last {
                assert(s[t] == p[t]);
            }
        }
        q
    } else if lane_count(p, l) == 0 {
        (last, last)
    } else {
        let q = lemma_lane_span(p, l);
        assert(s[q.1].0 == s[last].0);
        (q.0, last)
    }
}

/// With `n` lanes that each keep their own starts `MIN_INTERVAL_MS` apart,
/// handing out `m >= n` requests takes at least `ceil(m / n) - 1` intervals
/// between the earliest and the latest start: some lane starts `ceil(m / n)`
/// of them.
pub proof fn lemma_rate_ceiling(n: nat, starts: Seq<(nat, int)>)
    requires
        n >= 1,
        starts.len() >= n,
        forall|i: int| 0 <= i < starts.len() ==> #[trigger] starts[i].0 < n,
        lanes_paced(starts),
    ensures
        exists|i: int, j: int|
            0 <= i < starts.len() && 0 <= j < starts.len() && #[trigger] starts[j].1
                - #[trigger] starts[i].1 >= ((starts.len() + n - 1) / (n as int) - 1) * MIN_INTERVAL_MS,
{
    let m = starts.len();
    let k = ((m + n - 1) / (n as int)) as nat;
    lemma_count_below_total(starts, n);
    assert(n * (k - 1) < m && k >= 1) by {
        vstd::arithmetic::div_mod::lemma_fundamental_div_mod((m + n - 1) as int, n as int);
        vstd::arithmetic::div_mod::lemma_mod_bound((m + n - 1) as int, n as int);
        assert(n * (k - 1) < m && k >= 1) by (nonlinear_arith)
            requires
                m + n - 1 == n * k + (m + n - 1) % (n as int),
                0 <= (m + n - 1) % (n as int) < n,
                m >= n >= 1,
        ;
    }
    if forall|l: nat| l < n ==> #[trigger] lane_count(starts, l) <= k - 1 {
        lemma_count_below_bound(starts, n, (k - 1) as nat);
        assert(false);
    }
    let l = choose|l: nat| l < n && #[trigger] lane_count(starts, l) > k - 1;
    let r = lemma_lane_span(starts, l);
    assert(starts[r.1].1 - starts[r.0].1 >= (k - 1) * MIN_INTERVAL_MS);
}

} // verus!
