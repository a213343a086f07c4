//! Sliding-window rate limits: per address for suggestions and troll reports, and globally
//! for uploads. A window remembers the times of the requests it accepted; a request is
//! accepted while fewer than `limit` of those lie within `window` of it.
//!
//! Times are nanoseconds on a monotonic clock.
use vstd::prelude::*;

verus! {

/// How long ago `t` was at time `now`; zero for a time that is not yet past.
pub open spec fn age(now: u64, t: u64) -> int {
    if now >= t {
        now - t
    } else {
        0
    }
}

/// The times of `stamps` that lie within `window` of `now`, in order.
pub open spec fn recent(stamps: Seq<u64>, now: u64, window: u64) -> Seq<u64>
    decreases stamps.len(),
{
    if stamps.len() == 0 {
        stamps
    } else {
        let r = recent(stamps.drop_last(), now, window);
        if age(now, stamps.last()) < window {
            r.push(stamps.last())
        } else {
            r
        }
    }
}

/// Whether a window holding `stamps` accepts a request at `now`.
pub open spec fn admits(stamps: Seq<u64>, now: u64, window: u64, limit: nat) -> bool {
    recent(stamps, now, window).len() < limit
}

/// What a window holding `stamps` holds after a request at `now`: the recent times, and
/// `now` where the request was accepted.
pub open spec fn after(stamps: Seq<u64>, now: u64, window: u64, limit: nat) -> Seq<u64> {
    let r = recent(stamps, now, window);
    if r.len() < limit {
        r.push(now)
    } else {
        r
    }
}

/// The times of the requests a window accepted.
pub struct RateWindow {
    stamps: Vec<u64>,
}

impl View for RateWindow {
    type V = Seq<u64>;

    closed spec fn view(&self) -> Seq<u64> {
        self.stamps@
    }
}

impl RateWindow {
    /// A window that has accepted nothing.
    pub fn new() -> (w: RateWindow)
        ensures
            w@ == Seq::<u64>::empty(),
    {
        RateWindow { stamps: Vec::new() }
    }

    /// How many request times the window holds.
    pub fn len(&self) -> (n: usize)
        ensures
            n == self@.len(),
    {
        self.stamps.len()
    }

    /// Handles a request at `now`: forgets the times older than `window`, then accepts the
    /// request, and remembers it, exactly when fewer than `limit` times remain.
    pub fn try_record(&mut self, now: u64, window: u64, limit: usize) -> (accepted: bool)
        ensures
            accepted == admits(old(self)@, now, window, limit as nat),
            final(self)@ == after(old(self)@, now, window, limit as nat),
    {
        let ghost old_stamps = self.stamps@;
        let n = self.stamps.len();
        let mut kept: Vec<u64> = Vec::new();
        let mut i: usize = 0;
        while i < n
            invariant
                n == old_stamps.len(),
                self.stamps@ == old_stamps,
                i <= n,
                kept@ == recent(old_stamps.take(i as int), now, window),
            decreases n - i,
        {
            let t = self.stamps[i];
            proof {
                assert(old_stamps.take(i + 1).drop_last() == old_stamps.take(i as int));
                assert(old_stamps.take(i + 1).last() == t);
            }
            if now.saturating_sub(t) < window {
                kept.push(t);
            }
            i = i + 1;
        }
        proof {
            assert(old_stamps.take(n as int) == old_stamps);
        }
        if kept.len() >= limit {
            self.stamps = kept;
            return false;
        }
        kept.push(now);
        self.stamps = kept;
        true
    }
}

// ---------------------------------------------------------------- laws

/// The window held after requests at the times `nows`, one after the other, from empty.
pub open spec fn replay(nows: Seq<u64>, window: u64, limit: nat) -> Seq<u64>
    decreases nows.len(),
{
    if nows.len() == 0 {
        Seq::<u64>::empty()
    } else {
        after(replay(nows.drop_last(), window, limit), nows.last(), window, limit)
    }
}

/// Whether, of requests at the times `nows`, the `j`th was accepted.
pub open spec fn accepted_at(nows: Seq<u64>, window: u64, limit: nat, j: int) -> bool {
    admits(replay(nows.take(j), window, limit), nows[j], window, limit)
}

/// The times of the accepted requests among the first `n` that lie within `window` of `now`.
pub open spec fn accepted_within(
    nows: Seq<u64>,
    window: u64,
    limit: nat,
    n: int,
    now: u64,
) -> Seq<u64>
    decreases n,
{
    if n <= 0 {
        Seq::<u64>::empty()
    } else {
        let r = accepted_within(nows, window, limit, n - 1, now);
        if accepted_at(nows, window, limit, n - 1) && age(now, nows[n - 1]) < window {
            r.push(nows[n - 1])
        } else {
            r
        }
    }
}

pub open spec fn nondecreasing(nows: Seq<u64>) -> bool {
    forall|i: int, j: int| 0 <= i <= j < nows.len() ==> nows[i] <= nows[j]
}

proof fn lemma_replay_len(nows: Seq<u64>, window: u64, limit: nat)
    ensures
        replay(nows, window, limit).len() <= limit,
    decreases nows.len(),
{
    if nows.len() > 0 {
        lemma_replay_len(nows.drop_last(), window, limit);
        lemma_recent_len(replay(nows.drop_last(), window, limit), nows.last(), window);
    }
}

proof fn lemma_recent_len(stamps: Seq<u64>, now: u64, window: u64)
    ensures
        recent(stamps, now, window).len() <= stamps.len(),
    decreases stamps.len(),
{
    if stamps.len() > 0 {
        lemma_recent_len(stamps.drop_last(), now, window);
    }
}

/// Narrowing the accepted times of a window to a later moment.
proof fn lemma_recent_accepted(nows: Seq<u64>, window: u64, limit: nat, n: int, t0: u64, t: u64)
    requires
        0 <= n <= nows.len(),
        nondecreasing(nows),
        n > 0 ==> nows[n - 1] <= t0,
        t0 <= t,
    ensures
        recent(accepted_within(nows, window, limit, n, t0), t, window) == accepted_within(
            nows,
            window,
            limit,
            n,
            t,
        ),
    decreases n,
{
    if n > 0 {
        if n > 1 {
            assert(nows[n - 2] <= nows[n - 1]);
        }
        lemma_recent_accepted(nows, window, limit, n - 1, t0, t);
        let prev = accepted_within(nows, window, limit, n - 1, t0);
        let x = nows[n - 1];
        if accepted_at(nows, window, limit, n - 1) && age(t0, x) < window {
            assert(accepted_within(nows, window, limit, n, t0).drop_last() == prev);
        } else {
            if accepted_at(nows, window, limit, n - 1) {
                assert(age(t, x) >= age(t0, x));
            }
        }
    }
}

/// The window after the first `n` requests holds exactly the accepted times within `window`
/// of the `n`th request.
proof fn lemma_replay_is_accepted_within(nows: Seq<u64>, window: u64, limit: nat, n: int)
    requires
        1 <= n <= nows.len(),
        nondecreasing(nows),
        window > 0,
    ensures
        replay(nows.take(n), window, limit) == accepted_within(nows, window, limit, n, nows[n - 1]),
    decreases n,
{
    let t = nows[n - 1];
    assert(nows.take(n).drop_last() == nows.take(n - 1));
    assert(nows.take(n).last() == t);
    if n == 1 {
        assert(nows.take(0).len() == 0);
        assert(accepted_within(nows, window, limit, 0, t).len() == 0);
    } else {
        lemma_replay_is_accepted_within(nows, window, limit, n - 1);
        assert(nows[n - 2] <= t);
        lemma_recent_accepted(nows, window, limit, n - 1, nows[n - 2], t);
    }
}

proof fn lemma_empty_window(nows: Seq<u64>, limit: nat, n: int, now: u64)
    ensures
        accepted_within(nows, 0, limit, n, now).len() == 0,
    decreases n,
{
    if n > 0 {
        lemma_empty_window(nows, limit, n - 1, now);
    }
}

/// On a clock that never goes back, no window of length `window` ending at a request holds
/// more than `limit` accepted requests.
pub proof fn law_rate_limit_holds(nows: Seq<u64>, window: u64, limit: nat, i: int)
    requires
        nondecreasing(nows),
        0 <= i < nows.len(),
    ensures
        accepted_within(nows, window, limit, i + 1, nows[i]).len() <= limit,
{
    if window == 0 {
        lemma_empty_window(nows, limit, i + 1, nows[i]);
    } else {
        lemma_replay_is_accepted_within(nows, window, limit, i + 1);
        lemma_replay_len(nows.take(i + 1), window, limit);
    }
}

/// A window never holds more than `limit` times once it held no more than that.
pub proof fn law_window_stays_bounded(stamps: Seq<u64>, now: u64, window: u64, limit: nat)
    requires
        stamps.len() <= limit,
    ensures
        after(stamps, now, window, limit).len() <= limit,
{
    lemma_recent_len(stamps, now, window);
}

} // verus!
