use vstd::prelude::*;
use std::collections::VecDeque;

verus! {

broadcast use vstd::std_specs::vecdeque::group_vec_dequeue_axioms;

/// At most this many requests in any second.
pub const LIMIT_1S: usize = 4;
/// At most this many requests in any minute.
pub const LIMIT_1M: usize = 30;
/// At most this many requests in any ten minutes.
pub const LIMIT_10M: usize = 100;
/// At most this many requests in any hour.
pub const LIMIT_1H: usize = 400;

/// One second, in nanoseconds; instants are nanoseconds on a monotonic clock.
pub const WINDOW_1S: u64 = 1_000_000_000;
pub const WINDOW_1M: u64 = 60_000_000_000;
pub const WINDOW_10M: u64 = 600_000_000_000;
pub const WINDOW_1H: u64 = 3_600_000_000_000;

/// `now - t`, or zero where `t` is later than `now` (as `Instant::duration_since`).
pub open spec fn elapsed(now: u64, t: u64) -> int {
    if now >= t {
        now - t
    } else {
        0
    }
}

/// A hit at `t` no longer counts in a window of length `window` at `now`.
pub open spec fn expired(t: u64, window: u64, now: u64) -> bool {
    elapsed(now, t) >= window
}

/// How many hits at the front of `s` have left the window.
pub open spec fn expired_prefix(s: Seq<u64>, window: u64, now: u64) -> nat
    decreases s.len(),
{
    if s.len() > 0 && expired(s[0], window, now) {
        1 + expired_prefix(s.drop_first(), window, now)
    } else {
        0
    }
}

/// The queue of hits after the expired ones at its front are dropped.
pub open spec fn pruned(s: Seq<u64>, window: u64, now: u64) -> Seq<u64> {
    s.skip(expired_prefix(s, window, now) as int)
}

/// The earliest instant at which a window with these hits admits one more request.
pub open spec fn next_allowed_spec(s: Seq<u64>, limit: usize, window: u64, now: u64) -> int {
    if s.len() < limit {
        now as int
    } else {
        s[0] + window
    }
}

pub(crate) proof fn lemma_expired_prefix_bound(s: Seq<u64>, window: u64, now: u64)
    ensures
        expired_prefix(s, window, now) <= s.len(),
    decreases s.len(),
{
    if s.len() > 0 && expired(s[0], window, now) {
        lemma_expired_prefix_bound(s.drop_first(), window, now);
    }
}

pub(crate) proof fn lemma_pruned_front_live(s: Seq<u64>, window: u64, now: u64)
    ensures
        pruned(s, window, now).len() > 0 ==> !expired(pruned(s, window, now)[0], window, now),
        forall|i: int|
            0 <= i < pruned(s, window, now).len() ==> exists|j: int|
                0 <= j < s.len() && #[trigger] pruned(s, window, now)[i] == s[j],
        pruned(s, window, now).len() <= s.len(),
    decreases s.len(),
{
    lemma_expired_prefix_bound(s, window, now);
    if s.len() > 0 && expired(s[0], window, now) {
        lemma_pruned_front_live(s.drop_first(), window, now);
        assert(pruned(s, window, now) =~= pruned(s.drop_first(), window, now));
        let p = pruned(s, window, now);
        assert forall|i: int| 0 <= i < p.len() implies exists|j: int|
            0 <= j < s.len() && #[trigger] p[i] == s[j] by {
            let j = choose|j: int| 0 <= j < s.drop_first().len() && p[i] == s.drop_first()[j];
            assert(p[i] == s[j + 1]);
        }
    } else {
        assert(pruned(s, window, now) =~= s);
        let p = pruned(s, window, now);
        assert forall|i: int| 0 <= i < p.len() implies exists|j: int|
            0 <= j < s.len() && #[trigger] p[i] == s[j] by {
            assert(p[i] == s[i]);
        }
    }
}

/// An admitted window held fewer hits than its limit once pruned.
pub(crate) proof fn lemma_granted_window(s: Seq<u64>, limit: usize, window: u64, now: u64)
    requires
        limit > 0,
        forall|i: int| 0 <= i < s.len() ==> #[trigger] s[i] <= now,
        next_allowed_spec(pruned(s, window, now), limit, window, now) <= now,
    ensures
        pruned(s, window, now).len() < limit,
{
    lemma_pruned_front_live(s, window, now);
    let p = pruned(s, window, now);
    if p.len() >= limit {
        assert(p.len() > 0);
        assert(exists|j: int| 0 <= j < s.len() && #[trigger] p[0] == s[j]);
        let j = choose|j: int| 0 <= j < s.len() && p[0] == s[j];
        assert(p[0] <= now);
    }
}

/// The earliest instant at which a window admits one more request: now while it
/// holds fewer than `limit` hits, else when its oldest hit leaves the window.
pub fn next_allowed(hits: &VecDeque<u64>, limit: usize, window: u64, now: u64) -> (r: u64)
    requires
        hits@.len() >= limit ==> hits@.len() > 0 && hits@[0] + window <= u64::MAX,
    ensures
        r == next_allowed_spec(hits@, limit, window, now),
{
    if hits.len() < limit {
        return now;
    }
    hits[0] + window
}

/// Drops the hits at the front of the queue that have left the window.
pub fn prune_hits(hits: &mut VecDeque<u64>, window: u64, now: u64)
    ensures
        final(hits)@ == pruned(old(hits)@, window, now),
{
    let ghost start = hits@;
    let ghost mut k: int = 0;
    proof {
        lemma_expired_prefix_bound(start, window, now);
    }
    loop
        invariant
            0 <= k <= start.len(),
            hits@ == start.skip(k),
            expired_prefix(start, window, now) == k + expired_prefix(hits@, window, now),
        ensures
            expired_prefix(hits@, window, now) == 0,
            hits@ == start.skip(k),
            expired_prefix(start, window, now) == k,
        decreases hits@.len(),
    {
        if hits.len() == 0 {
            break;
        }
        let t = hits[0];
        let gone = if now >= t {
            now - t >= window
        } else {
            0 >= window
        };
        if !gone {
            break;
        }
        let ghost before = hits@;
        hits.pop_front();
        proof {
            assert(hits@ =~= before.drop_first());
            assert(start.skip(k + 1) =~= before.drop_first());
            k = k + 1;
        }
    }
}

/// The hits recorded in the four windows, and the instant before which nothing is
/// admitted.
pub struct LimiterState {
    pub blocked_until: u64,
    pub hits_1s: VecDeque<u64>,
    pub hits_1m: VecDeque<u64>,
    pub hits_10m: VecDeque<u64>,
    pub hits_1h: VecDeque<u64>,
}

impl LimiterState {
    /// Every window holds at most its limit of hits.
    pub open spec fn within_limits(&self) -> bool {
        &&& self.hits_1s@.len() <= LIMIT_1S
        &&& self.hits_1m@.len() <= LIMIT_1M
        &&& self.hits_10m@.len() <= LIMIT_10M
        &&& self.hits_1h@.len() <= LIMIT_1H
    }

    /// No recorded hit is later than `now`.
    pub open spec fn all_hits_by(&self, now: u64) -> bool {
        &&& forall|i: int| 0 <= i < self.hits_1s@.len() ==> #[trigger] self.hits_1s@[i] <= now
        &&& forall|i: int| 0 <= i < self.hits_1m@.len() ==> #[trigger] self.hits_1m@[i] <= now
        &&& forall|i: int| 0 <= i < self.hits_10m@.len() ==> #[trigger] self.hits_10m@[i] <= now
        &&& forall|i: int| 0 <= i < self.hits_1h@.len() ==> #[trigger] self.hits_1h@[i] <= now
    }

    /// The instant that the next request waits for, given the hits left after pruning.
    pub open spec fn wait_target(&self, now: u64) -> int {
        let a = if self.blocked_until >= now {
            self.blocked_until as int
        } else {
            now as int
        };
        let b = next_allowed_spec(pruned(self.hits_1s@, WINDOW_1S, now), LIMIT_1S, WINDOW_1S, now);
        let c = next_allowed_spec(pruned(self.hits_1m@, WINDOW_1M, now), LIMIT_1M, WINDOW_1M, now);
        let d = next_allowed_spec(
            pruned(self.hits_10m@, WINDOW_10M, now),
            LIMIT_10M,
            WINDOW_10M,
            now,
        );
        let e = next_allowed_spec(pruned(self.hits_1h@, WINDOW_1H, now), LIMIT_1H, WINDOW_1H, now);
        let ab = if b > a {
            b
        } else {
            a
        };
        let abc = if c > ab {
            c
        } else {
            ab
        };
        let abcd = if d > abc {
            d
        } else {
            abc
        };
        if e > abcd {
            e
        } else {
            abcd
        }
    }

    /// A limiter with no hits, not blocked after `now`.
    pub fn new(now: u64) -> (r: LimiterState)
        ensures
            r.blocked_until == now,
            r.hits_1s@.len() == 0,
            r.hits_1m@.len() == 0,
            r.hits_10m@.len() == 0,
            r.hits_1h@.len() == 0,
            r.within_limits(),
    {
        LimiterState {
            blocked_until: now,
            hits_1s: VecDeque::new(),
            hits_1m: VecDeque::new(),
            hits_10m: VecDeque::new(),
            hits_1h: VecDeque::new(),
        }
    }

    /// Drops, in every window, the hits that have left it.
    pub fn prune(&mut self, now: u64)
        ensures
            final(self).blocked_until == old(self).blocked_until,
            final(self).hits_1s@ == pruned(old(self).hits_1s@, WINDOW_1S, now),
            final(self).hits_1m@ == pruned(old(self).hits_1m@, WINDOW_1M, now),
            final(self).hits_10m@ == pruned(old(self).hits_10m@, WINDOW_10M, now),
            final(self).hits_1h@ == pruned(old(self).hits_1h@, WINDOW_1H, now),
    {
        prune_hits(&mut self.hits_1s, WINDOW_1S, now);
        prune_hits(&mut self.hits_1m, WINDOW_1M, now);
        prune_hits(&mut self.hits_10m, WINDOW_10M, now);
        prune_hits(&mut self.hits_1h, WINDOW_1H, now);
    }

    /// Records a request at `now` in every window.
    pub fn record(&mut self, now: u64)
        ensures
            final(self).blocked_until == old(self).blocked_until,
            final(self).hits_1s@ == old(self).hits_1s@.push(now),
            final(self).hits_1m@ == old(self).hits_1m@.push(now),
            final(self).hits_10m@ == old(self).hits_10m@.push(now),
            final(self).hits_1h@ == old(self).hits_1h@.push(now),
    {
        self.hits_1s.push_back(now);
        self.hits_1m.push_back(now);
        self.hits_10m.push_back(now);
        self.hits_1h.push_back(now);
    }

    /// The decision of one pass of waiting for a permit at `now`: drops expired
    /// hits, and if no window is full and the limiter is not blocked after `now`,
    /// records the request and admits it (`None`); else says how long to sleep.
    pub fn try_acquire(&mut self, now: u64) -> (r: Option<u64>)
        requires
            old(self).all_hits_by(now),
            now <= u64::MAX - WINDOW_1H,
        ensures
            final(self).blocked_until == old(self).blocked_until,
            old(self).wait_target(now) <= now ==> {
                &&& r is None
                &&& final(self).hits_1s@ == pruned(old(self).hits_1s@, WINDOW_1S, now).push(now)
                &&& final(self).hits_1m@ == pruned(old(self).hits_1m@, WINDOW_1M, now).push(now)
                &&& final(self).hits_10m@ == pruned(old(self).hits_10m@, WINDOW_10M, now).push(
                    now,
                )
                &&& final(self).hits_1h@ == pruned(old(self).hits_1h@, WINDOW_1H, now).push(now)
            },
            old(self).wait_target(now) > now ==> {
                &&& r == Some((old(self).wait_target(now) - now) as u64)
                &&& final(self).hits_1s@ == pruned(old(self).hits_1s@, WINDOW_1S, now)
                &&& final(self).hits_1m@ == pruned(old(self).hits_1m@, WINDOW_1M, now)
                &&& final(self).hits_10m@ == pruned(old(self).hits_10m@, WINDOW_10M, now)
                &&& final(self).hits_1h@ == pruned(old(self).hits_1h@, WINDOW_1H, now)
            },
            r is None ==> final(self).within_limits() && old(self).blocked_until <= now,
            old(self).within_limits() ==> final(self).within_limits(),
            final(self).all_hits_by(now),
    {
        let ghost pre = *self;
        proof {
            lemma_pruned_front_live(pre.hits_1s@, WINDOW_1S, now);
            lemma_pruned_front_live(pre.hits_1m@, WINDOW_1M, now);
            lemma_pruned_front_live(pre.hits_10m@, WINDOW_10M, now);
            lemma_pruned_front_live(pre.hits_1h@, WINDOW_1H, now);
        }
        self.prune(now);
        proof {
            assert(self.hits_1s@.len() > 0 ==> exists|j: int|
                0 <= j < pre.hits_1s@.len() && #[trigger] self.hits_1s@[0] == pre.hits_1s@[j]);
            assert(self.hits_1m@.len() > 0 ==> exists|j: int|
                0 <= j < pre.hits_1m@.len() && #[trigger] self.hits_1m@[0] == pre.hits_1m@[j]);
            assert(self.hits_10m@.len() > 0 ==> exists|j: int|
                0 <= j < pre.hits_10m@.len() && #[trigger] self.hits_10m@[0] == pre.hits_10m@[j]);
            assert(self.hits_1h@.len() > 0 ==> exists|j: int|
                0 <= j < pre.hits_1h@.len() && #[trigger] self.hits_1h@[0] == pre.hits_1h@[j]);
        }
        let mut next = if self.blocked_until >= now {
            self.blocked_until
        } else {
            now
        };
        let b = next_allowed(&self.hits_1s, LIMIT_1S, WINDOW_1S, now);
        if b > next {
            next = b;
        }
        let c = next_allowed(&self.hits_1m, LIMIT_1M, WINDOW_1M, now);
        if c > next {
            next = c;
        }
        let d = next_allowed(&self.hits_10m, LIMIT_10M, WINDOW_10M, now);
        if d > next {
            next = d;
        }
        let e = next_allowed(&self.hits_1h, LIMIT_1H, WINDOW_1H, now);
        if e > next {
            next = e;
        }
        assert(next == pre.wait_target(now));
        if next <= now {
            proof {
                lemma_granted_window(pre.hits_1s@, LIMIT_1S, WINDOW_1S, now);
                lemma_granted_window(pre.hits_1m@, LIMIT_1M, WINDOW_1M, now);
                lemma_granted_window(pre.hits_10m@, LIMIT_10M, WINDOW_10M, now);
                lemma_granted_window(pre.hits_1h@, LIMIT_1H, WINDOW_1H, now);
            }
            self.record(now);
            None
        } else {
            Some(next - now)
        }
    }

    /// Blocks every request until `duration` after `now`, unless already blocked
    /// longer; a zero duration changes nothing.
    pub fn throttle(&mut self, now: u64, duration: u64)
        requires
            now + duration <= u64::MAX,
        ensures
            final(self).hits_1s@ == old(self).hits_1s@,
            final(self).hits_1m@ == old(self).hits_1m@,
            final(self).hits_10m@ == old(self).hits_10m@,
            final(self).hits_1h@ == old(self).hits_1h@,
            duration == 0 ==> final(self).blocked_until == old(self).blocked_until,
            duration > 0 ==> final(self).blocked_until == if now + duration > old(
                self,
            ).blocked_until {
                (now + duration) as u64
            } else {
                old(self).blocked_until
            },
    {
        if duration == 0 {
            return;
        }
        let until = now + duration;
        if until > self.blocked_until {
            self.blocked_until = until;
        }
    }
}

/// While a limiter is blocked past `t`, no request is admitted at `t`.
pub proof fn blocked_limiter_admits_nothing(st: LimiterState, t: u64)
    requires
        st.blocked_until > t,
    ensures
        st.wait_target(t) > t,
{
}

/// Once throttled for a positive duration at `now`, the limiter admits nothing
/// before that duration has passed.
pub proof fn throttle_blocks_until_end(before: LimiterState, after: LimiterState, now: u64, duration: u64, t: u64)
    requires
        duration > 0,
        now + duration <= u64::MAX,
        after.blocked_until == if now + duration > before.blocked_until {
            (now + duration) as u64
        } else {
            before.blocked_until
        },
        t < now + duration,
    ensures
        after.wait_target(t) > t,
{
}

} // verus!
