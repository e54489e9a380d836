use vstd::prelude::*;
use crate::rate_limiter::{
    LIMIT_10M, LIMIT_1H, LIMIT_1M, LIMIT_1S, LimiterState, WINDOW_10M, WINDOW_1H, WINDOW_1M,
    WINDOW_1S, expired, expired_prefix, lemma_expired_prefix_bound, lemma_granted_window, pruned,
};

verus! {

/// The times are in order.
pub open spec fn sorted(h: Seq<u64>) -> bool {
    forall|i: int, j: int| 0 <= i <= j < h.len() ==> h[i] <= h[j]
}

/// None of the times is later than `t`.
pub open spec fn all_by(h: Seq<u64>, t: u64) -> bool {
    forall|i: int| 0 <= i < h.len() ==> h[i] <= t
}

/// How many of the times `h` lie in the window of length `w` that ends at `t`:
/// `t - w < x <= t`.
pub open spec fn count_within(h: Seq<u64>, w: u64, t: u64) -> nat
    decreases h.len(),
{
    if h.len() == 0 {
        0
    } else {
        count_within(h.drop_last(), w, t) + if h.last() <= t && !expired(h.last(), w, t) {
            1nat
        } else {
            0nat
        }
    }
}

/// A window's queue `q` holds the latest times of the history `h`, and every
/// earlier time had left the window at `t`.
pub open spec fn window_tracks(q: Seq<u64>, h: Seq<u64>, w: u64, t: u64) -> bool {
    &&& q.len() <= h.len()
    &&& q == h.skip(h.len() - q.len())
    &&& forall|j: int| 0 <= j < h.len() - q.len() ==> #[trigger] expired(h[j], w, t)
}

/// The limiter's four windows follow the history `h` of the requests it admitted,
/// as of the clock reading `t`.
pub open spec fn tracks(st: LimiterState, h: Seq<u64>, t: u64) -> bool {
    &&& sorted(h)
    &&& all_by(h, t)
    &&& window_tracks(st.hits_1s@, h, WINDOW_1S, t)
    &&& window_tracks(st.hits_1m@, h, WINDOW_1M, t)
    &&& window_tracks(st.hits_10m@, h, WINDOW_10M, t)
    &&& window_tracks(st.hits_1h@, h, WINDOW_1H, t)
}

proof fn lemma_expired_prefix_all(s: Seq<u64>, w: u64, now: u64)
    ensures
        forall|i: int| 0 <= i < expired_prefix(s, w, now) ==> #[trigger] expired(s[i], w, now),
    decreases s.len(),
{
    lemma_expired_prefix_bound(s, w, now);
    if s.len() > 0 && expired(s[0], w, now) {
        lemma_expired_prefix_all(s.drop_first(), w, now);
        assert forall|i: int| 0 <= i < expired_prefix(s, w, now) implies #[trigger] expired(s[i], w, now) by {
            if i > 0 {
                assert(s[i] == s.drop_first()[i - 1]);
            }
        }
    }
}

proof fn lemma_count_bound(h: Seq<u64>, w: u64, t: u64, k: int)
    requires
        0 <= k <= h.len(),
        forall|j: int| 0 <= j < k ==> #[trigger] expired(h[j], w, t),
    ensures
        count_within(h, w, t) <= h.len() - k,
    decreases h.len(),
{
    if h.len() > 0 {
        let d = h.drop_last();
        let k2 = if k == h.len() { k - 1 } else { k };
        assert forall|j: int| 0 <= j < k2 implies #[trigger] expired(d[j], w, t) by {
            assert(d[j] == h[j]);
        }
        lemma_count_bound(d, w, t, k2);
        if k == h.len() {
            assert(expired(h[h.len() - 1], w, t));
        }
    }
}

/// One window after a request admitted at `now`: the queue pruned, then `now` added.
proof fn lemma_window_step(q: Seq<u64>, h: Seq<u64>, w: u64, t: u64, now: u64, granted: bool)
    requires
        all_by(h, t),
        t <= now,
        window_tracks(q, h, w, t),
    ensures
        granted ==> window_tracks(pruned(q, w, now).push(now), h.push(now), w, now),
        granted ==> count_within(h.push(now), w, now) <= pruned(q, w, now).len() + 1,
        !granted ==> window_tracks(pruned(q, w, now), h, w, now),
{
    lemma_expired_prefix_bound(q, w, now);
    lemma_expired_prefix_all(q, w, now);
    let e = expired_prefix(q, w, now) as int;
    let base = h.len() - q.len();
    let p = pruned(q, w, now);
    assert(p =~= h.skip(base + e));
    assert forall|j: int| 0 <= j < base + e implies #[trigger] expired(h[j], w, now) by {
        if j < base {
            assert(expired(h[j], w, t));
            assert(h[j] <= t);
        } else {
            assert(h[j] == q[j - base]);
            assert(expired(q[j - base], w, now));
        }
    }
    if granted {
        let h2 = h.push(now);
        assert(h2.skip(h2.len() - (p.len() + 1)) =~= p.push(now));
        assert forall|j: int| 0 <= j < h2.len() - p.push(now).len() implies #[trigger] expired(h2[j], w, now) by {
            assert(h2[j] == h[j]);
        }
        lemma_count_bound(h2, w, now, base + e);
    }
}

proof fn lemma_sorted_push(h: Seq<u64>, t: u64, now: u64)
    requires
        sorted(h),
        all_by(h, t),
        t <= now,
    ensures
        sorted(h.push(now)),
        all_by(h.push(now), now),
        all_by(h, now),
{
    let h2 = h.push(now);
    assert forall|i: int, j: int| 0 <= i <= j < h2.len() implies h2[i] <= h2[j] by {
        if j == h.len() {
            if i < h.len() {
                assert(h2[i] == h[i]);
            }
        } else {
            assert(h2[i] == h[i] && h2[j] == h[j]);
        }
    }
}

/// A fresh limiter follows the empty history.
pub proof fn fresh_limiter_tracks_nothing(st: LimiterState, t: u64)
    requires
        st.hits_1s@.len() == 0,
        st.hits_1m@.len() == 0,
        st.hits_10m@.len() == 0,
        st.hits_1h@.len() == 0,
    ensures
        tracks(st, Seq::empty(), t),
{
    let h = Seq::<u64>::empty();
    assert(st.hits_1s@ =~= h.skip(0));
    assert(st.hits_1m@ =~= h.skip(0));
    assert(st.hits_10m@ =~= h.skip(0));
    assert(st.hits_1h@ =~= h.skip(0));
}

/// Waiting for a permit respects every window over the whole history of admitted
/// requests: if the limiter follows the history `h` of the times it admitted
/// requests, and one pass of `try_acquire` runs at a clock reading `now` no earlier
/// than before, then a request admitted at `now` came no earlier than the end of any
/// block, and with it at most 4 admitted requests lie in the last second, 30 in the
/// last minute, 100 in the last ten minutes and 400 in the last hour; the limiter
/// then follows `h` with `now` added (or `h` itself where nothing was admitted).
pub proof fn admitted_requests_respect_every_window(
    before: LimiterState,
    after: LimiterState,
    h: Seq<u64>,
    t: u64,
    now: u64,
    r: Option<u64>,
)
    requires
        tracks(before, h, t),
        t <= now,
        now <= u64::MAX - WINDOW_1H,
        after.blocked_until == before.blocked_until,
        before.wait_target(now) <= now ==> {
            &&& r is None
            &&& after.hits_1s@ == pruned(before.hits_1s@, WINDOW_1S, now).push(now)
            &&& after.hits_1m@ == pruned(before.hits_1m@, WINDOW_1M, now).push(now)
            &&& after.hits_10m@ == pruned(before.hits_10m@, WINDOW_10M, now).push(now)
            &&& after.hits_1h@ == pruned(before.hits_1h@, WINDOW_1H, now).push(now)
        },
        before.wait_target(now) > now ==> {
            &&& r is Some
            &&& after.hits_1s@ == pruned(before.hits_1s@, WINDOW_1S, now)
            &&& after.hits_1m@ == pruned(before.hits_1m@, WINDOW_1M, now)
            &&& after.hits_10m@ == pruned(before.hits_10m@, WINDOW_10M, now)
            &&& after.hits_1h@ == pruned(before.hits_1h@, WINDOW_1H, now)
        },
    ensures
        r is None ==> {
            &&& before.blocked_until <= now
            &&& tracks(after, h.push(now), now)
            &&& count_within(h.push(now), WINDOW_1S, now) <= LIMIT_1S
            &&& count_within(h.push(now), WINDOW_1M, now) <= LIMIT_1M
            &&& count_within(h.push(now), WINDOW_10M, now) <= LIMIT_10M
            &&& count_within(h.push(now), WINDOW_1H, now) <= LIMIT_1H
        },
        r is Some ==> tracks(after, h, now),
{
    let granted = before.wait_target(now) <= now;
    lemma_sorted_push(h, t, now);
    lemma_window_step(before.hits_1s@, h, WINDOW_1S, t, now, granted);
    lemma_window_step(before.hits_1m@, h, WINDOW_1M, t, now, granted);
    lemma_window_step(before.hits_10m@, h, WINDOW_10M, t, now, granted);
    lemma_window_step(before.hits_1h@, h, WINDOW_1H, t, now, granted);
    if granted {
        assert(before.all_hits_by(now)) by {
            assert forall|i: int| 0 <= i < before.hits_1s@.len() implies #[trigger] before.hits_1s@[i] <= now by {
                assert(before.hits_1s@[i] == h[h.len() - before.hits_1s@.len() + i]);
            }
            assert forall|i: int| 0 <= i < before.hits_1m@.len() implies #[trigger] before.hits_1m@[i] <= now by {
                assert(before.hits_1m@[i] == h[h.len() - before.hits_1m@.len() + i]);
            }
            assert forall|i: int| 0 <= i < before.hits_10m@.len() implies #[trigger] before.hits_10m@[i] <= now by {
                assert(before.hits_10m@[i] == h[h.len() - before.hits_10m@.len() + i]);
            }
            assert forall|i: int| 0 <= i < before.hits_1h@.len() implies #[trigger] before.hits_1h@[i] <= now by {
                assert(before.hits_1h@[i] == h[h.len() - before.hits_1h@.len() + i]);
            }
        }
        lemma_granted_window(before.hits_1s@, LIMIT_1S, WINDOW_1S, now);
        lemma_granted_window(before.hits_1m@, LIMIT_1M, WINDOW_1M, now);
        lemma_granted_window(before.hits_10m@, LIMIT_10M, WINDOW_10M, now);
        lemma_granted_window(before.hits_1h@, LIMIT_1H, WINDOW_1H, now);
    }
}

} // verus!
