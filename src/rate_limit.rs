use vstd::prelude::*;

use vstd::slice::slice_to_vec;

use crate::bytes::bytes_eq;

verus! {

/// Length of the sliding window, in milliseconds.
pub const WINDOW_MILLIS: u64 = 60_000;

/// Most requests one client may have admitted within a window.
pub const MAX_REQUESTS: usize = 100;

/// Whether a request made at `t` still counts at time `now`: it is not in
/// the future and lies less than a window back.
pub open spec fn in_window(t: u64, now: u64) -> bool {
    t <= now && now - t < WINDOW_MILLIS
}

/// The timestamps of `s` that still count at `now`, in their order.
pub open spec fn recent(s: Seq<u64>, now: u64) -> Seq<u64>
    decreases s.len(),
{
    if s.len() == 0 {
        s
    } else {
        let r = recent(s.drop_last(), now);
        if in_window(s.last(), now) {
            r.push(s.last())
        } else {
            r
        }
    }
}

/// Whether a client with this history is admitted at `now`.
pub open spec fn admits(history: Seq<u64>, now: u64) -> bool {
    recent(history, now).len() < MAX_REQUESTS
}

/// The client's history after a check at `now`: stale entries pruned, and
/// `now` appended when the request is admitted.
pub open spec fn after_check(history: Seq<u64>, now: u64) -> Seq<u64> {
    if admits(history, now) {
        recent(history, now).push(now)
    } else {
        recent(history, now)
    }
}

/// The admitted-request timestamps of one client.
pub struct ClientWindow {
    pub client: Vec<u8>,
    pub stamps: Vec<u64>,
}

/// The history of `client` in a list of windows: that of the last entry
/// for it, or empty.
pub open spec fn history_of(ws: Seq<ClientWindow>, client: Seq<u8>) -> Seq<u64>
    decreases ws.len(),
{
    if ws.len() == 0 {
        Seq::empty()
    } else if ws.last().client@ == client {
        ws.last().stamps@
    } else {
        history_of(ws.drop_last(), client)
    }
}

/// A per-client sliding-window rate limiter.
pub struct RateLimiter {
    windows: Vec<ClientWindow>,
}

proof fn lemma_history_absent(ws: Seq<ClientWindow>, client: Seq<u8>)
    requires
        forall|i: int| 0 <= i < ws.len() ==> #[trigger] ws[i].client@ != client,
    ensures
        history_of(ws, client) == Seq::<u64>::empty(),
    decreases ws.len(),
{
    if ws.len() > 0 {
        assert(ws.last().client@ != client);
        lemma_history_absent(ws.drop_last(), client);
    }
}

proof fn lemma_history_update(ws: Seq<ClientWindow>, j: int, w: ClientWindow, client: Seq<u8>)
    requires
        0 <= j < ws.len(),
        w.client@ == ws[j].client@,
        forall|i: int| j < i < ws.len() ==> #[trigger] ws[i].client@ != ws[j].client@,
    ensures
        history_of(ws.update(j, w), client) == if client == w.client@ {
            w.stamps@
        } else {
            history_of(ws, client)
        },
    decreases ws.len(),
{
    let u = ws.update(j, w);
    if j == ws.len() - 1 {
        assert(u.drop_last() =~= ws.drop_last());
    } else {
        assert(u.drop_last() =~= ws.drop_last().update(j, w));
        assert(ws.last() == ws[ws.len() - 1]);
        lemma_history_update(ws.drop_last(), j, w, client);
    }
}

/// The timestamps of `stamps` that still count at `now`.
fn prune(stamps: &[u64], now: u64) -> (r: Vec<u64>)
    ensures
        r@ == recent(stamps@, now),
{
    let mut kept: Vec<u64> = Vec::new();
    let mut i: usize = 0;
    while i < stamps.len()
        invariant
            i <= stamps@.len(),
            kept@ == recent(stamps@.subrange(0, i as int), now),
        decreases stamps@.len() - i,
    {
        let t = stamps[i];
        proof {
            let p = stamps@.subrange(0, i + 1);
            assert(p.drop_last() =~= stamps@.subrange(0, i as int));
            assert(p.last() == t);
        }
        if t <= now && now - t < WINDOW_MILLIS {
            kept.push(t);
        }
        i += 1;
    }
    proof {
        assert(stamps@.subrange(0, stamps@.len() as int) =~= stamps@);
    }
    kept
}

impl RateLimiter {
    /// The admitted-request timestamps kept for `client`.
    pub closed spec fn history(&self, client: Seq<u8>) -> Seq<u64> {
        history_of(self.windows@, client)
    }

    /// A limiter that has seen no request.
    pub fn new() -> (r: RateLimiter)
        ensures
            forall|c: Seq<u8>| #[trigger] r.history(c) == Seq::<u64>::empty(),
    {
        RateLimiter { windows: Vec::new() }
    }

    /// Decides whether a request from `client` at time `now` (milliseconds)
    /// is admitted. Stale timestamps of the client are pruned either way;
    /// only an admitted request is recorded.
    pub fn allow(&mut self, client: &[u8], now: u64) -> (r: bool)
        ensures
            r == admits(old(self).history(client@), now),
            forall|c: Seq<u8>| #[trigger] final(self).history(c) == if c == client@ {
                after_check(old(self).history(c), now)
            } else {
                old(self).history(c)
            },
    {
        let mut j: usize = self.windows.len();
        let mut found = false;
        while j > 0 && !found
            invariant
                j <= self.windows@.len(),
                found ==> j > 0 && self.windows@[j - 1].client@ == client@,
                forall|i: int| j <= i < self.windows@.len() ==> #[trigger] self.windows@[i].client@ != client@,
            decreases j + if found { 0int } else { 1int },
        {
            if bytes_eq(self.windows[j - 1].client.as_slice(), client) {
                found = true;
            } else {
                j -= 1;
            }
        }
        if !found {
            proof {
                lemma_history_absent(self.windows@, client@);
            }
            self.windows.push(ClientWindow { client: slice_to_vec(client), stamps: Vec::new() });
            j = self.windows.len();
        }
        let j = j - 1;
        let ghost before = self.windows@;
        assert(before[j as int].client@ == client@);
        assert(history_of(before, client@) == old(self).history(client@)) by {
            if found {
                lemma_history_update(before, j as int, before[j as int], client@);
                assert(before.update(j as int, before[j as int]) =~= before);
            }
        }
        let kept = prune(self.windows[j].stamps.as_slice(), now);
        assert(history_of(before, client@) == before[j as int].stamps@) by {
            lemma_history_update(before, j as int, before[j as int], client@);
            assert(before.update(j as int, before[j as int]) =~= before);
        }
        let admitted = kept.len() < MAX_REQUESTS;
        let mut kept = kept;
        if admitted {
            kept.push(now);
        }
        self.windows[j].stamps = kept;
        proof {
            let w = self.windows@[j as int];
            assert(self.windows@ =~= before.update(j as int, w));
            assert forall|c: Seq<u8>| #[trigger] self.history(c) == if c == client@ {
                after_check(old(self).history(c), now)
            } else {
                old(self).history(c)
            } by {
                lemma_history_update(before, j as int, w, c);
                if c != client@ && !found {
                    assert(before.drop_last() =~= old(self).windows@);
                }
            }
        }
        admitted
    }
}

/// The client's history after checks at each of `times`, in order.
pub open spec fn history_after(history: Seq<u64>, times: Seq<u64>) -> Seq<u64>
    decreases times.len(),
{
    if times.len() == 0 {
        history
    } else {
        after_check(history_after(history, times.drop_last()), times.last())
    }
}

/// Whether the `i`-th check of a run at `times` is admitted.
pub open spec fn admitted_in_run(history: Seq<u64>, times: Seq<u64>, i: int) -> bool {
    admits(history_after(history, times.take(i)), times[i])
}

proof fn lemma_recent_all(s: Seq<u64>, now: u64)
    requires
        forall|k: int| 0 <= k < s.len() ==> in_window(#[trigger] s[k], now),
    ensures
        recent(s, now) == s,
    decreases s.len(),
{
    if s.len() > 0 {
        assert(in_window(s[s.len() - 1], now));
        lemma_recent_all(s.drop_last(), now);
        assert(s.drop_last().push(s.last()) =~= s);
    }
}

proof fn lemma_recent_none(s: Seq<u64>, now: u64)
    requires
        forall|k: int| 0 <= k < s.len() ==> !in_window(#[trigger] s[k], now),
    ensures
        recent(s, now) == Seq::<u64>::empty(),
    decreases s.len(),
{
    if s.len() > 0 {
        assert(!in_window(s[s.len() - 1], now));
        lemma_recent_none(s.drop_last(), now);
    }
}

proof fn lemma_recent_in_window(s: Seq<u64>, now: u64)
    ensures
        forall|k: int| 0 <= k < recent(s, now).len() ==> in_window(#[trigger] recent(s, now)[k], now),
    decreases s.len(),
{
    if s.len() > 0 {
        lemma_recent_in_window(s.drop_last(), now);
        let r = recent(s.drop_last(), now);
        assert forall|k: int| 0 <= k < recent(s, now).len() implies in_window(
            #[trigger] recent(s, now)[k],
            now,
        ) by {
            if k < r.len() {
                assert(recent(s, now)[k] == r[k]);
            }
        }
    }
}

proof fn lemma_run_within_window(history: Seq<u64>, times: Seq<u64>, k: int)
    requires
        0 <= k <= times.len(),
        times.len() > 0,
        forall|a: int, b: int| 0 <= a <= b < times.len() ==> times[a] <= times[b],
        times.last() - times[0] < WINDOW_MILLIS,
        forall|j: int| 0 <= j < history.len() ==> #[trigger] history[j] + WINDOW_MILLIS <= times[0],
    ensures
        history_after(history, times.take(k)) == if k == 0 {
            history
        } else if k <= MAX_REQUESTS {
            times.take(k)
        } else {
            times.take(MAX_REQUESTS as int)
        },
    decreases k,
{
    if k == 0 {
        assert(times.take(0).len() == 0);
    } else {
        let prev = k - 1;
        lemma_run_within_window(history, times, prev);
        let p = times.take(k);
        assert(p.drop_last() =~= times.take(prev));
        assert(p.last() == times[prev]);
        let now = times[prev];
        let h = history_after(history, times.take(prev));
        if prev == 0 {
            assert forall|j: int| 0 <= j < h.len() implies !in_window(#[trigger] h[j], now) by {
                assert(history[j] + WINDOW_MILLIS <= times[0]);
            }
            lemma_recent_none(h, now);
            assert(recent(h, now).push(now) =~= times.take(1));
        } else {
            assert forall|j: int| 0 <= j < h.len() implies in_window(#[trigger] h[j], now) by {
                assert(h[j] == times[j]);
                assert(times[0] <= times[j]);
                assert(times[prev] <= times[times.len() - 1]);
            }
            lemma_recent_all(h, now);
            if prev < MAX_REQUESTS {
                assert(h.push(now) =~= times.take(k));
            }
        }
    }
}

/// Within one window, a client that starts with no request counting
/// against it has each of its first `MAX_REQUESTS` requests admitted and
/// every later one rejected: for non-decreasing request times that all lie
/// in an interval shorter than the window, the `i`-th check is admitted
/// exactly when `i < MAX_REQUESTS`.
pub proof fn lemma_admits_up_to_limit_within_window(history: Seq<u64>, times: Seq<u64>)
    requires
        times.len() > 0,
        forall|a: int, b: int| 0 <= a <= b < times.len() ==> times[a] <= times[b],
        times.last() - times[0] < WINDOW_MILLIS,
        forall|j: int| 0 <= j < history.len() ==> #[trigger] history[j] + WINDOW_MILLIS <= times[0],
    ensures
        forall|i: int| 0 <= i < times.len() ==> #[trigger] admitted_in_run(history, times, i) == (i
            < MAX_REQUESTS),
{
    assert forall|i: int| 0 <= i < times.len() implies #[trigger] admitted_in_run(history, times, i)
        == (i < MAX_REQUESTS) by {
        lemma_run_within_window(history, times, i);
        let h = history_after(history, times.take(i));
        let now = times[i];
        if i == 0 {
            assert forall|j: int| 0 <= j < h.len() implies !in_window(#[trigger] h[j], now) by {
                assert(history[j] + WINDOW_MILLIS <= times[0]);
            }
            lemma_recent_none(h, now);
        } else {
            assert forall|j: int| 0 <= j < h.len() implies in_window(#[trigger] h[j], now) by {
                assert(h[j] == times[j]);
                assert(times[0] <= times[j]);
                assert(times[i] <= times[times.len() - 1]);
            }
            lemma_recent_all(h, now);
        }
    }
}

proof fn lemma_recent_twice(s: Seq<u64>, a: u64, b: u64)
    requires
        a <= b,
        forall|k: int| 0 <= k < s.len() ==> #[trigger] s[k] <= a,
    ensures
        recent(recent(s, a), b) == recent(s, b),
    decreases s.len(),
{
    if s.len() > 0 {
        let x = s.last();
        assert(x == s[s.len() - 1]);
        lemma_recent_twice(s.drop_last(), a, b);
        let r = recent(s.drop_last(), a);
        if in_window(x, a) {
            assert(r.push(x).drop_last() =~= r);
            assert(r.push(x).last() == x);
        }
    }
}

proof fn lemma_run_admitted(times: Seq<u64>, k: int)
    requires
        0 < k <= times.len(),
        forall|a: int, b: int| 0 <= a <= b < times.len() ==> times[a] <= times[b],
        forall|i: int| 0 <= i < times.len() ==> #[trigger] recent(times.take(i + 1), times[i]).len()
            <= MAX_REQUESTS,
    ensures
        history_after(Seq::empty(), times.take(k)) == recent(times.take(k), times[k - 1]),
        forall|i: int| 0 <= i < k ==> #[trigger] admitted_in_run(Seq::empty(), times, i),
    decreases k,
{
    let now = times[k - 1];
    let p = times.take(k);
    assert(p.drop_last() =~= times.take(k - 1));
    assert(p.last() == now);
    let h = history_after(Seq::empty(), times.take(k - 1));
    if k == 1 {
        assert(times.take(0) =~= Seq::<u64>::empty());
        assert(h == Seq::<u64>::empty());
        assert(recent(h, now) == Seq::<u64>::empty());
    } else {
        lemma_run_admitted(times, k - 1);
        let q = times.take(k - 1);
        assert forall|j: int| 0 <= j < q.len() implies #[trigger] q[j] <= times[k - 2] by {
            assert(q[j] == times[j]);
        }
        lemma_recent_twice(q, times[k - 2], now);
    }
    // the check at `now` sees the earlier requests that still count
    assert(recent(h, now) == recent(times.take(k - 1), now));
    assert(recent(p, now) == recent(times.take(k - 1), now).push(now));
    assert(recent(times.take((k - 1) + 1), times[k - 1]).len() <= MAX_REQUESTS);
    assert(times.take((k - 1) + 1) == p);
    assert(admits(h, now));
    assert(admitted_in_run(Seq::empty(), times, k - 1));
}

/// Every request of a client whose requests keep within the limit is
/// admitted: for non-decreasing request times from a client with no
/// history, where each request together with the earlier ones that fall in
/// the window ending at it makes at most `MAX_REQUESTS`, every check is
/// admitted, however long the run.
pub proof fn lemma_admits_within_limit(times: Seq<u64>)
    requires
        forall|a: int, b: int| 0 <= a <= b < times.len() ==> times[a] <= times[b],
        forall|i: int| 0 <= i < times.len() ==> #[trigger] recent(times.take(i + 1), times[i]).len()
            <= MAX_REQUESTS,
    ensures
        forall|i: int| 0 <= i < times.len() ==> #[trigger] admitted_in_run(Seq::empty(), times, i),
{
    if times.len() > 0 {
        lemma_run_admitted(times, times.len() as int);
    }
}

/// The window slides: once a full window has passed since a client's last
/// check, whether that check was admitted or rejected, its next request is
/// admitted.
pub proof fn lemma_admitted_after_quiet_window(history: Seq<u64>, t: u64, later: u64)
    requires
        later >= t + WINDOW_MILLIS,
    ensures
        admits(after_check(history, t), later),
{
    let r = recent(history, t);
    lemma_recent_in_window(history, t);
    let h = after_check(history, t);
    assert forall|j: int| 0 <= j < h.len() implies !in_window(#[trigger] h[j], later) by {
        if j < r.len() {
            assert(in_window(r[j], t));
        }
    }
    lemma_recent_none(h, later);
}

} // verus!
