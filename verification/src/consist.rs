//! Sliding-window bounded-drift tracking for one consistency rule.
//!
//! A `ConsistWindow` keeps two monotonic deques of `(timestamp, value)`
//! candidates for the trailing-window maximum and minimum. On every
//! insertion the deques are pruned at the front to the trailing window and
//! purged at the back of entries the new value dominates, so the front of
//! each deque is always the current windowed extremum. A ghost history of
//! every inserted sample witnesses that claim.

use vstd::prelude::*;

verus! {

/// Widest trailing window a rule can configure, in seconds.
pub const MAX_WINDOW_SECS: u64 = 4294967295 * 86400;

/// `t` lies within the trailing window of length `dur` ending at `now`.
pub open spec fn in_window(now: int, dur: int, t: int) -> bool {
    now - t <= dur
}

/// Timestamps never decrease from front to back.
pub open spec fn q_ts_sorted(q: Seq<(i64, i64)>) -> bool {
    forall|i: int, j: int| 0 <= i < j < q.len() ==> q[i].0 <= q[j].0
}

/// Values strictly decrease from front to back (max-deque shape).
pub open spec fn q_vals_dec(q: Seq<(i64, i64)>) -> bool {
    forall|i: int, j: int| 0 <= i < j < q.len() ==> q[i].1 > q[j].1
}

/// Values strictly increase from front to back (min-deque shape).
pub open spec fn q_vals_inc(q: Seq<(i64, i64)>) -> bool {
    forall|i: int, j: int| 0 <= i < j < q.len() ==> q[i].1 < q[j].1
}

/// Timestamps of `hist` never decrease, and none exceeds `last`.
pub open spec fn hist_sorted_upto(hist: Seq<(i64, i64)>, last: i64) -> bool {
    &&& (forall|i: int, j: int| 0 <= i < j < hist.len() ==> hist[i].0 <= hist[j].0)
    &&& (forall|k: int| 0 <= k < hist.len() ==> (#[trigger] hist[k]).0 <= last)
}

/// Every deque entry names an inserted sample that lies in the window.
#[verifier::opaque]
pub open spec fn members_of(hist: Seq<(i64, i64)>, q: Seq<(i64, i64)>, now: int, dur: int) -> bool {
    forall|i: int|
        0 <= i < q.len() ==> hist.contains(#[trigger] q[i]) && in_window(now, dur, q[i].0 as int)
}

/// Every inserted sample still in the window is dominated by some
/// max-deque entry no older than it.
#[verifier::opaque]
pub open spec fn covers_max(hist: Seq<(i64, i64)>, q: Seq<(i64, i64)>, now: int, dur: int) -> bool {
    forall|k: int|
        0 <= k < hist.len() && in_window(now, dur, (#[trigger] hist[k]).0 as int) ==> exists|
            e: (i64, i64),
        |
            q.contains(e) && e.0 >= hist[k].0 && e.1 >= hist[k].1
}

/// Every inserted sample still in the window is dominated by some
/// min-deque entry no older than it.
#[verifier::opaque]
pub open spec fn covers_min(hist: Seq<(i64, i64)>, q: Seq<(i64, i64)>, now: int, dur: int) -> bool {
    forall|k: int|
        0 <= k < hist.len() && in_window(now, dur, (#[trigger] hist[k]).0 as int) ==> exists|
            e: (i64, i64),
        |
            q.contains(e) && e.0 >= hist[k].0 && e.1 <= hist[k].1
}

/// Drops entries at the front that fell out of the trailing window.
pub open spec fn spec_prune(q: Seq<(i64, i64)>, now: int, dur: int) -> Seq<(i64, i64)>
    decreases q.len(),
{
    if q.len() > 0 && !in_window(now, dur, q[0].0 as int) {
        spec_prune(q.drop_first(), now, dur)
    } else {
        q
    }
}

/// Drops entries at the back whose value the new maximum candidate `v`
/// dominates (is at least as large as).
pub open spec fn spec_evict_max(q: Seq<(i64, i64)>, v: int) -> Seq<(i64, i64)>
    decreases q.len(),
{
    if q.len() > 0 && q.last().1 <= v {
        spec_evict_max(q.drop_last(), v)
    } else {
        q
    }
}

/// Drops entries at the back whose value the new minimum candidate `v`
/// dominates (is at most as small as).
pub open spec fn spec_evict_min(q: Seq<(i64, i64)>, v: int) -> Seq<(i64, i64)>
    decreases q.len(),
{
    if q.len() > 0 && q.last().1 >= v {
        spec_evict_min(q.drop_last(), v)
    } else {
        q
    }
}

pub open spec fn iabs(x: int) -> int {
    if x < 0 {
        -x
    } else {
        x
    }
}

pub open spec fn imax(a: int, b: int) -> int {
    if a >= b {
        a
    } else {
        b
    }
}

pub open spec fn imin(a: int, b: int) -> int {
    if a <= b {
        a
    } else {
        b
    }
}

/// What pruning keeps and preserves: order, monotonicity, membership;
/// everything still in the window survives, and the remaining entries all
/// lie in the window.
pub proof fn lemma_prune_props(q: Seq<(i64, i64)>, now: int, dur: int)
    requires
        q_ts_sorted(q),
    ensures
        ({
            let p = spec_prune(q, now, dur);
            &&& q_ts_sorted(p)
            &&& (q_vals_dec(q) ==> q_vals_dec(p))
            &&& (q_vals_inc(q) ==> q_vals_inc(p))
            &&& (forall|e: (i64, i64)| p.contains(e) ==> q.contains(e))
            &&& (forall|e: (i64, i64)|
                q.contains(e) && in_window(now, dur, e.0 as int) ==> p.contains(e))
            &&& (forall|i: int| 0 <= i < p.len() ==> in_window(now, dur, p[i].0 as int))
        }),
    decreases q.len(),
{
    let p = spec_prune(q, now, dur);
    if q.len() > 0 && !in_window(now, dur, q[0].0 as int) {
        let q1 = q.drop_first();
        assert(q_ts_sorted(q1)) by {
            assert forall|i: int, j: int| 0 <= i < j < q1.len() implies q1[i].0 <= q1[j].0 by {
                assert(q1[i] == q[i + 1]);
                assert(q1[j] == q[j + 1]);
            }
        }
        lemma_prune_props(q1, now, dur);
        assert(q_vals_dec(q) ==> q_vals_dec(q1)) by {
            if q_vals_dec(q) {
                assert forall|i: int, j: int| 0 <= i < j < q1.len() implies q1[i].1 > q1[j].1 by {
                    assert(q1[i] == q[i + 1]);
                    assert(q1[j] == q[j + 1]);
                }
            }
        }
        assert(q_vals_inc(q) ==> q_vals_inc(q1)) by {
            if q_vals_inc(q) {
                assert forall|i: int, j: int| 0 <= i < j < q1.len() implies q1[i].1 < q1[j].1 by {
                    assert(q1[i] == q[i + 1]);
                    assert(q1[j] == q[j + 1]);
                }
            }
        }
        assert forall|e: (i64, i64)| q1.contains(e) implies q.contains(e) by {
            let i = choose|i: int| 0 <= i < q1.len() && q1[i] == e;
            assert(q[i + 1] == e);
        }
        assert forall|e: (i64, i64)| q.contains(e) && in_window(now, dur, e.0 as int)
            implies q1.contains(e) by {
            let i = choose|i: int| 0 <= i < q.len() && q[i] == e;
            assert(i != 0);
            assert(q1[i - 1] == e);
        }
    } else {
        assert(p == q);
    }
}

/// What back-eviction for the max-deque keeps and preserves; an evicted
/// entry is dominated by the incoming value, and whatever remains at the
/// back strictly exceeds it.
pub proof fn lemma_evict_max_props(q: Seq<(i64, i64)>, v: int)
    requires
        q_ts_sorted(q),
        q_vals_dec(q),
    ensures
        ({
            let r = spec_evict_max(q, v);
            &&& q_ts_sorted(r)
            &&& q_vals_dec(r)
            &&& (forall|e: (i64, i64)| r.contains(e) ==> q.contains(e))
            &&& (forall|e: (i64, i64)| q.contains(e) ==> r.contains(e) || e.1 <= v)
            &&& (forall|i: int| 0 <= i < r.len() ==> r[i].1 > v)
        }),
    decreases q.len(),
{
    let r = spec_evict_max(q, v);
    if q.len() > 0 && q.last().1 <= v {
        let q1 = q.drop_last();
        lemma_evict_max_props(q1, v);
        assert forall|e: (i64, i64)| q1.contains(e) implies q.contains(e) by {
            let i = choose|i: int| 0 <= i < q1.len() && q1[i] == e;
            assert(q[i] == e);
        }
        assert forall|e: (i64, i64)| q.contains(e) implies r.contains(e) || e.1 <= v by {
            let i = choose|i: int| 0 <= i < q.len() && q[i] == e;
            if i < q.len() - 1 {
                assert(q1[i] == e);
            } else {
                assert(e == q.last());
            }
        }
    } else {
        assert(r == q);
        if r.len() > 0 {
            assert forall|i: int| 0 <= i < r.len() implies r[i].1 > v by {
                if i < r.len() - 1 {
                    assert(r[i].1 > r[r.len() - 1].1);
                }
            }
        }
    }
}

/// The min-deque counterpart of `lemma_evict_max_props`.
pub proof fn lemma_evict_min_props(q: Seq<(i64, i64)>, v: int)
    requires
        q_ts_sorted(q),
        q_vals_inc(q),
    ensures
        ({
            let r = spec_evict_min(q, v);
            &&& q_ts_sorted(r)
            &&& q_vals_inc(r)
            &&& (forall|e: (i64, i64)| r.contains(e) ==> q.contains(e))
            &&& (forall|e: (i64, i64)| q.contains(e) ==> r.contains(e) || e.1 >= v)
            &&& (forall|i: int| 0 <= i < r.len() ==> r[i].1 < v)
        }),
    decreases q.len(),
{
    let r = spec_evict_min(q, v);
    if q.len() > 0 && q.last().1 >= v {
        let q1 = q.drop_last();
        lemma_evict_min_props(q1, v);
        assert forall|e: (i64, i64)| q1.contains(e) implies q.contains(e) by {
            let i = choose|i: int| 0 <= i < q1.len() && q1[i] == e;
            assert(q[i] == e);
        }
        assert forall|e: (i64, i64)| q.contains(e) implies r.contains(e) || e.1 >= v by {
            let i = choose|i: int| 0 <= i < q.len() && q[i] == e;
            if i < q.len() - 1 {
                assert(q1[i] == e);
            } else {
                assert(e == q.last());
            }
        }
    } else {
        assert(r == q);
        if r.len() > 0 {
            assert forall|i: int| 0 <= i < r.len() implies r[i].1 < v by {
                if i < r.len() - 1 {
                    assert(r[i].1 < r[r.len() - 1].1);
                }
            }
        }
    }
}

/// Per-rule sliding-window state of one parameter.
pub struct ConsistWindow {
    /// Trailing window length in seconds.
    pub dur: u64,
    /// Timestamp of the newest inserted sample.
    pub last: i64,
    /// Window-maximum candidates.
    pub max_q: Vec<(i64, i64)>,
    /// Window-minimum candidates.
    pub min_q: Vec<(i64, i64)>,
    /// Every finite sample ever inserted, in arrival order.
    pub hist: Ghost<Seq<(i64, i64)>>,
}

impl ConsistWindow {
    /// Every deque entry covers only inserted samples, and every inserted
    /// sample still in the window is dominated by some deque entry no
    /// older than it; the fronts are therefore the true windowed extrema.
    pub open spec fn wf(self) -> bool {
        &&& self.dur <= MAX_WINDOW_SECS
        &&& hist_sorted_upto(self.hist@, self.last)
        &&& q_ts_sorted(self.max_q@)
        &&& q_ts_sorted(self.min_q@)
        &&& q_vals_dec(self.max_q@)
        &&& q_vals_inc(self.min_q@)
        &&& members_of(self.hist@, self.max_q@, self.last as int, self.dur as int)
        &&& members_of(self.hist@, self.min_q@, self.last as int, self.dur as int)
        &&& covers_max(self.hist@, self.max_q@, self.last as int, self.dur as int)
        &&& covers_min(self.hist@, self.min_q@, self.last as int, self.dur as int)
    }

    /// A fresh, empty window for a rule of `dur` seconds.
    pub fn new(dur: u64) -> (r: ConsistWindow)
        requires
            dur <= MAX_WINDOW_SECS,
        ensures
            r.wf(),
            r.dur == dur,
            r.hist@ == Seq::<(i64, i64)>::empty(),
            r.max_q@.len() == 0,
            r.min_q@.len() == 0,
            r.last == i64::MIN,
    {
        proof {
            reveal(members_of);
            reveal(covers_max);
            reveal(covers_min);
        }
        ConsistWindow {
            dur,
            last: i64::MIN,
            max_q: Vec::new(),
            min_q: Vec::new(),
            hist: Ghost(Seq::empty()),
        }
    }
}

fn prune_queue(q: &mut Vec<(i64, i64)>, now: i64, dur: u64)
    ensures
        final(q)@ == spec_prune(old(q)@, now as int, dur as int),
{
    while q.len() > 0 && (now as i128) - (q[0].0 as i128) > (dur as i128)
        invariant
            spec_prune(q@, now as int, dur as int) == spec_prune(
                old(q)@,
                now as int,
                dur as int,
            ),
        decreases q@.len(),
    {
        let ghost before = q@;
        let _ = q.remove(0);
        proof {
            assert(q@ =~= before.drop_first());
        }
    }
}

fn evict_back_le(q: &mut Vec<(i64, i64)>, v: i64)
    ensures
        final(q)@ == spec_evict_max(old(q)@, v as int),
{
    while q.len() > 0 && q[q.len() - 1].1 <= v
        invariant
            spec_evict_max(q@, v as int) == spec_evict_max(old(q)@, v as int),
        decreases q@.len(),
    {
        let ghost before = q@;
        let _ = q.pop();
        proof {
            assert(q@ =~= before.drop_last());
        }
    }
}

fn evict_back_ge(q: &mut Vec<(i64, i64)>, v: i64)
    ensures
        final(q)@ == spec_evict_min(old(q)@, v as int),
{
    while q.len() > 0 && q[q.len() - 1].1 >= v
        invariant
            spec_evict_min(q@, v as int) == spec_evict_min(old(q)@, v as int),
        decreases q@.len(),
    {
        let ghost before = q@;
        let _ = q.pop();
        proof {
            assert(q@ =~= before.drop_last());
        }
    }
}

/// The drift test of one rule on one sample: after pruning, the spread of
/// the new value against the windowed extrema must stay within the
/// configured difference scaled by elapsed time over the window length.
pub open spec fn spec_consist_fails(w: ConsistWindow, now: int, v: int, diff: int) -> bool {
    let mq = spec_prune(w.max_q@, now, w.dur as int);
    let nq = spec_prune(w.min_q@, now, w.dur as int);
    let cur_max = if mq.len() > 0 {
        mq[0].1 as int
    } else {
        v
    };
    let cur_min = if nq.len() > 0 {
        nq[0].1 as int
    } else {
        v
    };
    let oldest = if mq.len() > 0 && nq.len() > 0 {
        imin(mq[0].0 as int, nq[0].0 as int)
    } else {
        now
    };
    let spread = imax(iabs(cur_max - v), iabs(v - cur_min));
    spread * (w.dur as int) > diff * (now - oldest)
}


/// With well-formed membership, a deque entry's timestamp is bounded by
/// the newest inserted sample.
proof fn lemma_member_ts(hist: Seq<(i64, i64)>, q: Seq<(i64, i64)>, last: i64, dur: int)
    requires
        hist_sorted_upto(hist, last),
        members_of(hist, q, last as int, dur),
    ensures
        forall|e: (i64, i64)| q.contains(e) ==> hist.contains(e) && e.0 <= last,
{
    reveal(members_of);
    assert forall|e: (i64, i64)| q.contains(e) implies hist.contains(e) && e.0 <= last by {
        let i = choose|i: int| 0 <= i < q.len() && q[i] == e;
        assert(hist.contains(q[i]));
        let k = choose|k: int| 0 <= k < hist.len() && hist[k] == e;
        assert(hist[k].0 <= last);
    }
}

/// A pushed sample is a member of the pushed history, and the old members
/// remain members.
proof fn lemma_push_contains(hist: Seq<(i64, i64)>, s: (i64, i64))
    ensures
        hist.push(s).contains(s),
        forall|e: (i64, i64)| hist.contains(e) ==> #[trigger] hist.push(s).contains(e),
{
    assert(hist.push(s)[hist.len() as int] == s);
    assert forall|e: (i64, i64)| hist.contains(e) implies #[trigger] hist.push(s).contains(e) by {
        let k = choose|k: int| 0 <= k < hist.len() && hist[k] == e;
        assert(hist.push(s)[k] == e);
    }
}

/// Pruning to the new time and evicting what the new sample dominates,
/// then pushing it, preserves the max-deque's shape, membership and
/// coverage.
#[verifier::rlimit(60)]
proof fn lemma_insert_max_side(
    hist: Seq<(i64, i64)>,
    q: Seq<(i64, i64)>,
    last: i64,
    dur: int,
    now: i64,
    v: i64,
)
    requires
        dur >= 0,
        now >= last,
        hist_sorted_upto(hist, last),
        q_ts_sorted(q),
        q_vals_dec(q),
        members_of(hist, q, last as int, dur),
        covers_max(hist, q, last as int, dur),
    ensures
        ({
            let newq = spec_evict_max(spec_prune(q, now as int, dur), v as int).push((now, v));
            let newhist = hist.push((now, v));
            &&& q_ts_sorted(newq)
            &&& q_vals_dec(newq)
            &&& members_of(newhist, newq, now as int, dur)
            &&& covers_max(newhist, newq, now as int, dur)
        }),
{
    let pm = spec_prune(q, now as int, dur);
    let em = spec_evict_max(pm, v as int);
    let newq = em.push((now, v));
    let newhist = hist.push((now, v));
    reveal(members_of);
    reveal(covers_max);
    lemma_member_ts(hist, q, last, dur);
    lemma_prune_props(q, now as int, dur);
    lemma_evict_max_props(pm, v as int);
    lemma_push_contains(hist, (now, v));

    assert forall|e: (i64, i64)| em.contains(e) implies q.contains(e) && e.0 <= last by {
        assert(pm.contains(e));
    }

    assert forall|i: int, j: int| 0 <= i < j < newq.len() implies newq[i].0 <= newq[j].0 by {
        if j < em.len() {
            assert(em[i].0 <= em[j].0);
        } else {
            assert(newq[j] == (now, v));
            assert(em.contains(em[i]));
        }
    }
    assert forall|i: int, j: int| 0 <= i < j < newq.len() implies newq[i].1 > newq[j].1 by {
        if j < em.len() {
            assert(em[i].1 > em[j].1);
        } else {
            assert(newq[j] == (now, v));
            assert(em[i].1 > v);
        }
    }
    assert forall|i: int| 0 <= i < newq.len() implies newhist.contains(#[trigger] newq[i])
        && in_window(now as int, dur, newq[i].0 as int) by {
        if i < em.len() {
            let e = em[i];
            assert(em.contains(e));
            assert(pm.contains(e));
            assert(q.contains(e));
            assert(hist.contains(e));
            let pi = choose|pi: int| 0 <= pi < pm.len() && pm[pi] == e;
            assert(in_window(now as int, dur, pm[pi].0 as int));
        } else {
            assert(newq[i] == (now, v));
        }
    }
    assert forall|k: int|
        0 <= k < newhist.len() && in_window(now as int, dur, (#[trigger] newhist[k]).0 as int)
        implies exists|e: (i64, i64)|
            newq.contains(e) && e.0 >= newhist[k].0 && e.1 >= newhist[k].1 by {
        assert(newq[em.len() as int] == (now, v));
        assert(newq.contains((now, v)));
        if k < hist.len() {
            let t = hist[k].0;
            let w0 = hist[k].1;
            assert(t <= last);
            assert(in_window(last as int, dur, t as int));
            let e0 = choose|e0: (i64, i64)| q.contains(e0) && e0.0 >= t && e0.1 >= w0;
            assert(in_window(now as int, dur, e0.0 as int));
            assert(pm.contains(e0));
            if em.contains(e0) {
                let i = choose|i: int| 0 <= i < em.len() && em[i] == e0;
                assert(newq[i] == e0);
                assert(newq.contains(e0));
            } else {
                assert(e0.1 <= v);
                assert(now >= t && v >= w0);
            }
        } else {
            assert(newhist[k] == (now, v));
        }
    }
}

/// The min-deque counterpart of `lemma_insert_max_side`.
#[verifier::rlimit(60)]
proof fn lemma_insert_min_side(
    hist: Seq<(i64, i64)>,
    q: Seq<(i64, i64)>,
    last: i64,
    dur: int,
    now: i64,
    v: i64,
)
    requires
        dur >= 0,
        now >= last,
        hist_sorted_upto(hist, last),
        q_ts_sorted(q),
        q_vals_inc(q),
        members_of(hist, q, last as int, dur),
        covers_min(hist, q, last as int, dur),
    ensures
        ({
            let newq = spec_evict_min(spec_prune(q, now as int, dur), v as int).push((now, v));
            let newhist = hist.push((now, v));
            &&& q_ts_sorted(newq)
            &&& q_vals_inc(newq)
            &&& members_of(newhist, newq, now as int, dur)
            &&& covers_min(newhist, newq, now as int, dur)
        }),
{
    let pm = spec_prune(q, now as int, dur);
    let em = spec_evict_min(pm, v as int);
    let newq = em.push((now, v));
    let newhist = hist.push((now, v));
    reveal(members_of);
    reveal(covers_min);
    lemma_member_ts(hist, q, last, dur);
    lemma_prune_props(q, now as int, dur);
    lemma_evict_min_props(pm, v as int);
    lemma_push_contains(hist, (now, v));

    assert forall|e: (i64, i64)| em.contains(e) implies q.contains(e) && e.0 <= last by {
        assert(pm.contains(e));
    }

    assert forall|i: int, j: int| 0 <= i < j < newq.len() implies newq[i].0 <= newq[j].0 by {
        if j < em.len() {
            assert(em[i].0 <= em[j].0);
        } else {
            assert(newq[j] == (now, v));
            assert(em.contains(em[i]));
        }
    }
    assert forall|i: int, j: int| 0 <= i < j < newq.len() implies newq[i].1 < newq[j].1 by {
        if j < em.len() {
            assert(em[i].1 < em[j].1);
        } else {
            assert(newq[j] == (now, v));
            assert(em[i].1 < v);
        }
    }
    assert forall|i: int| 0 <= i < newq.len() implies newhist.contains(#[trigger] newq[i])
        && in_window(now as int, dur, newq[i].0 as int) by {
        if i < em.len() {
            let e = em[i];
            assert(em.contains(e));
            assert(pm.contains(e));
            assert(q.contains(e));
            assert(hist.contains(e));
            let pi = choose|pi: int| 0 <= pi < pm.len() && pm[pi] == e;
            assert(in_window(now as int, dur, pm[pi].0 as int));
        } else {
            assert(newq[i] == (now, v));
        }
    }
    assert forall|k: int|
        0 <= k < newhist.len() && in_window(now as int, dur, (#[trigger] newhist[k]).0 as int)
        implies exists|e: (i64, i64)|
            newq.contains(e) && e.0 >= newhist[k].0 && e.1 <= newhist[k].1 by {
        assert(newq[em.len() as int] == (now, v));
        assert(newq.contains((now, v)));
        if k < hist.len() {
            let t = hist[k].0;
            let w0 = hist[k].1;
            assert(t <= last);
            assert(in_window(last as int, dur, t as int));
            let e0 = choose|e0: (i64, i64)| q.contains(e0) && e0.0 >= t && e0.1 <= w0;
            assert(in_window(now as int, dur, e0.0 as int));
            assert(pm.contains(e0));
            if em.contains(e0) {
                let i = choose|i: int| 0 <= i < em.len() && em[i] == e0;
                assert(newq[i] == e0);
                assert(newq.contains(e0));
            } else {
                assert(e0.1 >= v);
                assert(now >= t && v <= w0);
            }
        } else {
            assert(newhist[k] == (now, v));
        }
    }
}

/// If the pruned max-deque still holds an entry, so does the pruned
/// min-deque: both cover the same in-window samples.
#[verifier::spinoff_prover]
proof fn lemma_pruned_nonempty_min(
    hist: Seq<(i64, i64)>,
    qa: Seq<(i64, i64)>,
    qb: Seq<(i64, i64)>,
    last: i64,
    dur: int,
    now: i64,
)
    requires
        dur >= 0,
        now >= last,
        hist_sorted_upto(hist, last),
        q_ts_sorted(qa),
        q_ts_sorted(qb),
        members_of(hist, qa, last as int, dur),
        covers_min(hist, qb, last as int, dur),
        spec_prune(qa, now as int, dur).len() > 0,
    ensures
        spec_prune(qb, now as int, dur).len() > 0,
{
    reveal(covers_min);
    let pa = spec_prune(qa, now as int, dur);
    let pb = spec_prune(qb, now as int, dur);
    lemma_prune_props(qa, now as int, dur);
    lemma_prune_props(qb, now as int, dur);
    lemma_member_ts(hist, qa, last, dur);
    let e = pa[0];
    assert(pa.contains(e));
    assert(qa.contains(e));
    assert(hist.contains(e));
    let k = choose|k: int| 0 <= k < hist.len() && hist[k] == e;
    assert(in_window(now as int, dur, e.0 as int));
    assert(in_window(last as int, dur, (hist[k]).0 as int));
    let e0 = choose|e0: (i64, i64)| qb.contains(e0) && e0.0 >= hist[k].0 && e0.1 <= hist[k].1;
    assert(in_window(now as int, dur, e0.0 as int));
    assert(pb.contains(e0));
}

/// The max-deque counterpart of `lemma_pruned_nonempty_min`.
#[verifier::spinoff_prover]
proof fn lemma_pruned_nonempty_max(
    hist: Seq<(i64, i64)>,
    qa: Seq<(i64, i64)>,
    qb: Seq<(i64, i64)>,
    last: i64,
    dur: int,
    now: i64,
)
    requires
        dur >= 0,
        now >= last,
        hist_sorted_upto(hist, last),
        q_ts_sorted(qa),
        q_ts_sorted(qb),
        members_of(hist, qa, last as int, dur),
        covers_max(hist, qb, last as int, dur),
        spec_prune(qa, now as int, dur).len() > 0,
    ensures
        spec_prune(qb, now as int, dur).len() > 0,
{
    reveal(covers_max);
    let pa = spec_prune(qa, now as int, dur);
    let pb = spec_prune(qb, now as int, dur);
    lemma_prune_props(qa, now as int, dur);
    lemma_prune_props(qb, now as int, dur);
    lemma_member_ts(hist, qa, last, dur);
    let e = pa[0];
    assert(pa.contains(e));
    assert(qa.contains(e));
    assert(hist.contains(e));
    let k = choose|k: int| 0 <= k < hist.len() && hist[k] == e;
    assert(in_window(now as int, dur, e.0 as int));
    assert(in_window(last as int, dur, (hist[k]).0 as int));
    let e0 = choose|e0: (i64, i64)| qb.contains(e0) && e0.0 >= hist[k].0 && e0.1 >= hist[k].1;
    assert(in_window(now as int, dur, e0.0 as int));
    assert(pb.contains(e0));
}

/// After pruning both deques to the same time, one is empty exactly when
/// the other is.
proof fn lemma_pruned_empty_together(
    hist: Seq<(i64, i64)>,
    qmax: Seq<(i64, i64)>,
    qmin: Seq<(i64, i64)>,
    last: i64,
    dur: int,
    now: i64,
)
    requires
        dur >= 0,
        now >= last,
        hist_sorted_upto(hist, last),
        q_ts_sorted(qmax),
        q_ts_sorted(qmin),
        members_of(hist, qmax, last as int, dur),
        members_of(hist, qmin, last as int, dur),
        covers_max(hist, qmax, last as int, dur),
        covers_min(hist, qmin, last as int, dur),
    ensures
        spec_prune(qmax, now as int, dur).len() > 0 <==> spec_prune(qmin, now as int, dur).len()
            > 0,
{
    if spec_prune(qmax, now as int, dur).len() > 0 {
        lemma_pruned_nonempty_min(hist, qmax, qmin, last, dur, now);
    }
    if spec_prune(qmin, now as int, dur).len() > 0 {
        lemma_pruned_nonempty_max(hist, qmin, qmax, last, dur, now);
    }
}

/// Inserting a fresh sample after pruning and back-eviction keeps the
/// window well-formed.
proof fn lemma_insert_wf(pre: ConsistWindow, now: i64, v: i64, post: ConsistWindow)
    requires
        pre.wf(),
        now >= pre.last,
        post.dur == pre.dur,
        post.last == now,
        post.hist@ == pre.hist@.push((now, v)),
        post.max_q@ == spec_evict_max(
            spec_prune(pre.max_q@, now as int, pre.dur as int),
            v as int,
        ).push((now, v)),
        post.min_q@ == spec_evict_min(
            spec_prune(pre.min_q@, now as int, pre.dur as int),
            v as int,
        ).push((now, v)),
    ensures
        post.wf(),
{
    let dur = pre.dur as int;
    lemma_insert_max_side(pre.hist@, pre.max_q@, pre.last, dur, now, v);
    lemma_insert_min_side(pre.hist@, pre.min_q@, pre.last, dur, now, v);
    assert(hist_sorted_upto(post.hist@, now)) by {
        assert forall|i: int, j: int| 0 <= i < j < post.hist@.len() implies
            post.hist@[i].0 <= post.hist@[j].0 by {
            if j < pre.hist@.len() {
                assert(pre.hist@[i].0 <= pre.hist@[j].0);
            } else {
                assert(post.hist@[j] == (now, v));
                assert(pre.hist@[i].0 <= pre.last);
            }
        }
        assert forall|k: int| 0 <= k < post.hist@.len() implies
            (#[trigger] post.hist@[k]).0 <= now by {
            if k < pre.hist@.len() {
                assert(pre.hist@[k].0 <= pre.last);
            }
        }
    }
}


/// Evaluates the drift comparison on plain numbers: the spread of `v`
/// against the current extrema, scaled against the allowed difference
/// over the elapsed share of the window.
#[verifier::spinoff_prover]
fn drift_exceeds(cur_max: i64, cur_min: i64, v: i64, dur: u64, elapsed: i64, difference: i64) -> (r:
    bool)
    requires
        dur <= MAX_WINDOW_SECS,
        0 <= elapsed <= dur,
    ensures
        r == (imax(iabs(cur_max - v), iabs(v - cur_min)) * (dur as int) > (difference as int) * (
        elapsed as int)),
{
    let v128 = v as i128;
    let d1: i128 = if (cur_max as i128) >= v128 {
        (cur_max as i128) - v128
    } else {
        v128 - (cur_max as i128)
    };
    let d2: i128 = if v128 >= (cur_min as i128) {
        v128 - (cur_min as i128)
    } else {
        (cur_min as i128) - v128
    };
    let spread: i128 = if d1 >= d2 {
        d1
    } else {
        d2
    };
    proof {
        assert(spread * (dur as i128) <= 0x2_0000_0000_0000_0000i128 * 371085174288000i128)
            by (nonlinear_arith)
            requires
                0 <= spread <= 0x2_0000_0000_0000_0000i128,
                0 <= dur as i128 <= 371085174288000i128,
        ;
        assert(spread * (dur as i128) >= 0) by (nonlinear_arith)
            requires
                spread >= 0,
                dur as i128 >= 0,
        ;
        assert((difference as i128) * (elapsed as i128) <= 0x8000_0000_0000_0000i128
            * 371085174288000i128 && (difference as i128) * (elapsed as i128) >= (
        -0x8000_0000_0000_0000i128) * 371085174288000i128) by (nonlinear_arith)
            requires
                -0x8000_0000_0000_0000i128 <= difference as i128 <= 0x8000_0000_0000_0000i128,
                0 <= elapsed as i128 <= 371085174288000i128,
        ;
    }
    spread * (dur as i128) > (difference as i128) * (elapsed as i128)
}

impl ConsistWindow {
    /// Runs one rule's drift test on a sample and inserts it into the
    /// window. A value that stands for no finite number fails outright
    /// and never joins the window.
    #[verifier::rlimit(60)]
    #[verifier::spinoff_prover]
    pub fn check_insert(&mut self, now: i64, value: Option<i64>, difference: i64) -> (fail: bool)
        requires
            old(self).wf(),
            now >= old(self).last,
        ensures
            final(self).wf(),
            final(self).dur == old(self).dur,
            value is None ==> *final(self) == *old(self) && fail == true,
            value matches Some(v) ==> ({
                &&& final(self).last == now
                &&& final(self).hist@ == old(self).hist@.push((now, v))
                &&& final(self).max_q@ == spec_evict_max(
                    spec_prune(old(self).max_q@, now as int, old(self).dur as int),
                    v as int,
                ).push((now, v))
                &&& final(self).min_q@ == spec_evict_min(
                    spec_prune(old(self).min_q@, now as int, old(self).dur as int),
                    v as int,
                ).push((now, v))
                &&& fail == spec_consist_fails(*old(self), now as int, v as int, difference as int)
            }),
    {
        let v = match value {
            Some(v) => v,
            None => {
                return true;
            },
        };
        let ghost pre = *self;
        proof {
            lemma_prune_props(pre.max_q@, now as int, pre.dur as int);
            lemma_prune_props(pre.min_q@, now as int, pre.dur as int);
            lemma_member_ts(pre.hist@, pre.max_q@, pre.last, pre.dur as int);
            lemma_member_ts(pre.hist@, pre.min_q@, pre.last, pre.dur as int);
            lemma_pruned_empty_together(
                pre.hist@,
                pre.max_q@,
                pre.min_q@,
                pre.last,
                pre.dur as int,
                now,
            );
        }
        prune_queue(&mut self.max_q, now, self.dur);
        prune_queue(&mut self.min_q, now, self.dur);

        let fail: bool;
        if self.max_q.len() > 0 {
            let cm = self.max_q[0].1;
            let tm = self.max_q[0].0;
            let cn = self.min_q[0].1;
            let tn = self.min_q[0].0;
            proof {
                assert(spec_prune(pre.max_q@, now as int, pre.dur as int).contains(
                    self.max_q@[0],
                ));
                assert(spec_prune(pre.min_q@, now as int, pre.dur as int).contains(
                    self.min_q@[0],
                ));
                assert(tm <= pre.last && tn <= pre.last);
                assert(in_window(now as int, pre.dur as int, tm as int));
                assert(in_window(now as int, pre.dur as int, tn as int));
            }
            let oldest = if tm <= tn {
                tm
            } else {
                tn
            };
            let elapsed: i64 = now - oldest;
            fail = drift_exceeds(cm, cn, v, self.dur, elapsed, difference);
            proof {
                assert(self.max_q@ == spec_prune(pre.max_q@, now as int, pre.dur as int));
                assert(self.min_q@ == spec_prune(pre.min_q@, now as int, pre.dur as int));
                assert(cm as int == spec_prune(pre.max_q@, now as int, pre.dur as int)[0].1 as int);
                assert(cn as int == spec_prune(pre.min_q@, now as int, pre.dur as int)[0].1 as int);
                assert(oldest as int == imin(tm as int, tn as int));
                assert(elapsed as int == now as int - imin(tm as int, tn as int));
                let mq = spec_prune(pre.max_q@, now as int, pre.dur as int);
                let nq = spec_prune(pre.min_q@, now as int, pre.dur as int);
                assert(mq.len() > 0 && nq.len() > 0);
                let cur_max = mq[0].1 as int;
                let cur_min = nq[0].1 as int;
                let oldest_g = imin(mq[0].0 as int, nq[0].0 as int);
                let spread = imax(iabs(cur_max - v as int), iabs(v as int - cur_min));
                assert(cur_max == cm as int);
                assert(cur_min == cn as int);
                assert(oldest_g == oldest as int);
                assert(fail == (spread * (pre.dur as int) > (difference as int) * (now as int
                    - oldest_g)));
                assert(spec_consist_fails(pre, now as int, v as int, difference as int) == (spread
                    * (pre.dur as int) > (difference as int) * (now as int - oldest_g)));
                assert(fail == spec_consist_fails(pre, now as int, v as int, difference as int));
            }
        } else {
            fail = false;
            proof {
                assert(self.max_q@.len() == 0 && self.min_q@.len() == 0);
                assert(spec_prune(pre.max_q@, now as int, pre.dur as int).len() == 0);
                assert(spec_prune(pre.min_q@, now as int, pre.dur as int).len() == 0);
                assert(imax(iabs(v as int - v as int), iabs(v as int - v as int)) == 0);
                assert(0int * (pre.dur as int) == 0) by (nonlinear_arith);
                assert((difference as int) * (now as int - now as int) == 0) by (nonlinear_arith);
                assert(fail == spec_consist_fails(pre, now as int, v as int, difference as int));
            }
        }
        assert(fail == spec_consist_fails(pre, now as int, v as int, difference as int));

        evict_back_le(&mut self.max_q, v);
        self.max_q.push((now, v));
        evict_back_ge(&mut self.min_q, v);
        self.min_q.push((now, v));
        self.last = now;
        self.hist = Ghost(pre.hist@.push((now, v)));
        proof {
            lemma_insert_wf(pre, now, v, *self);
        }
        fail
    }
}

#[verifier::spinoff_prover]
proof fn lemma_front_max(w: ConsistWindow)
    requires
        w.wf(),
        w.max_q@.len() > 0,
    ensures
        forall|k: int|
            0 <= k < w.hist@.len() && in_window(
                w.last as int,
                w.dur as int,
                (#[trigger] w.hist@[k]).0 as int,
            ) ==> w.hist@[k].1 <= w.max_q@[0].1,
        w.hist@.contains(w.max_q@[0]),
        in_window(w.last as int, w.dur as int, w.max_q@[0].0 as int),
{
    reveal(members_of);
    reveal(covers_max);
    assert forall|k: int|
        0 <= k < w.hist@.len() && in_window(
            w.last as int,
            w.dur as int,
            (#[trigger] w.hist@[k]).0 as int,
        ) implies w.hist@[k].1 <= w.max_q@[0].1 by {
        let e = choose|e: (i64, i64)|
            w.max_q@.contains(e) && e.0 >= w.hist@[k].0 && e.1 >= w.hist@[k].1;
        let i = choose|i: int| 0 <= i < w.max_q@.len() && w.max_q@[i] == e;
        if i > 0 {
            assert(w.max_q@[0].1 > w.max_q@[i].1);
        }
    }
    assert(w.hist@.contains(w.max_q@[0]));
}

#[verifier::spinoff_prover]
proof fn lemma_front_min(w: ConsistWindow)
    requires
        w.wf(),
        w.min_q@.len() > 0,
    ensures
        forall|k: int|
            0 <= k < w.hist@.len() && in_window(
                w.last as int,
                w.dur as int,
                (#[trigger] w.hist@[k]).0 as int,
            ) ==> w.hist@[k].1 >= w.min_q@[0].1,
        w.hist@.contains(w.min_q@[0]),
        in_window(w.last as int, w.dur as int, w.min_q@[0].0 as int),
{
    reveal(members_of);
    reveal(covers_min);
    assert forall|k: int|
        0 <= k < w.hist@.len() && in_window(
            w.last as int,
            w.dur as int,
            (#[trigger] w.hist@[k]).0 as int,
        ) implies w.hist@[k].1 >= w.min_q@[0].1 by {
        let e = choose|e: (i64, i64)|
            w.min_q@.contains(e) && e.0 >= w.hist@[k].0 && e.1 <= w.hist@[k].1;
        let i = choose|i: int| 0 <= i < w.min_q@.len() && w.min_q@[i] == e;
        if i > 0 {
            assert(w.min_q@[0].1 < w.min_q@[i].1);
        }
    }
    assert(w.hist@.contains(w.min_q@[0]));
}

/// The deques are monotonic, and each front is the true extremum over
/// every inserted sample still inside the trailing window: the sliding
/// window invariant.
pub proof fn lemma_window_extrema(w: ConsistWindow)
    requires
        w.wf(),
    ensures
        forall|i: int, j: int| 0 <= i <= j < w.max_q@.len() ==> w.max_q@[i].1 >= w.max_q@[j].1,
        forall|i: int, j: int| 0 <= i <= j < w.min_q@.len() ==> w.min_q@[i].1 <= w.min_q@[j].1,
        w.max_q@.len() > 0 ==> forall|k: int|
            0 <= k < w.hist@.len() && in_window(
                w.last as int,
                w.dur as int,
                (#[trigger] w.hist@[k]).0 as int,
            ) ==> w.hist@[k].1 <= w.max_q@[0].1,
        w.min_q@.len() > 0 ==> forall|k: int|
            0 <= k < w.hist@.len() && in_window(
                w.last as int,
                w.dur as int,
                (#[trigger] w.hist@[k]).0 as int,
            ) ==> w.hist@[k].1 >= w.min_q@[0].1,
        w.max_q@.len() > 0 ==> w.hist@.contains(w.max_q@[0]) && in_window(
            w.last as int,
            w.dur as int,
            w.max_q@[0].0 as int,
        ),
        w.min_q@.len() > 0 ==> w.hist@.contains(w.min_q@[0]) && in_window(
            w.last as int,
            w.dur as int,
            w.min_q@[0].0 as int,
        ),
{
    if w.max_q@.len() > 0 {
        lemma_front_max(w);
    }
    if w.min_q@.len() > 0 {
        lemma_front_min(w);
    }
}

/// The drift verdict is a function of the rule, the deque state and the
/// sample alone: two windows in the same state judge a sample alike.
pub proof fn lemma_consist_deterministic(
    a: ConsistWindow,
    b: ConsistWindow,
    now: int,
    v: int,
    diff: int,
)
    requires
        a.dur == b.dur,
        a.max_q@ == b.max_q@,
        a.min_q@ == b.min_q@,
    ensures
        spec_consist_fails(a, now, v, diff) == spec_consist_fails(b, now, v, diff),
{
}

} // verus!
