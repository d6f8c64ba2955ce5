//! Per-caller admission control over a fixed time window: a caller gets at
//! most `max_requests` admitted operations per window; beyond that it is
//! rejected with a wait-time hint.

use vstd::prelude::*;

use crate::reading::VolumeError;

verus! {

/// Per-caller record: the start of the caller's current window and the
/// number of requests admitted in it.
pub struct RateLimitEntry {
    pub caller: u64,
    pub window_start: u64,
    pub count: u64,
}

/// The entry a table holds for `caller`, if any.
pub open spec fn lookup(s: Seq<RateLimitEntry>, caller: u64) -> Option<RateLimitEntry>
    decreases s.len(),
{
    if s.len() == 0 {
        None
    } else if s[0].caller == caller {
        Some(s[0])
    } else {
        lookup(s.drop_first(), caller)
    }
}

/// No two entries belong to the same caller.
pub open spec fn distinct_callers(s: Seq<RateLimitEntry>) -> bool {
    forall|i: int, j: int|
        0 <= i < j < s.len() ==> (#[trigger] s[i]).caller != (#[trigger] s[j]).caller
}

/// Whether a request at `now` still falls in the window a previous entry
/// opened.
pub open spec fn window_retained(e: RateLimitEntry, now: u64, window: u64) -> bool {
    now - e.window_start <= window
}

/// The request count the caller would reach with one more request: one more
/// than before inside a retained window, one in a fresh window.
pub open spec fn would_count(prev: Option<RateLimitEntry>, now: u64, window: u64) -> int {
    match prev {
        None => 1,
        Some(e) => if window_retained(e, now, window) {
            e.count + 1
        } else {
            1
        },
    }
}

/// The window start the caller's entry would carry after one more request.
pub open spec fn next_window_start(prev: Option<RateLimitEntry>, now: u64, window: u64) -> u64 {
    match prev {
        None => now,
        Some(e) => if window_retained(e, now, window) {
            e.window_start
        } else {
            now
        },
    }
}

/// Seconds until the window that rejected a request ends, clipped to `u64`.
pub open spec fn wait_hint(window_start: u64, window: u64, now: u64) -> u64 {
    if window_start + window - now > u64::MAX {
        u64::MAX
    } else if window_start + window - now < 0 {
        0
    } else {
        (window_start + window - now) as u64
    }
}

/// Fixed-window rate limiter: one entry per caller, each counting the
/// requests admitted in the caller's current window.
pub struct RateLimiter {
    entries: Vec<RateLimitEntry>,
    window: u64,
    max_requests: u64,
}

impl View for RateLimiter {
    type V = Seq<RateLimitEntry>;

    closed spec fn view(&self) -> Seq<RateLimitEntry> {
        self.entries@
    }
}

impl RateLimiter {
    /// Length of the fixed window, in seconds.
    pub closed spec fn window(self) -> u64 {
        self.window
    }

    /// Admitted requests per caller and window.
    pub closed spec fn max_requests(self) -> u64 {
        self.max_requests
    }

    /// The limiter's invariant: positive bounded configuration, one entry
    /// per caller, every count between one and the limit.
    pub open spec fn wf(self) -> bool {
        &&& 0 < self.window()
        &&& 0 < self.max_requests() <= 1_000_000_000
        &&& distinct_callers(self@)
        &&& forall|i: int|
            0 <= i < self@.len() ==> 1 <= (#[trigger] self@[i]).count <= self.max_requests()
    }

    /// An empty limiter admitting `max_requests` per `window` seconds.
    pub fn new(window: u64, max_requests: u64) -> (l: RateLimiter)
        requires
            0 < window,
            0 < max_requests <= 1_000_000_000,
        ensures
            l.wf(),
            l@ == Seq::<RateLimitEntry>::empty(),
            l.window() == window,
            l.max_requests() == max_requests,
    {
        RateLimiter { entries: Vec::new(), window, max_requests }
    }

    /// Admits or rejects a request from `caller` at time `now`.
    ///
    /// A rejection changes nothing and carries the seconds left in the
    /// caller's window; an admission charges the request to the caller's
    /// current or fresh window and touches no other caller's entry.
    pub fn check_rate_limit(&mut self, caller: u64, now: u64) -> (r: Result<(), VolumeError>)
        requires
            old(self).wf(),
        ensures
            final(self).wf(),
            final(self).window() == old(self).window(),
            final(self).max_requests() == old(self).max_requests(),
            would_count(lookup(old(self)@, caller), now, old(self).window())
                > old(self).max_requests() ==> (r matches Err(e) && e matches
            VolumeError::RateLimit(w) && w == wait_hint(
                next_window_start(lookup(old(self)@, caller), now, old(self).window()),
                old(self).window(),
                now,
            )) && final(self)@ == old(self)@,
            would_count(lookup(old(self)@, caller), now, old(self).window())
                <= old(self).max_requests() ==> r is Ok && lookup(final(self)@, caller) == Some(
                RateLimitEntry {
                    caller,
                    window_start: next_window_start(
                        lookup(old(self)@, caller),
                        now,
                        old(self).window(),
                    ),
                    count: would_count(lookup(old(self)@, caller), now, old(self).window()) as u64,
                },
            ) && (forall|c: u64|
                c != caller ==> lookup(final(self)@, c) == lookup(old(self)@, c)) && final(self)@
                .len() == old(self)@.len() + (if lookup(old(self)@, caller) is Some {
                0int
            } else {
                1int
            }),
    {
        let n = self.entries.len();
        let mut pos: usize = n;
        let mut i: usize = 0;
        while i < n
            invariant
                i <= n,
                pos == n || (pos < i && self@[pos as int].caller == caller),
                pos == n ==> forall|j: int| 0 <= j < i ==> (#[trigger] self@[j]).caller != caller,
            decreases n - i,
        {
            if self.entries[i].caller == caller {
                if pos == n {
                    pos = i;
                }
            }
            i = i + 1;
        }
        let ghost prev = lookup(self@, caller);
        proof {
            if pos < n {
                lemma_lookup_found(self@, caller, pos as int);
            } else {
                lemma_lookup_none(self@, caller);
            }
        }
        let (ws, cnt): (u64, u64) = if pos < n {
            let e_start = self.entries[pos].window_start;
            let e_count = self.entries[pos].count;
            if now > e_start && now - e_start > self.window {
                (now, 1)
            } else {
                (e_start, e_count + 1)
            }
        } else {
            (now, 1)
        };
        if cnt > self.max_requests {
            let hint128 = (ws as u128) + (self.window as u128) - (now as u128);
            let hint: u64 = if hint128 > 0xFFFF_FFFF_FFFF_FFFF {
                0xFFFF_FFFF_FFFF_FFFF
            } else {
                hint128 as u64
            };
            return Err(VolumeError::RateLimit(hint));
        }
        let entry = RateLimitEntry { caller, window_start: ws, count: cnt };
        if pos < n {
            proof {
                lemma_lookup_update(self@, pos as int, entry, caller);
            }
            self.entries[pos] = entry;
        } else {
            proof {
                lemma_lookup_push(self@, entry);
            }
            self.entries.push(entry);
        }
        Ok(())
    }
}

/// In a table without duplicate callers, any entry whose caller matches is
/// the one `lookup` returns.
proof fn lemma_lookup_found(s: Seq<RateLimitEntry>, caller: u64, i: int)
    requires
        distinct_callers(s),
        0 <= i < s.len(),
        s[i].caller == caller,
    ensures
        lookup(s, caller) == Some(s[i]),
    decreases s.len(),
{
    if i == 0 {
    } else {
        assert(s[0].caller != caller);
        assert(distinct_callers(s.drop_first())) by {
            assert forall|p: int, q: int|
                0 <= p < q < s.drop_first().len() implies (#[trigger] s.drop_first()[p]).caller != (
            #[trigger] s.drop_first()[q]).caller by {
                assert(s.drop_first()[p] == s[p + 1]);
                assert(s.drop_first()[q] == s[q + 1]);
            }
        }
        assert(s.drop_first()[i - 1] == s[i]);
        lemma_lookup_found(s.drop_first(), caller, i - 1);
    }
}

/// A caller with no entry is not found.
proof fn lemma_lookup_none(s: Seq<RateLimitEntry>, caller: u64)
    requires
        forall|j: int| 0 <= j < s.len() ==> (#[trigger] s[j]).caller != caller,
    ensures
        lookup(s, caller) is None,
    decreases s.len(),
{
    if s.len() > 0 {
        assert(forall|j: int|
            0 <= j < s.drop_first().len() ==> (#[trigger] s.drop_first()[j]).caller != caller);
        lemma_lookup_none(s.drop_first(), caller);
    }
}

/// Replacing the entry at a caller's index changes only that caller's
/// lookup.
proof fn lemma_lookup_update(s: Seq<RateLimitEntry>, i: int, e: RateLimitEntry, caller: u64)
    requires
        distinct_callers(s),
        0 <= i < s.len(),
        s[i].caller == caller,
        e.caller == caller,
    ensures
        lookup(s.update(i, e), caller) == Some(e),
        forall|c: u64| c != caller ==> lookup(s.update(i, e), c) == lookup(s, c),
        distinct_callers(s.update(i, e)),
    decreases s.len(),
{
    let t = s.update(i, e);
    assert(distinct_callers(t)) by {
        assert forall|p: int, q: int|
            0 <= p < q < t.len() implies (#[trigger] t[p]).caller != (#[trigger] t[q]).caller by {
            assert(s[p].caller != s[q].caller);
        }
    }
    if i == 0 {
        assert(t[0] == e);
        assert(t.drop_first() =~= s.drop_first());
        assert forall|c: u64| c != caller implies lookup(t, c) == lookup(s, c) by {
            assert(t[0].caller == caller);
            assert(s[0].caller == caller);
        }
    } else {
        assert(t[0] == s[0]);
        assert(t.drop_first() =~= s.drop_first().update(i - 1, e));
        assert(distinct_callers(s.drop_first())) by {
            assert forall|p: int, q: int|
                0 <= p < q < s.drop_first().len() implies (#[trigger] s.drop_first()[p]).caller != (
            #[trigger] s.drop_first()[q]).caller by {
                assert(s.drop_first()[p] == s[p + 1]);
                assert(s.drop_first()[q] == s[q + 1]);
            }
        }
        assert(s.drop_first()[i - 1] == s[i]);
        lemma_lookup_update(s.drop_first(), i - 1, e, caller);
        assert(s[0].caller != caller);
        assert(lookup(t.drop_first(), caller) == lookup(s.drop_first().update(i - 1, e), caller));
        assert forall|c: u64| c != caller implies lookup(t, c) == lookup(s, c) by {
            if c != s[0].caller {
                assert(lookup(t.drop_first(), c) == lookup(s.drop_first().update(i - 1, e), c));
                assert(lookup(s.drop_first().update(i - 1, e), c) == lookup(s.drop_first(), c));
            }
        }
    }
}

/// Appending an entry for a new caller changes only that caller's lookup.
proof fn lemma_lookup_push(s: Seq<RateLimitEntry>, e: RateLimitEntry)
    requires
        forall|j: int| 0 <= j < s.len() ==> (#[trigger] s[j]).caller != e.caller,
    ensures
        lookup(s.push(e), e.caller) == Some(e),
        forall|c: u64| c != e.caller ==> lookup(s.push(e), c) == lookup(s, c),
    decreases s.len(),
{
    let t = s.push(e);
    if s.len() == 0 {
        assert(t[0] == e);
        assert(t.drop_first() =~= Seq::<RateLimitEntry>::empty());
        assert forall|c: u64| c != e.caller implies lookup(t, c) == lookup(s, c) by {
            assert(lookup(t.drop_first(), c) == lookup(Seq::<RateLimitEntry>::empty(), c));
        }
    } else {
        assert(t[0] == s[0]);
        assert(t.drop_first() =~= s.drop_first().push(e));
        assert forall|j: int|
            0 <= j < s.drop_first().len() implies (#[trigger] s.drop_first()[j]).caller
            != e.caller by {
            assert(s.drop_first()[j] == s[j + 1]);
        }
        lemma_lookup_push(s.drop_first(), e);
        assert(s[0].caller != e.caller);
        assert(lookup(t.drop_first(), e.caller) == lookup(s.drop_first().push(e), e.caller));
        assert forall|c: u64| c != e.caller implies lookup(t, c) == lookup(s, c) by {
            if c != s[0].caller {
                assert(lookup(t.drop_first(), c) == lookup(s.drop_first().push(e), c));
                assert(lookup(s.drop_first().push(e), c) == lookup(s.drop_first(), c));
            }
        }
    }
}

} // verus!
