//! The two rate-limit disciplines, and client IP extraction.
//!
//! The IP limiter is a token bucket per client address, with capacity
//! and refill window fixed at construction. The API-key limiter is a
//! sliding window per key whose ceiling is resolved from the catalog
//! at check time — an absent override means unlimited, and a failed
//! lookup degrades to the process-wide default. Both checks are
//! non-blocking: a denied caller propagates the rejection, it never
//! retries internally.
use vstd::prelude::*;

use crate::catalog::Catalog;
use crate::text::{split_commas, split_commas_spec, trim_spec, trim_str};

verus! {

/// One IP's bucket. The budget is held in token-milliseconds: a full
/// bucket holds `capacity * window_ms`, it refills at `capacity` per
/// millisecond, and each allowed request costs `window_ms` — so over
/// one window exactly `capacity` requests can be allowed.
#[derive(Debug, Clone, Copy, PartialEq, Eq, Structural)]
pub struct IpBucket {
    /// Remaining budget, in token-milliseconds.
    pub budget: u64,
    /// When the budget was last brought up to date.
    pub last_ms: u64,
}

/// The index of this IP's bucket, if one exists.
fn find_bucket(buckets: &Vec<(String, IpBucket)>, ip: &str) -> (r: Option<usize>)
    ensures
        match r {
            Some(i) => i < buckets@.len() && buckets@[i as int].0@ == ip@,
            None => forall|k: int| 0 <= k < buckets@.len() ==> buckets@[k].0@ != ip@,
        },
{
    let n = buckets.len();
    let mut i: usize = 0;
    while i < n
        invariant
            n == buckets@.len(),
            i <= n,
            forall|k: int| 0 <= k < i ==> buckets@[k].0@ != ip@,
        decreases n - i,
    {
        if crate::text::eq_str(buckets[i].0.as_str(), ip) {
            return Some(i);
        }
        i += 1;
    }
    None
}

/// The index of this key's entry, if one exists.
fn find_entry(requests: &Vec<(String, Vec<u64>)>, key: &str) -> (r: Option<usize>)
    ensures
        match r {
            Some(i) => i < requests@.len() && requests@[i as int].0@ == key@,
            None => forall|k: int| 0 <= k < requests@.len() ==> requests@[k].0@ != key@,
        },
{
    let n = requests.len();
    let mut i: usize = 0;
    while i < n
        invariant
            n == requests@.len(),
            i <= n,
            forall|k: int| 0 <= k < i ==> requests@[k].0@ != key@,
        decreases n - i,
    {
        if crate::text::eq_str(requests[i].0.as_str(), key) {
            return Some(i);
        }
        i += 1;
    }
    None
}

/// The token-bucket limiter keyed by client IP.
#[derive(Debug)]
pub struct IpRateLimiter {
    /// One bucket per IP seen so far.
    pub buckets: Vec<(String, IpBucket)>,
    /// Requests allowed per window for each IP.
    pub capacity: u32,
    /// The window, in milliseconds.
    pub window_ms: u64,
}

/// A full budget.
pub open spec fn full_budget(capacity: u32, window_ms: u64) -> int {
    capacity * window_ms
}

/// A bucket's budget brought up to `now`: refilled at `capacity` per
/// millisecond since its last update, clamped to a full budget. A
/// clock that moved backwards refills nothing.
pub open spec fn refilled(b: IpBucket, capacity: u32, window_ms: u64, now: u64) -> int {
    let elapsed: int = if now >= b.last_ms {
        now - b.last_ms
    } else {
        0
    };
    let t = b.budget + elapsed * capacity;
    if t > full_budget(capacity, window_ms) {
        full_budget(capacity, window_ms)
    } else {
        t
    }
}

/// The bucket an unseen IP starts from: full, as of `now`.
pub open spec fn fresh_bucket(capacity: u32, window_ms: u64, now: u64) -> IpBucket {
    IpBucket { budget: (capacity * window_ms) as u64, last_ms: now }
}

/// Some bucket is keyed by this IP.
pub open spec fn has_ip(l: IpRateLimiter, ip: Seq<char>) -> bool {
    exists|i: int| 0 <= i < l.buckets@.len() && l.buckets@[i].0@ == ip
}

/// The index of this IP's bucket.
pub open spec fn ip_index(l: IpRateLimiter, ip: Seq<char>) -> int {
    choose|i: int| 0 <= i < l.buckets@.len() && l.buckets@[i].0@ == ip
}

impl IpRateLimiter {
    /// The limiter's invariant: sane bounds — which also keep the
    /// budget arithmetic inside `u64` — distinct IPs, and no budget
    /// above full.
    pub open spec fn wf(self) -> bool {
        &&& 1 <= self.capacity <= 1000000
        &&& 1 <= self.window_ms <= 1000000000
        &&& forall|i: int, j: int|
            0 <= i < j < self.buckets@.len() ==> #[trigger] self.buckets@[i].0@
                != #[trigger] self.buckets@[j].0@
        &&& forall|i: int|
            0 <= i < self.buckets@.len() ==> (#[trigger] self.buckets@[i].1).budget <= full_budget(
                self.capacity,
                self.window_ms,
            )
    }

    /// A fresh limiter: no buckets yet.
    pub fn new(capacity: u32, window_ms: u64) -> (r: IpRateLimiter)
        requires
            1 <= capacity <= 1000000,
            1 <= window_ms <= 1000000000,
        ensures
            r.wf(),
            r.capacity == capacity,
            r.window_ms == window_ms,
            r.buckets@.len() == 0,
    {
        IpRateLimiter { buckets: Vec::new(), capacity, window_ms }
    }

    /// Check one request from this IP at time `now`: refill the IP's
    /// bucket, allow if a full request's cost is covered, and charge
    /// it. An unseen IP starts from a full bucket. Never blocks.
    pub fn check(&mut self, ip: &str, now: u64) -> (allowed: bool)
        requires
            old(self).wf(),
        ensures
            final(self).wf(),
            final(self).capacity == old(self).capacity,
            final(self).window_ms == old(self).window_ms,
            ({
                let cap = old(self).capacity;
                let win = old(self).window_ms;
                let b0 = if has_ip(*old(self), ip@) {
                    old(self).buckets@[ip_index(*old(self), ip@)].1
                } else {
                    fresh_bucket(cap, win, now)
                };
                let t = refilled(b0, cap, win, now);
                let b1 = IpBucket {
                    budget: (if t >= win {
                        t - win
                    } else {
                        t
                    }) as u64,
                    last_ms: now,
                };
                &&& allowed == (t >= win)
                &&& if has_ip(*old(self), ip@) {
                    let i = ip_index(*old(self), ip@);
                    &&& final(self).buckets@.len() == old(self).buckets@.len()
                    &&& final(self).buckets@[i].0 == old(self).buckets@[i].0
                    &&& final(self).buckets@[i].1 == b1
                    &&& forall|j: int|
                        0 <= j < old(self).buckets@.len() && j != i ==> final(self).buckets@[j]
                            == old(self).buckets@[j]
                } else {
                    &&& final(self).buckets@.len() == old(self).buckets@.len() + 1
                    &&& final(self).buckets@.subrange(0, old(self).buckets@.len() as int) == old(
                        self,
                    ).buckets@
                    &&& final(self).buckets@.last().0@ == ip@
                    &&& final(self).buckets@.last().1 == b1
                }
            }),
    {
        let cap = self.capacity;
        let win = self.window_ms;
        proof {
            assert(cap * win <= 1000000 * 1000000000) by (nonlinear_arith)
                requires
                    0 <= cap <= 1000000,
                    0 <= win <= 1000000000,
            ;
        }
        let full: u64 = (cap as u64) * win;
        let found = find_bucket(&self.buckets, ip);
        match found {
            Some(i) => {
                proof {
                    let w = ip_index(*self, ip@);
                    if w != i as int {
                        assert(self.buckets@[w].0@ != self.buckets@[i as int].0@);
                    }
                    assert(ip_index(*self, ip@) == i as int);
                }
                let entry = self.buckets.remove(i);
                let name = entry.0;
                let b0 = entry.1;
                proof {
                    assert(entry == old(self).buckets@[i as int]);
                    assert(b0.budget <= full_budget(cap, win));
                }
                let elapsed: u64 = if now >= b0.last_ms {
                    now - b0.last_ms
                } else {
                    0
                };
                let t: u64 = if elapsed >= win {
                    proof {
                        assert(b0.budget + elapsed * cap >= elapsed * cap >= win * cap) by (
                        nonlinear_arith)
                            requires
                                elapsed >= win,
                                cap >= 1,
                                b0.budget >= 0,
                        ;
                    }
                    full
                } else {
                    proof {
                        assert(elapsed * cap <= 1000000000 * 1000000) by (nonlinear_arith)
                            requires
                                elapsed < 1000000000,
                                cap <= 1000000,
                                elapsed >= 0,
                                cap >= 0,
                        ;
                    }
                    let raw: u64 = b0.budget + elapsed * (cap as u64);
                    if raw > full {
                        full
                    } else {
                        raw
                    }
                };
                proof {
                    assert(t == refilled(b0, cap, win, now));
                    assert(t <= full_budget(cap, win));
                }
                let allowed = t >= win;
                let b1 = IpBucket {
                    budget: if allowed {
                        t - win
                    } else {
                        t
                    },
                    last_ms: now,
                };
                self.buckets.insert(i, (name, b1));
                proof {
                    assert(self.buckets@ =~= old(self).buckets@.update(i as int, (old(
                        self,
                    ).buckets@[i as int].0, b1)));
                    assert forall|a: int, b: int|
                        0 <= a < b < self.buckets@.len() implies #[trigger] self.buckets@[a].0@
                        != #[trigger] self.buckets@[b].0@ by {
                        assert(self.buckets@[a].0 == old(self).buckets@[a].0);
                        assert(self.buckets@[b].0 == old(self).buckets@[b].0);
                        assert(old(self).buckets@[a].0@ != old(self).buckets@[b].0@);
                    }
                    assert forall|a: int|
                        0 <= a < self.buckets@.len() implies (#[trigger] self.buckets@[a].1).budget
                        <= full_budget(self.capacity, self.window_ms) by {
                        if a != i as int {
                            assert(self.buckets@[a] == old(self).buckets@[a]);
                        }
                    }
                }
                allowed
            },
            None => {
                // A fresh bucket is full; one request is covered
                // because a full budget is at least one window.
                proof {
                    assert(full_budget(cap, win) >= win) by (nonlinear_arith)
                        requires
                            cap >= 1,
                            win >= 0,
                    ;
                }
                let b1 = IpBucket { budget: full - win, last_ms: now };
                self.buckets.push((ip.to_owned(), b1));
                proof {
                    assert(self.buckets@.subrange(0, old(self).buckets@.len() as int) =~= old(
                        self,
                    ).buckets@);
                }
                true
            },
        }
    }
}

/// The sliding-window limiter keyed by API key.
#[derive(Debug)]
pub struct ApiKeyRateLimiter {
    /// The recent request times of each key, newest last.
    pub requests: Vec<(String, Vec<u64>)>,
    /// The ceiling used when the catalog lookup fails.
    pub default_max_requests: u32,
    /// The window, in milliseconds.
    pub window_ms: u64,
}

/// The request times still inside the window ending at `now`: those
/// strictly newer than `now - window_ms`, in order.
pub open spec fn pruned(times: Seq<u64>, now: u64, window_ms: u64) -> Seq<u64>
    decreases times.len(),
{
    if times.len() == 0 {
        times
    } else {
        let rest = pruned(times.drop_last(), now, window_ms);
        if times.last() > now - window_ms {
            rest.push(times.last())
        } else {
            rest
        }
    }
}

/// The key record holding this token.
pub open spec fn key_record(c: Catalog, key: Seq<char>) -> crate::models::ApiKey {
    let i = choose|i: int| 0 <= i < c.keys@.len() && c.keys@[i].key@ == key;
    c.keys@[i]
}

/// The ceiling in force for a key: `None` is unlimited. A known key
/// without an override is unlimited; a known key with one has that
/// ceiling; an unknown key — the failed lookup — falls back to the
/// process-wide default.
pub open spec fn effective_limit(c: Catalog, key: Seq<char>, default: u32) -> Option<u32> {
    if c.has_key(key) {
        key_record(c, key).requests_per_second
    } else {
        Some(default)
    }
}

/// The views of a limiter's entries.
pub open spec fn request_views(l: ApiKeyRateLimiter) -> Seq<(Seq<char>, Seq<u64>)> {
    l.requests@.map_values(|p: (String, Vec<u64>)| (p.0@, p.1@))
}

/// The timestamps recorded for this key, empty when none are.
pub open spec fn times_of(l: ApiKeyRateLimiter, key: Seq<char>) -> Seq<u64> {
    if has_req_entry(l, key) {
        l.requests@[req_index(l, key)].1@
    } else {
        Seq::<u64>::empty()
    }
}

/// Whether one request under this key is allowed at `now`: unlimited
/// keys always are; otherwise the timestamps inside the window must
/// number under the ceiling.
pub open spec fn rate_allowed_spec(
    l: ApiKeyRateLimiter,
    c: Catalog,
    key: Seq<char>,
    now: u64,
) -> bool {
    match effective_limit(c, key, l.default_max_requests) {
        None => true,
        Some(lim) => pruned(times_of(l, key), now, l.window_ms).len() < lim,
    }
}

/// The limiter's entries after one check under this key at `now`: an
/// unlimited key records nothing; otherwise the key's timestamps are
/// pruned to the window and, when the request is allowed, `now` is
/// appended — a new entry is made for a key not seen before.
pub open spec fn requests_after(
    l: ApiKeyRateLimiter,
    c: Catalog,
    key: Seq<char>,
    now: u64,
) -> Seq<(Seq<char>, Seq<u64>)> {
    let rv = request_views(l);
    match effective_limit(c, key, l.default_max_requests) {
        None => rv,
        Some(lim) => {
            let kept = pruned(times_of(l, key), now, l.window_ms);
            let ts1 = if kept.len() < lim {
                kept.push(now)
            } else {
                kept
            };
            if has_req_entry(l, key) {
                rv.update(req_index(l, key), (key, ts1))
            } else {
                rv.push((key, ts1))
            }
        },
    }
}

/// Some entry is keyed by this token.
pub open spec fn has_req_entry(l: ApiKeyRateLimiter, key: Seq<char>) -> bool {
    exists|i: int| 0 <= i < l.requests@.len() && l.requests@[i].0@ == key
}

/// The index of this token's entry.
pub open spec fn req_index(l: ApiKeyRateLimiter, key: Seq<char>) -> int {
    choose|i: int| 0 <= i < l.requests@.len() && l.requests@[i].0@ == key
}

impl ApiKeyRateLimiter {
    /// The limiter's invariant: distinct keys.
    pub open spec fn wf(self) -> bool {
        forall|i: int, j: int|
            0 <= i < j < self.requests@.len() ==> #[trigger] self.requests@[i].0@
                != #[trigger] self.requests@[j].0@
    }

    /// A fresh limiter: no entries yet.
    pub fn new(default_max_requests: u32, window_ms: u64) -> (r: ApiKeyRateLimiter)
        ensures
            r.wf(),
            r.default_max_requests == default_max_requests,
            r.window_ms == window_ms,
            r.requests@.len() == 0,
    {
        ApiKeyRateLimiter { requests: Vec::new(), default_max_requests, window_ms }
    }

    /// Check one request under this key at time `now`. The ceiling is
    /// resolved from the catalog first: unlimited short-circuits to
    /// allowed without recording. Otherwise the key's timestamps are
    /// pruned to the window; the request is allowed, and `now`
    /// recorded, exactly when the count is under the ceiling.
    pub fn check_rate_limit(&mut self, catalog: &Catalog, api_key: &str, now: u64) -> (allowed:
        bool)
        requires
            old(self).wf(),
            catalog.wf(),
        ensures
            final(self).wf(),
            final(self).default_max_requests == old(self).default_max_requests,
            final(self).window_ms == old(self).window_ms,
            allowed == rate_allowed_spec(*old(self), *catalog, api_key@, now),
            request_views(*final(self)) == requests_after(*old(self), *catalog, api_key@, now),
    {
        let limit: u32 = match catalog.get_api_key(api_key) {
            Ok(k) => {
                proof {
                    let w = choose|w: int|
                        0 <= w < catalog.keys@.len() && #[trigger] catalog.keys@[w].key@
                            == api_key@ && k == catalog.keys@[w];
                    let c = choose|c: int|
                        0 <= c < catalog.keys@.len() && catalog.keys@[c].key@ == api_key@;
                    if c != w {
                        assert(catalog.keys@[c].key@ != catalog.keys@[w].key@);
                    }
                    assert(key_record(*catalog, api_key@) == k);
                }
                match k.requests_per_second {
                    None => {
                        return true;
                    },
                    Some(r) => r,
                }
            },
            Err(_) => self.default_max_requests,
        };
        let win = self.window_ms;
        let found = find_entry(&self.requests, api_key);
        match found {
            Some(i) => {
                proof {
                    let w = req_index(*self, api_key@);
                    if w != i as int {
                        assert(self.requests@[w].0@ != self.requests@[i as int].0@);
                    }
                    assert(req_index(*self, api_key@) == i as int);
                }
                let entry = self.requests.remove(i);
                let name = entry.0;
                let times = entry.1;
                proof {
                    assert(entry == old(self).requests@[i as int]);
                }
                let mut kept = self.prune_times(&times, now);
                let allowed = kept.len() < limit as usize;
                if allowed {
                    kept.push(now);
                }
                self.requests.insert(i, (name, kept));
                proof {
                    assert(self.requests@ =~= old(self).requests@.update(i as int, (old(
                        self,
                    ).requests@[i as int].0, self.requests@[i as int].1)));
                    assert forall|a: int, b: int|
                        0 <= a < b < self.requests@.len() implies #[trigger] self.requests@[a].0@
                        != #[trigger] self.requests@[b].0@ by {
                        assert(self.requests@[a].0 == old(self).requests@[a].0);
                        assert(self.requests@[b].0 == old(self).requests@[b].0);
                        assert(old(self).requests@[a].0@ != old(self).requests@[b].0@);
                    }
                }
                allowed
            },
            None => {
                proof {
                    assert(pruned(Seq::<u64>::empty(), now, win) =~= Seq::<u64>::empty());
                }
                let allowed = 0 < limit;
                let mut times: Vec<u64> = Vec::new();
                if allowed {
                    times.push(now);
                }
                let pair = (api_key.to_owned(), times);
                self.requests.push(pair);
                proof {
                    assert(self.requests@.subrange(0, old(self).requests@.len() as int) =~= old(
                        self,
                    ).requests@);
                    assert(self.requests@.last().0@ == api_key@);
                    assert(forall|k: int|
                        0 <= k < old(self).requests@.len() ==> self.requests@[k] == old(
                            self,
                        ).requests@[k]);
                    assert forall|a: int, b: int|
                        0 <= a < b < self.requests@.len() implies #[trigger] self.requests@[a].0@
                        != #[trigger] self.requests@[b].0@ by {
                        assert(self.requests@[a] == old(self).requests@[a]);
                        if b < self.requests@.len() - 1 {
                            assert(self.requests@[b] == old(self).requests@[b]);
                        } else {
                            assert(self.requests@[b].0@ == api_key@);
                            assert(old(self).requests@[a].0@ != api_key@);
                        }
                    }
                }
                allowed
            },
        }
    }

    /// The timestamps still inside the window ending at `now`.
    fn prune_times(&self, times: &Vec<u64>, now: u64) -> (r: Vec<u64>)
        ensures
            r@ == pruned(times@, now, self.window_ms),
            r@.len() <= times@.len(),
    {
        let win = self.window_ms;
        let n = times.len();
        let mut out: Vec<u64> = Vec::new();
        let mut i: usize = 0;
        proof {
            assert(times@.take(0) =~= Seq::<u64>::empty());
        }
        while i < n
            invariant
                n == times@.len(),
                i <= n,
                win == self.window_ms,
                out@ == pruned(times@.take(i as int), now, win),
                out@.len() <= i,
            decreases n - i,
        {
            let t = times[i];
            let keep = if now >= win {
                t > now - win
            } else {
                true
            };
            if keep {
                out.push(t);
            }
            i += 1;
            proof {
                assert(times@.take(i as int).drop_last() =~= times@.take(i - 1));
                assert(times@.take(i as int).last() == times@[i - 1]);
            }
        }
        proof {
            assert(times@.take(n as int) =~= times@);
        }
        out
    }
}

/// The client IP used to key the IP limiter: the trusted proxy header
/// if present, else the first hop of the forwarded-for header,
/// trimmed, else the loopback address.
pub open spec fn client_ip_spec(trusted: Option<Seq<char>>, fwd: Option<Seq<char>>) -> Seq<char> {
    match trusted {
        Some(r) => r,
        None => match fwd {
            Some(f) => trim_spec(split_commas_spec(f)[0]),
            None => "127.0.0.1"@,
        },
    }
}

/// Extract the client IP from the two proxy headers.
pub fn client_ip(real_ip: Option<&String>, forwarded_for: Option<&String>) -> (r: String)
    ensures
        r@ == client_ip_spec(
            match real_ip {
                Some(s) => Some(s@),
                None => None,
            },
            match forwarded_for {
                Some(s) => Some(s@),
                None => None,
            },
        ),
{
    match real_ip {
        Some(s) => s.clone(),
        None => match forwarded_for {
            Some(f) => {
                let parts = split_commas(f.as_str());
                proof {
                    assert(split_commas_spec(f@).len() > 0) by {
                        crate::limiter::lemma_split_nonempty(f@);
                    }
                    assert(parts@.map_values(|t: String| t@)[0] == parts@[0]@);
                }
                trim_str(parts[0].as_str())
            },
            None => {
                let r = "127.0.0.1".to_owned();
                r
            },
        },
    }
}

/// Splitting always yields at least one fragment.
pub proof fn lemma_split_nonempty(s: Seq<char>)
    ensures
        split_commas_spec(s).len() > 0,
{
    lemma_split_acc_len(s, Seq::empty(), Seq::empty());
}

proof fn lemma_split_acc_len(s: Seq<char>, cur: Seq<char>, acc: Seq<Seq<char>>)
    ensures
        crate::text::split_acc(s, cur, acc).len() > acc.len(),
    decreases s.len(),
{
    if s.len() == 0 {
    } else if s[0] == ',' {
        lemma_split_acc_len(s.drop_first(), Seq::empty(), acc.push(cur));
    } else {
        lemma_split_acc_len(s.drop_first(), cur.push(s[0]), acc);
    }
}

} // verus!
