//! The response cache: a time-bounded, capacity-bounded map from
//! filename to a fully materialized response.
//!
//! The cache is a pure accelerator: entries expire on their deadline,
//! and under capacity pressure the oldest entry is evicted. Its
//! absence would change latency, never correctness.
use vstd::prelude::*;

use crate::models::{ImageResponse, ImageResponseV};

verus! {

/// One cached response with its expiry deadline.
#[derive(Debug)]
pub struct CacheEntry {
    /// The filename the response was built for.
    pub key: String,
    /// The cached response.
    pub value: ImageResponse,
    /// When the entry stops being served, in milliseconds.
    pub expires_ms: u64,
}

/// The cache itself, entries in insertion order, oldest first.
#[derive(Debug)]
pub struct ImageCache {
    /// The live entries; keys unique, length within capacity.
    pub entries: Vec<CacheEntry>,
    /// The most entries kept at once.
    pub capacity: usize,
    /// How long an entry is served, in milliseconds.
    pub ttl_ms: u64,
}

/// The views of the cache's entries.
pub open spec fn entry_views(entries: Seq<CacheEntry>) -> Seq<(Seq<char>, ImageResponseV, u64)> {
    entries.map_values(|e: CacheEntry| (e.key@, e.value@, e.expires_ms))
}

/// The entries left after removing those with this key.
pub open spec fn drop_key(
    es: Seq<(Seq<char>, ImageResponseV, u64)>,
    key: Seq<char>,
) -> Seq<(Seq<char>, ImageResponseV, u64)>
    decreases es.len(),
{
    if es.len() == 0 {
        es
    } else {
        let rest = drop_key(es.drop_last(), key);
        if es.last().0 == key {
            rest
        } else {
            rest.push(es.last())
        }
    }
}

/// The expiry deadline of an entry inserted at `now`: `now` plus the
/// time-to-live, saturating.
pub open spec fn expiry_spec(now: u64, ttl_ms: u64) -> u64 {
    if now + ttl_ms > u64::MAX {
        u64::MAX
    } else {
        (now + ttl_ms) as u64
    }
}

/// Dropping a key keeps key distinctness, keeps only entries that
/// were present, and keeps none with the dropped key.
proof fn lemma_drop_key_keeps(es: Seq<(Seq<char>, ImageResponseV, u64)>, key: Seq<char>)
    requires
        forall|i: int, j: int| 0 <= i < j < es.len() ==> #[trigger] es[i].0 != #[trigger] es[j].0,
    ensures
        forall|i: int, j: int|
            0 <= i < j < drop_key(es, key).len() ==> #[trigger] drop_key(es, key)[i].0
                != #[trigger] drop_key(es, key)[j].0,
        forall|i: int| 0 <= i < drop_key(es, key).len() ==> es.contains(#[trigger] drop_key(es, key)[i]),
        forall|i: int| 0 <= i < drop_key(es, key).len() ==> (#[trigger] drop_key(es, key)[i]).0 != key,
        drop_key(es, key).len() <= es.len(),
    decreases es.len(),
{
    if es.len() > 0 {
        let d = es.drop_last();
        assert forall|i: int, j: int|
            0 <= i < j < d.len() implies #[trigger] d[i].0 != #[trigger] d[j].0 by {
            assert(d[i] == es[i]);
            assert(d[j] == es[j]);
        }
        lemma_drop_key_keeps(d, key);
        let fd = drop_key(d, key);
        assert forall|i: int| 0 <= i < fd.len() implies es.contains(#[trigger] fd[i]) by {
            assert(d.contains(fd[i]));
            let k = choose|k: int| 0 <= k < d.len() && d[k] == fd[i];
            assert(es[k] == fd[i]);
        }
        let f = drop_key(es, key);
        if es.last().0 != key {
            assert(f == fd.push(es.last()));
            assert(es.contains(es.last())) by {
                assert(es[es.len() - 1] == es.last());
            }
            assert forall|i: int, j: int|
                0 <= i < j < f.len() implies #[trigger] f[i].0 != #[trigger] f[j].0 by {
                if j < f.len() - 1 {
                    assert(f[i] == fd[i]);
                    assert(f[j] == fd[j]);
                } else {
                    assert(f[j] == es.last());
                    assert(f[i] == fd[i]);
                    assert(d.contains(fd[i]));
                    let k = choose|k: int| 0 <= k < d.len() && d[k] == fd[i];
                    assert(es[k] == f[i]);
                    assert(es[k].0 != es[es.len() - 1].0);
                }
            }
        }
    }
}

impl ImageCache {
    /// The cache's invariant: distinct keys, within capacity.
    pub open spec fn wf(self) -> bool {
        &&& self.capacity >= 1
        &&& self.entries@.len() <= self.capacity
        &&& forall|i: int, j: int|
            0 <= i < j < self.entries@.len() ==> #[trigger] self.entries@[i].key@
                != #[trigger] self.entries@[j].key@
    }

    /// An empty cache with this capacity and time-to-live.
    pub fn new(max_capacity: usize, ttl_ms: u64) -> (r: ImageCache)
        requires
            max_capacity >= 1,
        ensures
            r.wf(),
            r.capacity == max_capacity,
            r.ttl_ms == ttl_ms,
            r.entries@.len() == 0,
    {
        ImageCache { entries: Vec::new(), capacity: max_capacity, ttl_ms }
    }

    /// The cached response under this key, if it has not expired.
    pub fn get(&self, key: &str, now: u64) -> (r: Option<ImageResponse>)
        ensures
            match r {
                Some(v) => exists|i: int|
                    0 <= i < self.entries@.len() && #[trigger] self.entries@[i].key@ == key@
                        && self.entries@[i].expires_ms > now && v@ == self.entries@[i].value@,
                None => forall|i: int|
                    0 <= i < self.entries@.len() && #[trigger] self.entries@[i].key@ == key@
                        ==> self.entries@[i].expires_ms <= now,
            },
    {
        let n = self.entries.len();
        let mut i: usize = 0;
        while i < n
            invariant
                n == self.entries@.len(),
                i <= n,
                forall|k: int|
                    0 <= k < i && #[trigger] self.entries@[k].key@ == key@
                        ==> self.entries@[k].expires_ms <= now,
            decreases n - i,
        {
            if crate::text::eq_str(self.entries[i].key.as_str(), key) {
                if self.entries[i].expires_ms > now {
                    let v = self.entries[i].value.clone();
                    return Some(v);
                }
            }
            i += 1;
        }
        None
    }

    /// Insert a response under this key at time `now`: any entry with
    /// the same key is replaced, the oldest entry is evicted when the
    /// cache is full, and the new entry expires one time-to-live from
    /// `now`.
    pub fn insert(&mut self, key: String, value: ImageResponse, now: u64)
        requires
            old(self).wf(),
        ensures
            final(self).wf(),
            final(self).capacity == old(self).capacity,
            final(self).ttl_ms == old(self).ttl_ms,
            ({
                let dropped = drop_key(entry_views(old(self).entries@), key@);
                let room = if dropped.len() >= old(self).capacity {
                    dropped.drop_first()
                } else {
                    dropped
                };
                entry_views(final(self).entries@) == room.push(
                    (key@, value@, expiry_spec(now, old(self).ttl_ms)),
                )
            }),
    {
        let ghost ev = entry_views(self.entries@);
        let n = self.entries.len();
        let mut kept: Vec<CacheEntry> = Vec::new();
        let mut i: usize = 0;
        proof {
            assert(ev.take(0) =~= Seq::<(Seq<char>, ImageResponseV, u64)>::empty());
            assert(entry_views(kept@) =~= drop_key(ev.take(0), key@));
        }
        while i < n
            invariant
                n == self.entries@.len(),
                i <= n,
                *self == *old(self),
                ev == entry_views(self.entries@),
                entry_views(kept@) == drop_key(ev.take(i as int), key@),
                kept@.len() <= i,
            decreases n - i,
        {
            let ghost kv = entry_views(kept@);
            if !crate::text::eq_str(self.entries[i].key.as_str(), key.as_str()) {
                let e = CacheEntry {
                    key: self.entries[i].key.clone(),
                    value: self.entries[i].value.clone(),
                    expires_ms: self.entries[i].expires_ms,
                };
                kept.push(e);
                proof {
                    assert(entry_views(kept@) =~= kv.push(ev[i as int]));
                }
            }
            i += 1;
            proof {
                assert(ev.take(i as int).drop_last() =~= ev.take(i - 1));
                assert(ev.take(i as int).last() == ev[i - 1]);
                assert(ev[i - 1] == (self.entries@[i - 1].key@, self.entries@[i - 1].value@, self.entries@[i - 1].expires_ms));
            }
        }
        proof {
            assert(ev.take(n as int) =~= ev);
            lemma_drop_key_keeps(ev, key@);
        }
        if kept.len() >= self.capacity {
            let ghost kv = entry_views(kept@);
            kept.remove(0);
            proof {
                assert(entry_views(kept@) =~= kv.drop_first());
            }
        }
        let expires_ms: u64 = if now > u64::MAX - self.ttl_ms {
            u64::MAX
        } else {
            now + self.ttl_ms
        };
        let ghost kv2 = entry_views(kept@);
        kept.push(CacheEntry { key, value, expires_ms });
        self.entries = kept;
        proof {
            let dropped = drop_key(ev, key@);
            let room = if dropped.len() >= old(self).capacity {
                dropped.drop_first()
            } else {
                dropped
            };
            assert(entry_views(self.entries@) =~= room.push(
                (self.entries@.last().key@, self.entries@.last().value@, expires_ms),
            ));
            assert forall|a: int, b: int|
                0 <= a < b < self.entries@.len() implies #[trigger] self.entries@[a].key@
                != #[trigger] self.entries@[b].key@ by {
                let nv = entry_views(self.entries@);
                assert(nv[a] == (self.entries@[a].key@, self.entries@[a].value@, self.entries@[a].expires_ms));
                assert(nv[b] == (self.entries@[b].key@, self.entries@[b].value@, self.entries@[b].expires_ms));
                if b < self.entries@.len() - 1 {
                    let da = if dropped.len() >= old(self).capacity {
                        a + 1
                    } else {
                        a
                    };
                    let db = if dropped.len() >= old(self).capacity {
                        b + 1
                    } else {
                        b
                    };
                    assert(nv[a] == dropped[da]);
                    assert(nv[b] == dropped[db]);
                } else {
                    assert(nv[b].0 == key@);
                    let da = if dropped.len() >= old(self).capacity {
                        a + 1
                    } else {
                        a
                    };
                    assert(nv[a] == dropped[da]);
                    assert(dropped[da].0 != key@);
                }
            }
        }
    }
}

} // verus!
