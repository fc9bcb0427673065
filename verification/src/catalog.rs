//! The catalog: the record store for images, the tag vocabulary, the
//! image-tag associations and the API keys.
//!
//! The catalog is the in-memory model of the persistent store. Its
//! invariant [`Catalog::wf`] pins down what the storage schema
//! enforced: hashes, filenames, tag names, key tokens and usernames
//! are unique, and every association points at an existing image and
//! an existing tag. The unverified rim persists each mutation; the
//! engine's only ordering assumption is that each mutation is applied
//! atomically.
use vstd::prelude::*;

use crate::error::ImageError;
use crate::models::ApiKey;
use crate::norm::{normalize_tag, normalized};
use vstd::multiset::Multiset;

verus! {

/// The views of the tag vocabulary.
pub open spec fn tag_views(c: Catalog) -> Seq<Seq<char>> {
    c.tags@.map_values(|t: String| t@)
}

/// The views of the association pairs.
pub open spec fn assoc_views(c: Catalog) -> Seq<(Seq<char>, Seq<char>)> {
    c.assocs@.map_values(|p: (String, String)| (p.0@, p.1@))
}

/// A name occurs in a sequence of names.
pub open spec fn contains_name(ts: Seq<Seq<char>>, t: Seq<char>) -> bool {
    exists|i: int| 0 <= i < ts.len() && ts[i] == t
}

/// A pair occurs in a sequence of association pairs.
pub open spec fn contains_pair(ps: Seq<(Seq<char>, Seq<char>)>, h: Seq<char>, t: Seq<char>) -> bool {
    exists|i: int| 0 <= i < ps.len() && ps[i].0 == h && ps[i].1 == t
}

/// One tag attached to one image: the name joins the vocabulary if it
/// is new, and the association is added if it is missing — the
/// insert-or-ignore discipline of the storage schema.
pub open spec fn add_tag_step(
    tags: Seq<Seq<char>>,
    assocs: Seq<(Seq<char>, Seq<char>)>,
    h: Seq<char>,
    t: Seq<char>,
) -> (Seq<Seq<char>>, Seq<(Seq<char>, Seq<char>)>) {
    (
        if contains_name(tags, t) {
            tags
        } else {
            tags.push(t)
        },
        if contains_pair(assocs, h, t) {
            assocs
        } else {
            assocs.push((h, t))
        },
    )
}

/// The vocabulary and associations after attaching each listed tag, in
/// order, each normalized first.
pub open spec fn add_tags_spec(
    tags: Seq<Seq<char>>,
    assocs: Seq<(Seq<char>, Seq<char>)>,
    h: Seq<char>,
    ts: Seq<Seq<char>>,
) -> (Seq<Seq<char>>, Seq<(Seq<char>, Seq<char>)>)
    decreases ts.len(),
{
    if ts.len() == 0 {
        (tags, assocs)
    } else {
        let step = add_tag_step(tags, assocs, h, normalized(ts[0]));
        add_tags_spec(step.0, step.1, h, ts.drop_first())
    }
}

/// The associations left after detaching one tag from one image:
/// every pair except those equal to `(h, t)`, in order.
pub open spec fn remove_pair(
    ps: Seq<(Seq<char>, Seq<char>)>,
    h: Seq<char>,
    t: Seq<char>,
) -> Seq<(Seq<char>, Seq<char>)>
    decreases ps.len(),
{
    if ps.len() == 0 {
        ps
    } else {
        let rest = remove_pair(ps.drop_last(), h, t);
        if ps.last().0 == h && ps.last().1 == t {
            rest
        } else {
            rest.push(ps.last())
        }
    }
}

/// Detaching keeps pairwise distinctness, keeps only pairs that were
/// present, and keeps no pair equal to the detached one.
pub proof fn lemma_remove_pair_keeps(ps: Seq<(Seq<char>, Seq<char>)>, h: Seq<char>, t: Seq<char>)
    requires
        forall|i: int, j: int|
            0 <= i < j < ps.len() ==> !(#[trigger] ps[i].0 == #[trigger] ps[j].0 && ps[i].1
                == ps[j].1),
    ensures
        forall|i: int, j: int|
            0 <= i < j < remove_pair(ps, h, t).len() ==> !(#[trigger] remove_pair(ps, h, t)[i].0
                == #[trigger] remove_pair(ps, h, t)[j].0 && remove_pair(ps, h, t)[i].1
                == remove_pair(ps, h, t)[j].1),
        forall|i: int|
            0 <= i < remove_pair(ps, h, t).len() ==> ps.contains(#[trigger] remove_pair(ps, h, t)[i]),
        forall|i: int|
            0 <= i < remove_pair(ps, h, t).len() ==> !(#[trigger] remove_pair(ps, h, t)[i].0 == h
                && remove_pair(ps, h, t)[i].1 == t),
    decreases ps.len(),
{
    if ps.len() > 0 {
        let d = ps.drop_last();
        assert forall|i: int, j: int|
            0 <= i < j < d.len() implies !(#[trigger] d[i].0 == #[trigger] d[j].0 && d[i].1
            == d[j].1) by {
            assert(d[i] == ps[i]);
            assert(d[j] == ps[j]);
        }
        lemma_remove_pair_keeps(d, h, t);
        let fd = remove_pair(d, h, t);
        assert forall|i: int| 0 <= i < fd.len() implies ps.contains(#[trigger] fd[i]) by {
            assert(d.contains(fd[i]));
            let k = choose|k: int| 0 <= k < d.len() && d[k] == fd[i];
            assert(ps[k] == fd[i]);
        }
        let f = remove_pair(ps, h, t);
        if !(ps.last().0 == h && ps.last().1 == t) {
            assert(f == fd.push(ps.last()));
            assert forall|i: int, j: int|
                0 <= i < j < f.len() implies !(#[trigger] f[i].0 == #[trigger] f[j].0 && f[i].1
                == f[j].1) by {
                if j < f.len() - 1 {
                    assert(f[i] == fd[i]);
                    assert(f[j] == fd[j]);
                } else {
                    assert(f[j] == ps.last());
                    assert(f[i] == fd[i]);
                    assert(d.contains(fd[i]));
                    let k = choose|k: int| 0 <= k < d.len() && d[k] == fd[i];
                    assert(ps[k] == f[i]);
                    assert(!(ps[k].0 == ps[ps.len() - 1].0 && ps[k].1 == ps[ps.len() - 1].1));
                }
            }
            assert(ps.contains(ps.last())) by {
                assert(ps[ps.len() - 1] == ps.last());
            }
        }
    }
}

/// The associations left after detaching each listed tag, in order,
/// each normalized first.
pub open spec fn remove_tags_spec(
    ps: Seq<(Seq<char>, Seq<char>)>,
    h: Seq<char>,
    ts: Seq<Seq<char>>,
) -> Seq<(Seq<char>, Seq<char>)>
    decreases ts.len(),
{
    if ts.len() == 0 {
        ps
    } else {
        remove_tags_spec(remove_pair(ps, h, normalized(ts[0])), h, ts.drop_first())
    }
}

/// The image records left after removing the one with this filename.
pub open spec fn drop_filename(imgs: Seq<ImageRecord>, f: Seq<char>) -> Seq<ImageRecord>
    decreases imgs.len(),
{
    if imgs.len() == 0 {
        imgs
    } else {
        let rest = drop_filename(imgs.drop_last(), f);
        if imgs.last().filename@ == f {
            rest
        } else {
            rest.push(imgs.last())
        }
    }
}

/// The associations left after removing every one of this image hash.
pub open spec fn drop_hash(
    ps: Seq<(Seq<char>, Seq<char>)>,
    h: Seq<char>,
) -> Seq<(Seq<char>, Seq<char>)>
    decreases ps.len(),
{
    if ps.len() == 0 {
        ps
    } else {
        let rest = drop_hash(ps.drop_last(), h);
        if ps.last().0 == h {
            rest
        } else {
            rest.push(ps.last())
        }
    }
}

/// Whether any association carries this tag name.
pub open spec fn tag_used(ps: Seq<(Seq<char>, Seq<char>)>, t: Seq<char>) -> bool {
    exists|i: int| 0 <= i < ps.len() && ps[i].1 == t
}

/// The tag names that still have at least one association.
pub open spec fn prune_orphans(ts: Seq<Seq<char>>, ps: Seq<(Seq<char>, Seq<char>)>) -> Seq<
    Seq<char>,
>
    decreases ts.len(),
{
    if ts.len() == 0 {
        ts
    } else {
        let rest = prune_orphans(ts.drop_last(), ps);
        if tag_used(ps, ts.last()) {
            rest.push(ts.last())
        } else {
            rest
        }
    }
}

/// Removing an image keeps hash and filename distinctness, keeps only
/// records that were present, keeps every record with another
/// filename, and keeps none with the removed filename.
pub proof fn lemma_drop_filename_keeps(imgs: Seq<ImageRecord>, f: Seq<char>)
    requires
        forall|i: int, j: int|
            0 <= i < j < imgs.len() ==> #[trigger] imgs[i].hash@ != #[trigger] imgs[j].hash@,
        forall|i: int, j: int|
            0 <= i < j < imgs.len() ==> #[trigger] imgs[i].filename@
                != #[trigger] imgs[j].filename@,
    ensures
        forall|i: int, j: int|
            0 <= i < j < drop_filename(imgs, f).len() ==> #[trigger] drop_filename(imgs, f)[i].hash@
                != #[trigger] drop_filename(imgs, f)[j].hash@,
        forall|i: int, j: int|
            0 <= i < j < drop_filename(imgs, f).len() ==> #[trigger] drop_filename(
                imgs,
                f,
            )[i].filename@ != #[trigger] drop_filename(imgs, f)[j].filename@,
        forall|i: int|
            0 <= i < drop_filename(imgs, f).len() ==> imgs.contains(
                #[trigger] drop_filename(imgs, f)[i],
            ),
        forall|k: int|
            0 <= k < imgs.len() && imgs[k].filename@ != f ==> drop_filename(imgs, f).contains(
                #[trigger] imgs[k],
            ),
        forall|i: int| 0 <= i < drop_filename(imgs, f).len() ==> (#[trigger] drop_filename(imgs, f)[i]).filename@ != f,
    decreases imgs.len(),
{
    if imgs.len() > 0 {
        let d = imgs.drop_last();
        assert forall|i: int, j: int|
            0 <= i < j < d.len() implies #[trigger] d[i].hash@ != #[trigger] d[j].hash@ by {
            assert(d[i] == imgs[i]);
            assert(d[j] == imgs[j]);
        }
        assert forall|i: int, j: int|
            0 <= i < j < d.len() implies #[trigger] d[i].filename@ != #[trigger] d[j].filename@ by {
            assert(d[i] == imgs[i]);
            assert(d[j] == imgs[j]);
        }
        lemma_drop_filename_keeps(d, f);
        let fd = drop_filename(d, f);
        let fs = drop_filename(imgs, f);
        assert forall|i: int| 0 <= i < fd.len() implies imgs.contains(#[trigger] fd[i]) by {
            assert(d.contains(fd[i]));
            let k = choose|k: int| 0 <= k < d.len() && d[k] == fd[i];
            assert(imgs[k] == fd[i]);
        }
        assert(imgs.contains(imgs.last())) by {
            assert(imgs[imgs.len() - 1] == imgs.last());
        }
        if imgs.last().filename@ != f {
            assert(fs == fd.push(imgs.last()));
            assert forall|i: int, j: int|
                0 <= i < j < fs.len() implies #[trigger] fs[i].hash@ != #[trigger] fs[j].hash@
                && fs[i].filename@ != fs[j].filename@ by {
                if j < fs.len() - 1 {
                    assert(fs[i] == fd[i]);
                    assert(fs[j] == fd[j]);
                } else {
                    assert(fs[j] == imgs.last());
                    assert(fs[i] == fd[i]);
                    assert(d.contains(fd[i]));
                    let k = choose|k: int| 0 <= k < d.len() && d[k] == fd[i];
                    assert(imgs[k] == fs[i]);
                    assert(imgs[k].hash@ != imgs[imgs.len() - 1].hash@);
                    assert(imgs[k].filename@ != imgs[imgs.len() - 1].filename@);
                }
            }
        }
        assert forall|k: int|
            0 <= k < imgs.len() && imgs[k].filename@ != f implies fs.contains(
            #[trigger] imgs[k],
        ) by {
            if k < imgs.len() - 1 {
                assert(d[k] == imgs[k]);
                assert(fd.contains(imgs[k]));
                let w = choose|w: int| 0 <= w < fd.len() && fd[w] == imgs[k];
                if imgs.last().filename@ != f {
                    assert(fs[w] == imgs[k]);
                } else {
                    assert(fs[w] == imgs[k]);
                }
            } else {
                assert(imgs[k] == imgs.last());
                assert(fs[fs.len() - 1] == imgs.last());
            }
        }
    }
}

/// Dropping a hash keeps pair distinctness, keeps only pairs that were
/// present, and keeps none with the dropped hash.
pub proof fn lemma_drop_hash_keeps(ps: Seq<(Seq<char>, Seq<char>)>, h: Seq<char>)
    requires
        forall|i: int, j: int|
            0 <= i < j < ps.len() ==> !(#[trigger] ps[i].0 == #[trigger] ps[j].0 && ps[i].1
                == ps[j].1),
    ensures
        forall|i: int, j: int|
            0 <= i < j < drop_hash(ps, h).len() ==> !(#[trigger] drop_hash(ps, h)[i].0
                == #[trigger] drop_hash(ps, h)[j].0 && drop_hash(ps, h)[i].1 == drop_hash(
                ps,
                h,
            )[j].1),
        forall|i: int|
            0 <= i < drop_hash(ps, h).len() ==> ps.contains(#[trigger] drop_hash(ps, h)[i]),
        forall|i: int| 0 <= i < drop_hash(ps, h).len() ==> (#[trigger] drop_hash(ps, h)[i]).0 != h,
    decreases ps.len(),
{
    if ps.len() > 0 {
        let d = ps.drop_last();
        assert forall|i: int, j: int|
            0 <= i < j < d.len() implies !(#[trigger] d[i].0 == #[trigger] d[j].0 && d[i].1
            == d[j].1) by {
            assert(d[i] == ps[i]);
            assert(d[j] == ps[j]);
        }
        lemma_drop_hash_keeps(d, h);
        let fd = drop_hash(d, h);
        assert forall|i: int| 0 <= i < fd.len() implies ps.contains(#[trigger] fd[i]) by {
            assert(d.contains(fd[i]));
            let k = choose|k: int| 0 <= k < d.len() && d[k] == fd[i];
            assert(ps[k] == fd[i]);
        }
        let f = drop_hash(ps, h);
        if ps.last().0 != h {
            assert(f == fd.push(ps.last()));
            assert(ps.contains(ps.last())) by {
                assert(ps[ps.len() - 1] == ps.last());
            }
            assert forall|i: int, j: int|
                0 <= i < j < f.len() implies !(#[trigger] f[i].0 == #[trigger] f[j].0 && f[i].1
                == f[j].1) by {
                if j < f.len() - 1 {
                    assert(f[i] == fd[i]);
                    assert(f[j] == fd[j]);
                } else {
                    assert(f[j] == ps.last());
                    assert(f[i] == fd[i]);
                    assert(d.contains(fd[i]));
                    let k = choose|k: int| 0 <= k < d.len() && d[k] == fd[i];
                    assert(ps[k] == f[i]);
                    assert(!(ps[k].0 == ps[ps.len() - 1].0 && ps[k].1 == ps[ps.len() - 1].1));
                }
            }
        }
    }
}

/// Pruning keeps name distinctness, keeps only names that were
/// present, keeps exactly the used ones, and every kept name is used:
/// no tag is left orphaned-but-retained.
pub proof fn lemma_prune_orphans_keeps(ts: Seq<Seq<char>>, ps: Seq<(Seq<char>, Seq<char>)>)
    requires
        forall|i: int, j: int| 0 <= i < j < ts.len() ==> ts[i] != ts[j],
    ensures
        forall|i: int, j: int|
            0 <= i < j < prune_orphans(ts, ps).len() ==> #[trigger] prune_orphans(ts, ps)[i]
                != #[trigger] prune_orphans(ts, ps)[j],
        forall|i: int|
            0 <= i < prune_orphans(ts, ps).len() ==> ts.contains(#[trigger] prune_orphans(ts, ps)[i]),
        forall|i: int|
            0 <= i < prune_orphans(ts, ps).len() ==> tag_used(ps, #[trigger] prune_orphans(ts, ps)[i]),
        forall|k: int|
            0 <= k < ts.len() && tag_used(ps, ts[k]) ==> prune_orphans(ts, ps).contains(
                #[trigger] ts[k],
            ),
    decreases ts.len(),
{
    if ts.len() > 0 {
        let d = ts.drop_last();
        assert forall|i: int, j: int| 0 <= i < j < d.len() implies d[i] != d[j] by {
            assert(d[i] == ts[i]);
            assert(d[j] == ts[j]);
        }
        lemma_prune_orphans_keeps(d, ps);
        let fd = prune_orphans(d, ps);
        let f = prune_orphans(ts, ps);
        assert forall|i: int| 0 <= i < fd.len() implies ts.contains(#[trigger] fd[i]) by {
            assert(d.contains(fd[i]));
            let k = choose|k: int| 0 <= k < d.len() && d[k] == fd[i];
            assert(ts[k] == fd[i]);
        }
        assert(ts.contains(ts.last())) by {
            assert(ts[ts.len() - 1] == ts.last());
        }
        if tag_used(ps, ts.last()) {
            assert(f == fd.push(ts.last()));
            assert forall|i: int, j: int|
                0 <= i < j < f.len() implies #[trigger] f[i] != #[trigger] f[j] by {
                if j < f.len() - 1 {
                    assert(f[i] == fd[i]);
                    assert(f[j] == fd[j]);
                } else {
                    assert(f[j] == ts.last());
                    assert(f[i] == fd[i]);
                    assert(d.contains(fd[i]));
                    let k = choose|k: int| 0 <= k < d.len() && d[k] == fd[i];
                    assert(ts[k] == f[i]);
                    assert(ts[k] != ts[ts.len() - 1]);
                }
            }
        }
        assert forall|k: int|
            0 <= k < ts.len() && tag_used(ps, ts[k]) implies f.contains(#[trigger] ts[k]) by {
            if k < ts.len() - 1 {
                assert(d[k] == ts[k]);
                assert(fd.contains(ts[k]));
                let w = choose|w: int| 0 <= w < fd.len() && fd[w] == ts[k];
                assert(f[w] == ts[k]);
            } else {
                assert(ts[k] == ts.last());
                assert(f[f.len() - 1] == ts.last());
            }
        }
    }
}

/// The tag names associated with this image hash, in association
/// order.
pub open spec fn tags_of_hash(ps: Seq<(Seq<char>, Seq<char>)>, h: Seq<char>) -> Seq<Seq<char>>
    decreases ps.len(),
{
    if ps.len() == 0 {
        Seq::empty()
    } else {
        let rest = tags_of_hash(ps.drop_last(), h);
        if ps.last().0 == h {
            rest.push(ps.last().1)
        } else {
            rest
        }
    }
}

/// How many associations carry this tag name.
pub open spec fn tag_count(ps: Seq<(Seq<char>, Seq<char>)>, t: Seq<char>) -> nat
    decreases ps.len(),
{
    if ps.len() == 0 {
        0
    } else {
        tag_count(ps.drop_last(), t) + if ps.last().1 == t {
            1nat
        } else {
            0nat
        }
    }
}

/// An API key record with its last-used time set.
pub open spec fn key_touched(k: ApiKey, now: u64) -> ApiKey {
    ApiKey {
        key: k.key,
        username: k.username,
        created_at: k.created_at,
        last_used_at: Some(now),
        is_active: k.is_active,
        requests_per_second: k.requests_per_second,
        max_batch_size: k.max_batch_size,
    }
}

/// An API key record with its rate-limit override set.
pub open spec fn key_with_rate(k: ApiKey, rps: Option<u32>) -> ApiKey {
    ApiKey {
        key: k.key,
        username: k.username,
        created_at: k.created_at,
        last_used_at: k.last_used_at,
        is_active: k.is_active,
        requests_per_second: rps,
        max_batch_size: k.max_batch_size,
    }
}

/// An API key record with its active flag set.
pub open spec fn key_with_status(k: ApiKey, is_active: bool) -> ApiKey {
    ApiKey {
        key: k.key,
        username: k.username,
        created_at: k.created_at,
        last_used_at: k.last_used_at,
        is_active,
        requests_per_second: k.requests_per_second,
        max_batch_size: k.max_batch_size,
    }
}

/// The hash of the stored image with this filename.
pub open spec fn hash_of_filename(c: Catalog, f: Seq<char>) -> Seq<char> {
    let i = choose|i: int| 0 <= i < c.images@.len() && c.images@[i].filename@ == f;
    c.images@[i].hash@
}

/// Attaching one tag is idempotent: a second attachment of the same
/// name to the same image changes neither the vocabulary nor the
/// associations, so exactly one association row results.
pub proof fn lemma_add_tag_twice_idempotent(
    tags: Seq<Seq<char>>,
    assocs: Seq<(Seq<char>, Seq<char>)>,
    h: Seq<char>,
    t: Seq<char>,
)
    ensures
        ({
            let once = add_tags_spec(tags, assocs, h, seq![t]);
            add_tags_spec(once.0, once.1, h, seq![t]) == once
        }),
{
    let n = normalized(t);
    let step = add_tag_step(tags, assocs, h, n);
    assert(seq![t].drop_first() =~= Seq::<Seq<char>>::empty());
    assert(add_tags_spec(step.0, step.1, h, seq![t].drop_first()) == step);
    assert(contains_name(step.0, n)) by {
        if contains_name(tags, n) {
            let i = choose|i: int| 0 <= i < tags.len() && tags[i] == n;
            assert(step.0[i] == n);
        } else {
            assert(step.0[tags.len() as int] == n);
        }
    }
    assert(contains_pair(step.1, h, n)) by {
        if contains_pair(assocs, h, n) {
            let i = choose|i: int| 0 <= i < assocs.len() && assocs[i].0 == h && assocs[i].1 == n;
            assert(step.1[i].0 == h && step.1[i].1 == n);
        } else {
            assert(step.1[assocs.len() as int].0 == h && step.1[assocs.len() as int].1 == n);
        }
    }
    assert(add_tag_step(step.0, step.1, h, n) == (step.0, step.1));
}

/// One stored image: identity, location and fixed attributes.
#[derive(Debug)]
pub struct ImageRecord {
    /// Content hash, hex notation: the dedup key and identity.
    pub hash: String,
    /// Stored filename, unique in the catalog.
    pub filename: String,
    /// Creation time, milliseconds since the Unix epoch.
    pub created_at: u64,
    /// Last modification time, milliseconds since the Unix epoch.
    pub modified_at: u64,
    /// Pixel width, computed once at ingest.
    pub width: u32,
    /// Pixel height, computed once at ingest.
    pub height: u32,
    /// Byte size, computed once at ingest.
    pub size_bytes: u64,
}

impl Clone for ImageRecord {
    /// Cloning keeps the record's value.
    fn clone(&self) -> (r: Self)
        ensures
            r == *self,
    {
        ImageRecord {
            hash: self.hash.clone(),
            filename: self.filename.clone(),
            created_at: self.created_at,
            modified_at: self.modified_at,
            width: self.width,
            height: self.height,
            size_bytes: self.size_bytes,
        }
    }
}

/// The record store. All durable state of the engine lives here.
#[derive(Debug)]
pub struct Catalog {
    /// The stored images, in ingest order.
    pub images: Vec<ImageRecord>,
    /// The tag vocabulary: normalized names, without duplicates.
    pub tags: Vec<String>,
    /// Image-tag associations as (hash, tag name) pairs.
    pub assocs: Vec<(String, String)>,
    /// The API key records.
    pub keys: Vec<ApiKey>,
}

impl Catalog {
    /// Some stored image has this hash.
    pub open spec fn has_hash(self, h: Seq<char>) -> bool {
        exists|i: int| 0 <= i < self.images@.len() && self.images@[i].hash@ == h
    }

    /// Some stored image has this filename.
    pub open spec fn has_filename(self, f: Seq<char>) -> bool {
        exists|i: int| 0 <= i < self.images@.len() && self.images@[i].filename@ == f
    }

    /// The tag vocabulary holds this name.
    pub open spec fn has_tag(self, t: Seq<char>) -> bool {
        exists|i: int| 0 <= i < self.tags@.len() && self.tags@[i]@ == t
    }

    /// The image with this hash carries this tag.
    pub open spec fn has_assoc(self, h: Seq<char>, t: Seq<char>) -> bool {
        exists|i: int|
            0 <= i < self.assocs@.len() && self.assocs@[i].0@ == h && self.assocs@[i].1@ == t
    }

    /// Some API key record has this token.
    pub open spec fn has_key(self, k: Seq<char>) -> bool {
        exists|i: int| 0 <= i < self.keys@.len() && self.keys@[i].key@ == k
    }

    /// Some API key record has this username.
    pub open spec fn has_username(self, u: Seq<char>) -> bool {
        exists|i: int| 0 <= i < self.keys@.len() && self.keys@[i].username@ == u
    }

    /// The catalog's invariant: what the storage schema enforces.
    pub open spec fn wf(self) -> bool {
        &&& forall|i: int, j: int|
            0 <= i < j < self.images@.len() ==> #[trigger] self.images@[i].hash@
                != #[trigger] self.images@[j].hash@
        &&& forall|i: int, j: int|
            0 <= i < j < self.images@.len() ==> #[trigger] self.images@[i].filename@
                != #[trigger] self.images@[j].filename@
        &&& forall|i: int, j: int|
            0 <= i < j < self.tags@.len() ==> #[trigger] self.tags@[i]@ != #[trigger] self.tags@[j]@
        &&& forall|i: int, j: int|
            0 <= i < j < self.assocs@.len() ==> !(#[trigger] self.assocs@[i].0@
                == #[trigger] self.assocs@[j].0@ && self.assocs@[i].1@ == self.assocs@[j].1@)
        &&& forall|i: int|
            0 <= i < self.assocs@.len() ==> self.has_hash(#[trigger] self.assocs@[i].0@)
                && self.has_tag(self.assocs@[i].1@)
        &&& forall|i: int, j: int|
            0 <= i < j < self.keys@.len() ==> #[trigger] self.keys@[i].key@
                != #[trigger] self.keys@[j].key@
        &&& forall|i: int, j: int|
            0 <= i < j < self.keys@.len() ==> #[trigger] self.keys@[i].username@
                != #[trigger] self.keys@[j].username@
    }

    /// An empty catalog: no images, no tags, no associations, no keys.
    pub fn new() -> (r: Catalog)
        ensures
            r.wf(),
            r.images@.len() == 0,
            r.tags@.len() == 0,
            r.assocs@.len() == 0,
            r.keys@.len() == 0,
    {
        Catalog { images: Vec::new(), tags: Vec::new(), assocs: Vec::new(), keys: Vec::new() }
    }

    /// The index of the image with this hash, if any.
    pub fn find_by_hash(&self, hash: &str) -> (r: Option<usize>)
        ensures
            match r {
                Some(i) => i < self.images@.len() && self.images@[i as int].hash@ == hash@,
                None => !self.has_hash(hash@),
            },
    {
        let n = self.images.len();
        let mut i: usize = 0;
        while i < n
            invariant
                n == self.images@.len(),
                i <= n,
                forall|k: int| 0 <= k < i ==> self.images@[k].hash@ != hash@,
            decreases n - i,
        {
            if crate::text::eq_str(self.images[i].hash.as_str(), hash) {
                return Some(i);
            }
            i += 1;
        }
        None
    }

    /// The index of the image with this filename, if any.
    pub fn find_by_filename(&self, filename: &str) -> (r: Option<usize>)
        ensures
            match r {
                Some(i) => i < self.images@.len() && self.images@[i as int].filename@ == filename@,
                None => !self.has_filename(filename@),
            },
    {
        let n = self.images.len();
        let mut i: usize = 0;
        while i < n
            invariant
                n == self.images@.len(),
                i <= n,
                forall|k: int| 0 <= k < i ==> self.images@[k].filename@ != filename@,
            decreases n - i,
        {
            if crate::text::eq_str(self.images[i].filename.as_str(), filename) {
                return Some(i);
            }
            i += 1;
        }
        None
    }

    /// The index of this name in the tag vocabulary, if present.
    fn find_tag(&self, name: &str) -> (r: Option<usize>)
        ensures
            match r {
                Some(i) => i < self.tags@.len() && self.tags@[i as int]@ == name@,
                None => !self.has_tag(name@),
            },
    {
        let n = self.tags.len();
        let mut i: usize = 0;
        while i < n
            invariant
                n == self.tags@.len(),
                i <= n,
                forall|k: int| 0 <= k < i ==> self.tags@[k]@ != name@,
            decreases n - i,
        {
            if crate::text::eq_str(self.tags[i].as_str(), name) {
                return Some(i);
            }
            i += 1;
        }
        None
    }

    /// The index of this (hash, tag) association, if present.
    pub(crate) fn find_assoc(&self, h: &str, t: &str) -> (r: Option<usize>)
        ensures
            match r {
                Some(i) => i < self.assocs@.len() && self.assocs@[i as int].0@ == h@
                    && self.assocs@[i as int].1@ == t@,
                None => !self.has_assoc(h@, t@),
            },
    {
        let n = self.assocs.len();
        let mut i: usize = 0;
        while i < n
            invariant
                n == self.assocs@.len(),
                i <= n,
                forall|k: int|
                    0 <= k < i ==> !(self.assocs@[k].0@ == h@ && self.assocs@[k].1@ == t@),
            decreases n - i,
        {
            if crate::text::eq_str(self.assocs[i].0.as_str(), h) && crate::text::eq_str(
                self.assocs[i].1.as_str(),
                t,
            ) {
                return Some(i);
            }
            i += 1;
        }
        None
    }

    /// Attach tags to the image with this hash, each normalized first;
    /// the whole list is applied in order, all or nothing.
    ///
    /// Fails with `NotFound`, changing nothing, exactly when no image
    /// has the hash. Otherwise the vocabulary and associations end as
    /// [`add_tags_spec`] describes.
    pub fn add_tags(&mut self, image_hash: &str, tags: &Vec<String>) -> (r: Result<
        (),
        ImageError,
    >)
        requires
            old(self).wf(),
        ensures
            final(self).wf(),
            final(self).images@ == old(self).images@,
            final(self).keys@ == old(self).keys@,
            match r {
                Ok(()) => old(self).has_hash(image_hash@) && (
                tag_views(*final(self)),
                assoc_views(*final(self)),
                ) == add_tags_spec(
                    tag_views(*old(self)),
                    assoc_views(*old(self)),
                    image_hash@,
                    tags@.map_values(|t: String| t@),
                ),
                Err(ImageError::NotFound) => !old(self).has_hash(image_hash@) && *final(self)
                    == *old(self),
                Err(_) => false,
            },
    {
        if self.find_by_hash(image_hash).is_none() {
            return Err(ImageError::NotFound);
        }
        let ghost ts = tags@.map_values(|t: String| t@);
        let ghost h = image_hash@;
        let n = tags.len();
        let mut i: usize = 0;
        proof {
            assert(ts.subrange(0, n as int) =~= ts);
        }
        while i < n
            invariant
                n == tags@.len(),
                n == ts.len(),
                i <= n,
                ts == tags@.map_values(|t: String| t@),
                h == image_hash@,
                self.wf(),
                self.images@ == old(self).images@,
                self.keys@ == old(self).keys@,
                self.has_hash(h),
                add_tags_spec(tag_views(*self), assoc_views(*self), h, ts.subrange(i as int, n as int))
                    == add_tags_spec(tag_views(*old(self)), assoc_views(*old(self)), h, ts),
            decreases n - i,
        {
            let ghost pre = *self;
            let ghost rem = ts.subrange(i as int, n as int);
            let norm = normalize_tag(tags[i].as_str());
            proof {
                assert(rem[0] == ts[i as int]);
                assert(ts[i as int] == tags@[i as int]@);
                assert(norm@ == normalized(rem[0]));
            }
            match self.find_tag(norm.as_str()) {
                Some(_) => {
                    proof {
                        let w = choose|k: int|
                            0 <= k < self.tags@.len() && self.tags@[k]@ == norm@;
                        assert(tag_views(*self)[w] == norm@);
                        assert(contains_name(tag_views(*self), norm@));
                        assert(add_tag_step(tag_views(pre), assoc_views(pre), h, norm@).0
                            == tag_views(*self));
                    }
                },
                None => {
                    proof {
                        assert forall|k: int|
                            0 <= k < tag_views(pre).len() implies tag_views(pre)[k] != norm@ by {
                            assert(pre.tags@[k]@ != norm@);
                        }
                        assert(!contains_name(tag_views(pre), norm@));
                    }
                    self.tags.push(norm.clone());
                    proof {
                        assert(tag_views(*self) =~= tag_views(pre).push(norm@));
                        assert(tag_views(*self)[pre.tags@.len() as int] == norm@);
                        assert(contains_name(tag_views(*self), norm@));
                        assert forall|a: int|
                            0 <= a < self.assocs@.len() implies self.has_hash(
                            #[trigger] self.assocs@[a].0@,
                        ) && self.has_tag(self.assocs@[a].1@) by {
                            assert(pre.has_hash(pre.assocs@[a].0@));
                            assert(pre.has_tag(pre.assocs@[a].1@));
                            let wt = choose|k: int|
                                0 <= k < pre.tags@.len() && pre.tags@[k]@ == pre.assocs@[a].1@;
                            assert(self.tags@[wt]@ == self.assocs@[a].1@);
                        }
                    }
                },
            }
            let ghost mid = *self;
            proof {
                assert(contains_name(tag_views(mid), norm@));
                assert((tag_views(mid), assoc_views(mid)).0 == add_tag_step(
                    tag_views(pre),
                    assoc_views(pre),
                    h,
                    norm@,
                ).0);
            }
            match self.find_assoc(image_hash, norm.as_str()) {
                Some(_) => {
                    proof {
                        let w = choose|k: int|
                            0 <= k < self.assocs@.len() && self.assocs@[k].0@ == h
                                && self.assocs@[k].1@ == norm@;
                        assert(assoc_views(*self)[w] == (h, norm@));
                        assert(contains_pair(assoc_views(*self), h, norm@));
                    }
                },
                None => {
                    proof {
                        assert forall|k: int|
                            0 <= k < assoc_views(mid).len() implies !(assoc_views(mid)[k].0 == h
                            && assoc_views(mid)[k].1 == norm@) by {
                            assert(!(mid.assocs@[k].0@ == h && mid.assocs@[k].1@ == norm@));
                        }
                        assert(!contains_pair(assoc_views(mid), h, norm@));
                    }
                    let pair = (image_hash.to_owned(), norm);
                    self.assocs.push(pair);
                    proof {
                        assert(assoc_views(*self) =~= assoc_views(mid).push((h, norm@)));
                        let wt = choose|k: int|
                            0 <= k < mid.tags@.len() && mid.tags@[k]@ == norm@;
                        assert(self.tags@[wt]@ == norm@);
                        assert forall|a: int|
                            0 <= a < self.assocs@.len() implies self.has_hash(
                            #[trigger] self.assocs@[a].0@,
                        ) && self.has_tag(self.assocs@[a].1@) by {
                            if a < mid.assocs@.len() {
                                assert(mid.has_hash(mid.assocs@[a].0@));
                                assert(mid.has_tag(mid.assocs@[a].1@));
                                let wi = choose|k: int|
                                    0 <= k < mid.images@.len() && mid.images@[k].hash@
                                        == mid.assocs@[a].0@;
                                assert(self.images@[wi].hash@ == self.assocs@[a].0@);
                                let wt2 = choose|k: int|
                                    0 <= k < mid.tags@.len() && mid.tags@[k]@ == mid.assocs@[a].1@;
                                assert(self.tags@[wt2]@ == self.assocs@[a].1@);
                            } else {
                                assert(self.assocs@[a].0@ == h);
                                assert(self.assocs@[a].1@ == norm@);
                                let wi = choose|k: int|
                                    0 <= k < mid.images@.len() && mid.images@[k].hash@ == h;
                                assert(self.images@[wi].hash@ == h);
                                assert(self.tags@[wt]@ == norm@);
                            }
                        }
                    }
                },
            }
            proof {
                assert((tag_views(*self), assoc_views(*self)) == add_tag_step(
                    tag_views(pre),
                    assoc_views(pre),
                    h,
                    normalized(rem[0]),
                ));
                assert(rem.drop_first() =~= ts.subrange(i + 1, n as int));
                assert(add_tags_spec(tag_views(pre), assoc_views(pre), h, rem) == add_tags_spec(
                    tag_views(*self),
                    assoc_views(*self),
                    h,
                    rem.drop_first(),
                ));
                let wi = choose|k: int|
                    0 <= k < pre.images@.len() && pre.images@[k].hash@ == h;
                assert(self.images@[wi].hash@ == h);
                assert(self.has_hash(h));
            }
            i += 1;
        }
        proof {
            assert(ts.subrange(n as int, n as int) =~= Seq::<Seq<char>>::empty());
        }
        Ok(())
    }

    /// Detach one (hash, normalized tag) association, if present. The
    /// vocabulary itself is not pruned here.
    fn remove_assoc_pair(&mut self, image_hash: &str, norm: &str)
        requires
            old(self).wf(),
        ensures
            final(self).wf(),
            final(self).images@ == old(self).images@,
            final(self).tags@ == old(self).tags@,
            final(self).keys@ == old(self).keys@,
            assoc_views(*final(self)) == remove_pair(assoc_views(*old(self)), image_hash@, norm@),
    {
        let ghost h = image_hash@;
        let ghost t = norm@;
        let ghost av = assoc_views(*old(self));
        let n = self.assocs.len();
        let mut kept: Vec<(String, String)> = Vec::new();
        let mut i: usize = 0;
        proof {
            assert(av.take(0) =~= Seq::<(Seq<char>, Seq<char>)>::empty());
            assert(kept@.map_values(|p: (String, String)| (p.0@, p.1@)) =~= remove_pair(
                av.take(0),
                h,
                t,
            ));
        }
        while i < n
            invariant
                n == self.assocs@.len(),
                i <= n,
                h == image_hash@,
                t == norm@,
                av == assoc_views(*self),
                *self == *old(self),
                kept@.map_values(|p: (String, String)| (p.0@, p.1@)) == remove_pair(
                    av.take(i as int),
                    h,
                    t,
                ),
            decreases n - i,
        {
            let ghost kv = kept@.map_values(|p: (String, String)| (p.0@, p.1@));
            let keep = !(crate::text::eq_str(self.assocs[i].0.as_str(), image_hash)
                && crate::text::eq_str(self.assocs[i].1.as_str(), norm));
            if keep {
                let pair = (self.assocs[i].0.clone(), self.assocs[i].1.clone());
                kept.push(pair);
            }
            i += 1;
            proof {
                assert(av.take(i as int).drop_last() =~= av.take(i - 1));
                assert(av.take(i as int).last() == av[i - 1]);
                assert(av[i - 1] == (self.assocs@[i - 1].0@, self.assocs@[i - 1].1@));
                if keep {
                    assert(!(av[i - 1].0 == h && av[i - 1].1 == t));
                    assert(kept@.map_values(|p: (String, String)| (p.0@, p.1@)) =~= kv.push(
                        av[i - 1],
                    ));
                } else {
                    assert(av[i - 1].0 == h && av[i - 1].1 == t);
                }
            }
        }
        proof {
            assert(av.take(n as int) =~= av);
        }
        self.assocs = kept;
        proof {
            lemma_remove_pair_keeps(av, h, t);
            assert forall|a: int, b: int|
                0 <= a < b < self.assocs@.len() implies !(#[trigger] self.assocs@[a].0@
                == #[trigger] self.assocs@[b].0@ && self.assocs@[a].1@ == self.assocs@[b].1@) by {
                let nv = assoc_views(*self);
                assert(nv[a] == (self.assocs@[a].0@, self.assocs@[a].1@));
                assert(nv[b] == (self.assocs@[b].0@, self.assocs@[b].1@));
                assert(nv[a] != nv[b] || !(nv[a].0 == nv[b].0 && nv[a].1 == nv[b].1));
                assert(!(nv[a].0 == nv[b].0 && nv[a].1 == nv[b].1));
            }
            assert forall|a: int|
                0 <= a < self.assocs@.len() implies self.has_hash(#[trigger] self.assocs@[a].0@)
                && self.has_tag(self.assocs@[a].1@) by {
                let nv = assoc_views(*self);
                assert(av.contains(nv[a]));
                let k = choose|k: int| 0 <= k < av.len() && av[k] == nv[a];
                assert(av[k] == (old(self).assocs@[k].0@, old(self).assocs@[k].1@));
                assert(old(self).has_hash(old(self).assocs@[k].0@));
                assert(old(self).has_tag(old(self).assocs@[k].1@));
                let wi = choose|w: int|
                    0 <= w < old(self).images@.len() && old(self).images@[w].hash@ == old(
                        self,
                    ).assocs@[k].0@;
                assert(self.images@[wi].hash@ == self.assocs@[a].0@);
                let wt = choose|w: int|
                    0 <= w < old(self).tags@.len() && old(self).tags@[w]@ == old(
                        self,
                    ).assocs@[k].1@;
                assert(self.tags@[wt]@ == self.assocs@[a].1@);
            }
        }
    }

    /// Detach tags from the image with this hash, each normalized
    /// first; the whole list is applied in order. Detaching a tag the
    /// image does not carry is a no-op; the vocabulary is not pruned.
    pub fn remove_tags(&mut self, image_hash: &str, tags: &Vec<String>)
        requires
            old(self).wf(),
        ensures
            final(self).wf(),
            final(self).images@ == old(self).images@,
            final(self).tags@ == old(self).tags@,
            final(self).keys@ == old(self).keys@,
            assoc_views(*final(self)) == remove_tags_spec(
                assoc_views(*old(self)),
                image_hash@,
                tags@.map_values(|t: String| t@),
            ),
    {
        let ghost ts = tags@.map_values(|t: String| t@);
        let ghost h = image_hash@;
        let n = tags.len();
        let mut i: usize = 0;
        proof {
            assert(ts.subrange(0, n as int) =~= ts);
        }
        while i < n
            invariant
                n == tags@.len(),
                n == ts.len(),
                i <= n,
                ts == tags@.map_values(|t: String| t@),
                h == image_hash@,
                self.wf(),
                self.images@ == old(self).images@,
                self.tags@ == old(self).tags@,
                self.keys@ == old(self).keys@,
                remove_tags_spec(assoc_views(*self), h, ts.subrange(i as int, n as int))
                    == remove_tags_spec(assoc_views(*old(self)), h, ts),
            decreases n - i,
        {
            let ghost pre = *self;
            let ghost rem = ts.subrange(i as int, n as int);
            let norm = normalize_tag(tags[i].as_str());
            proof {
                assert(rem[0] == ts[i as int]);
                assert(ts[i as int] == tags@[i as int]@);
                assert(norm@ == normalized(rem[0]));
            }
            self.remove_assoc_pair(image_hash, norm.as_str());
            i += 1;
            proof {
                assert(rem.drop_first() =~= ts.subrange(i as int, n as int));
                assert(remove_tags_spec(assoc_views(pre), h, rem) == remove_tags_spec(
                    assoc_views(*self),
                    h,
                    rem.drop_first(),
                ));
            }
        }
        proof {
            assert(ts.subrange(n as int, n as int) =~= Seq::<Seq<char>>::empty());
        }
    }

    /// Whether any association carries this tag name.
    fn assoc_uses_tag(&self, t: &str) -> (r: bool)
        ensures
            r == tag_used(assoc_views(*self), t@),
    {
        let n = self.assocs.len();
        let mut i: usize = 0;
        while i < n
            invariant
                n == self.assocs@.len(),
                i <= n,
                forall|k: int| 0 <= k < i ==> self.assocs@[k].1@ != t@,
            decreases n - i,
        {
            if crate::text::eq_str(self.assocs[i].1.as_str(), t) {
                proof {
                    assert(assoc_views(*self)[i as int].1 == t@);
                }
                return true;
            }
            i += 1;
        }
        proof {
            assert forall|k: int|
                0 <= k < assoc_views(*self).len() implies #[trigger] assoc_views(*self)[k].1
                != t@ by {
                assert(self.assocs@[k].1@ != t@);
            }
        }
        false
    }

    /// Remove the image with this filename: its record, its
    /// associations, and every tag left without any association. The
    /// backing file is the caller's final, separate step.
    #[verifier::rlimit(40)]
    #[verifier::spinoff_prover]
    pub fn remove_image(&mut self, filename: &str) -> (r: Result<(), ImageError>)
        requires
            old(self).wf(),
        ensures
            final(self).wf(),
            final(self).keys@ == old(self).keys@,
            match r {
                Ok(()) => old(self).has_filename(filename@) && final(self).images@
                    == drop_filename(old(self).images@, filename@) && assoc_views(*final(self))
                    == drop_hash(
                    assoc_views(*old(self)),
                    hash_of_filename(*old(self), filename@),
                ) && tag_views(*final(self)) == prune_orphans(
                    tag_views(*old(self)),
                    assoc_views(*final(self)),
                ),
                Err(ImageError::NotFound) => !old(self).has_filename(filename@) && *final(self)
                    == *old(self),
                Err(_) => false,
            },
            r is Ok ==> forall|i: int|
                0 <= i < final(self).tags@.len() ==> tag_used(
                    assoc_views(*final(self)),
                    #[trigger] final(self).tags@[i]@,
                ),
    {
        let idx = match self.find_by_filename(filename) {
            None => {
                return Err(ImageError::NotFound);
            },
            Some(i) => i,
        };
        let hash = self.images[idx].hash.clone();
        let ghost h = hash_of_filename(*old(self), filename@);
        proof {
            let k = choose|k: int|
                0 <= k < self.images@.len() && self.images@[k].filename@ == filename@;
            if k != idx as int {
                assert(self.images@[k].filename@ != self.images@[idx as int].filename@);
            }
            assert(hash@ == h);
        }
        // Drop the image record.
        let ghost imgs0 = self.images@;
        let n = self.images.len();
        let mut kept_imgs: Vec<ImageRecord> = Vec::new();
        let mut i: usize = 0;
        proof {
            assert(imgs0.take(0) =~= Seq::<ImageRecord>::empty());
            assert(kept_imgs@ =~= drop_filename(imgs0.take(0), filename@));
        }
        while i < n
            invariant
                n == self.images@.len(),
                i <= n,
                *self == *old(self),
                imgs0 == self.images@,
                kept_imgs@ == drop_filename(imgs0.take(i as int), filename@),
            decreases n - i,
        {
            let ghost kv = kept_imgs@;
            if !crate::text::eq_str(self.images[i].filename.as_str(), filename) {
                kept_imgs.push(self.images[i].clone());
            }
            i += 1;
            proof {
                assert(imgs0.take(i as int).drop_last() =~= imgs0.take(i - 1));
                assert(imgs0.take(i as int).last() == imgs0[i - 1]);
            }
        }
        proof {
            assert(imgs0.take(n as int) =~= imgs0);
        }
        self.images = kept_imgs;
        // Drop the image's associations.
        let ghost av = assoc_views(*old(self));
        let an = self.assocs.len();
        let mut kept_assocs: Vec<(String, String)> = Vec::new();
        let mut j: usize = 0;
        proof {
            assert(av.take(0) =~= Seq::<(Seq<char>, Seq<char>)>::empty());
            assert(kept_assocs@.map_values(|p: (String, String)| (p.0@, p.1@)) =~= drop_hash(
                av.take(0),
                h,
            ));
        }
        while j < an
            invariant
                an == self.assocs@.len(),
                j <= an,
                h == hash@,
                self.assocs@ == old(self).assocs@,
                av == self.assocs@.map_values(|p: (String, String)| (p.0@, p.1@)),
                kept_assocs@.map_values(|p: (String, String)| (p.0@, p.1@)) == drop_hash(
                    av.take(j as int),
                    h,
                ),
            decreases an - j,
        {
            let ghost kv = kept_assocs@.map_values(|p: (String, String)| (p.0@, p.1@));
            let keep = !crate::text::eq_str(self.assocs[j].0.as_str(), hash.as_str());
            if keep {
                let pair = (self.assocs[j].0.clone(), self.assocs[j].1.clone());
                kept_assocs.push(pair);
            }
            j += 1;
            proof {
                assert(av.take(j as int).drop_last() =~= av.take(j - 1));
                assert(av.take(j as int).last() == av[j - 1]);
                assert(av[j - 1] == (self.assocs@[j - 1].0@, self.assocs@[j - 1].1@));
                if keep {
                    assert(kept_assocs@.map_values(|p: (String, String)| (p.0@, p.1@)) =~= kv.push(
                        av[j - 1],
                    ));
                }
            }
        }
        proof {
            assert(av.take(an as int) =~= av);
        }
        self.assocs = kept_assocs;
        proof {
            assert(assoc_views(*self) == drop_hash(av, h));
        }
        // Prune tags left without any association.
        let ghost ts0 = tag_views(*old(self));
        let ghost ps = assoc_views(*self);
        let tn = self.tags.len();
        let mut kept_tags: Vec<String> = Vec::new();
        let mut k: usize = 0;
        proof {
            assert(ts0.take(0) =~= Seq::<Seq<char>>::empty());
            assert(kept_tags@.map_values(|t: String| t@) =~= prune_orphans(ts0.take(0), ps));
        }
        while k < tn
            invariant
                tn == self.tags@.len(),
                k <= tn,
                self.tags@ == old(self).tags@,
                ps == assoc_views(*self),
                ts0 == self.tags@.map_values(|t: String| t@),
                kept_tags@.map_values(|t: String| t@) == prune_orphans(ts0.take(k as int), ps),
            decreases tn - k,
        {
            let ghost kv = kept_tags@.map_values(|t: String| t@);
            let used = self.assoc_uses_tag(self.tags[k].as_str());
            if used {
                kept_tags.push(self.tags[k].clone());
            }
            k += 1;
            proof {
                assert(ts0.take(k as int).drop_last() =~= ts0.take(k - 1));
                assert(ts0.take(k as int).last() == ts0[k - 1]);
                assert(ts0[k - 1] == self.tags@[k - 1]@);
                if used {
                    assert(kept_tags@.map_values(|t: String| t@) =~= kv.push(ts0[k - 1]));
                }
            }
        }
        proof {
            assert(ts0.take(tn as int) =~= ts0);
        }
        self.tags = kept_tags;
        proof {
            assert(tag_views(*self) == prune_orphans(ts0, ps));
            lemma_drop_filename_keeps(imgs0, filename@);
            lemma_drop_hash_keeps(av, h);
            lemma_prune_orphans_keeps(ts0, ps);
            let fin = *self;
            // Distinctness of the kept images, associations and tags.
            assert forall|a: int, b: int|
                0 <= a < b < fin.images@.len() implies #[trigger] fin.images@[a].hash@
                != #[trigger] fin.images@[b].hash@ && fin.images@[a].filename@
                != fin.images@[b].filename@ by {}
            assert forall|a: int, b: int|
                0 <= a < b < fin.assocs@.len() implies !(#[trigger] fin.assocs@[a].0@
                == #[trigger] fin.assocs@[b].0@ && fin.assocs@[a].1@ == fin.assocs@[b].1@) by {
                let nv = assoc_views(fin);
                assert(nv[a] == (fin.assocs@[a].0@, fin.assocs@[a].1@));
                assert(nv[b] == (fin.assocs@[b].0@, fin.assocs@[b].1@));
                assert(!(nv[a].0 == nv[b].0 && nv[a].1 == nv[b].1));
            }
            assert forall|a: int, b: int|
                0 <= a < b < fin.tags@.len() implies #[trigger] fin.tags@[a]@
                != #[trigger] fin.tags@[b]@ by {
                let nv = tag_views(fin);
                assert(nv[a] == fin.tags@[a]@);
                assert(nv[b] == fin.tags@[b]@);
                assert(nv[a] != nv[b]);
            }
            // Integrity of the kept associations.
            assert forall|a: int|
                0 <= a < fin.assocs@.len() implies fin.has_hash(#[trigger] fin.assocs@[a].0@)
                && fin.has_tag(fin.assocs@[a].1@) by {
                let nv = assoc_views(fin);
                assert(nv[a] == (fin.assocs@[a].0@, fin.assocs@[a].1@));
                assert(av.contains(nv[a]));
                assert(nv[a].0 != h);
                let w = choose|w: int| 0 <= w < av.len() && av[w] == nv[a];
                assert(av[w] == (old(self).assocs@[w].0@, old(self).assocs@[w].1@));
                assert(old(self).has_hash(old(self).assocs@[w].0@));
                let wi = choose|x: int|
                    0 <= x < old(self).images@.len() && old(self).images@[x].hash@ == old(
                        self,
                    ).assocs@[w].0@;
                // That image is not the removed one, so it was kept.
                assert(imgs0[wi].filename@ != filename@) by {
                    if imgs0[wi].filename@ == filename@ {
                        let c = choose|c: int|
                            0 <= c < old(self).images@.len() && old(self).images@[c].filename@
                                == filename@;
                        if c != wi {
                            assert(imgs0[c].filename@ != imgs0[wi].filename@);
                        }
                        assert(imgs0[wi].hash@ == h);
                    }
                }
                assert(fin.images@.contains(imgs0[wi]));
                let y = choose|y: int| 0 <= y < fin.images@.len() && fin.images@[y] == imgs0[wi];
                assert(fin.images@[y].hash@ == fin.assocs@[a].0@);
                // The tag of a kept association is used, and was kept.
                assert(tag_used(ps, nv[a].1)) by {
                    assert(ps[a].1 == nv[a].1);
                }
                assert(old(self).has_tag(old(self).assocs@[w].1@));
                let wt = choose|x: int|
                    0 <= x < old(self).tags@.len() && old(self).tags@[x]@ == old(
                        self,
                    ).assocs@[w].1@;
                assert(ts0[wt] == fin.assocs@[a].1@);
                assert(tag_views(fin).contains(ts0[wt]));
                let z = choose|z: int|
                    0 <= z < tag_views(fin).len() && tag_views(fin)[z] == ts0[wt];
                assert(fin.tags@[z]@ == fin.assocs@[a].1@);
            }
            // Every kept tag still has an association.
            assert forall|x: int|
                0 <= x < fin.tags@.len() implies tag_used(
                assoc_views(fin),
                #[trigger] fin.tags@[x]@,
            ) by {
                assert(tag_views(fin)[x] == fin.tags@[x]@);
                assert(tag_used(ps, tag_views(fin)[x]));
            }
        }
        Ok(())
    }

    /// Insert one image record, deduplicating on the content hash.
    ///
    /// The insert is attempted, not preceded by a separate existence
    /// check by callers: a hash collision surfaces as `Duplicate` and
    /// leaves the catalog unchanged, a filename collision as
    /// `StorageFailure`, exactly as the storage engine's uniqueness
    /// constraints would.
    pub fn insert_image(&mut self, rec: ImageRecord) -> (r: Result<(), ImageError>)
        requires
            old(self).wf(),
        ensures
            final(self).wf(),
            insert_image_rel(*old(self), *final(self), rec, r),
    {
        if let Some(_) = self.find_by_hash(rec.hash.as_str()) {
            return Err(ImageError::Duplicate);
        }
        if let Some(_) = self.find_by_filename(rec.filename.as_str()) {
            return Err(ImageError::StorageFailure);
        }
        self.images.push(rec);
        proof {
            assert(self.assocs@ == old(self).assocs@);
            assert(self.tags@ == old(self).tags@);
            assert(self.images@ == old(self).images@.push(rec));
            assert forall|i: int|
                0 <= i < self.assocs@.len() implies self.has_hash(
                #[trigger] self.assocs@[i].0@,
            ) && self.has_tag(self.assocs@[i].1@) by {
                assert(old(self).has_hash(old(self).assocs@[i].0@));
                assert(old(self).has_tag(old(self).assocs@[i].1@));
                let w = choose|k: int|
                    0 <= k < old(self).images@.len() && old(self).images@[k].hash@
                        == old(self).assocs@[i].0@;
                assert(self.images@[w].hash@ == self.assocs@[i].0@);
                let t = choose|k: int|
                    0 <= k < old(self).tags@.len() && old(self).tags@[k]@ == old(
                        self,
                    ).assocs@[i].1@;
                assert(self.tags@[t]@ == self.assocs@[i].1@);
            }
        }
        Ok(())
    }

    /// Re-ingesting byte-identical content is refused: once an insert
    /// with some hash has succeeded, a second insert of any record
    /// with the same hash answers `Duplicate` and changes nothing.
    pub proof fn lemma_reinsert_same_hash_is_duplicate(
        pre: Catalog,
        mid: Catalog,
        fin: Catalog,
        first: ImageRecord,
        second: ImageRecord,
        r1: Result<(), ImageError>,
        r2: Result<(), ImageError>,
    )
        requires
            pre.wf(),
            insert_image_rel(pre, mid, first, r1),
            insert_image_rel(mid, fin, second, r2),
            r1 is Ok,
            second.hash@ == first.hash@,
        ensures
            r2 == Result::<(), ImageError>::Err(ImageError::Duplicate),
            fin.images@ == mid.images@,
            fin.tags@ == mid.tags@,
            fin.assocs@ == mid.assocs@,
            fin.keys@ == mid.keys@,
    {
        let n = mid.images@.len() - 1;
        assert(mid.images@[n].hash@ == second.hash@);
        assert(mid.has_hash(second.hash@));
    }
}

/// A change that only touches the key records keeps the catalog
/// well-formed, provided the new records keep token and username
/// distinctness.
proof fn lemma_wf_after_keys_change(pre: Catalog, post: Catalog)
    requires
        pre.wf(),
        post.images@ == pre.images@,
        post.tags@ == pre.tags@,
        post.assocs@ == pre.assocs@,
        forall|i: int, j: int|
            0 <= i < j < post.keys@.len() ==> #[trigger] post.keys@[i].key@
                != #[trigger] post.keys@[j].key@,
        forall|i: int, j: int|
            0 <= i < j < post.keys@.len() ==> #[trigger] post.keys@[i].username@
                != #[trigger] post.keys@[j].username@,
    ensures
        post.wf(),
{
    assert forall|a: int|
        0 <= a < post.assocs@.len() implies post.has_hash(#[trigger] post.assocs@[a].0@)
        && post.has_tag(post.assocs@[a].1@) by {
        assert(pre.has_hash(pre.assocs@[a].0@));
        assert(pre.has_tag(pre.assocs@[a].1@));
        let wi = choose|k: int|
            0 <= k < pre.images@.len() && pre.images@[k].hash@ == pre.assocs@[a].0@;
        assert(post.images@[wi].hash@ == post.assocs@[a].0@);
        let wt = choose|k: int| 0 <= k < pre.tags@.len() && pre.tags@[k]@ == pre.assocs@[a].1@;
        assert(post.tags@[wt]@ == post.assocs@[a].1@);
    }
}

impl Catalog {
    /// The tags carried by the image with this hash, in association
    /// order.
    pub fn get_image_tags(&self, image_hash: &str) -> (r: Vec<String>)
        ensures
            r@.map_values(|t: String| t@) == tags_of_hash(assoc_views(*self), image_hash@),
    {
        let ghost av = assoc_views(*self);
        let n = self.assocs.len();
        let mut out: Vec<String> = Vec::new();
        let mut i: usize = 0;
        proof {
            assert(av.take(0) =~= Seq::<(Seq<char>, Seq<char>)>::empty());
            assert(out@.map_values(|t: String| t@) =~= tags_of_hash(av.take(0), image_hash@));
        }
        while i < n
            invariant
                n == self.assocs@.len(),
                av == assoc_views(*self),
                i <= n,
                out@.map_values(|t: String| t@) == tags_of_hash(av.take(i as int), image_hash@),
            decreases n - i,
        {
            let ghost kv = out@.map_values(|t: String| t@);
            let hit = crate::text::eq_str(self.assocs[i].0.as_str(), image_hash);
            if hit {
                out.push(self.assocs[i].1.clone());
            }
            i += 1;
            proof {
                assert(av.take(i as int).drop_last() =~= av.take(i - 1));
                assert(av.take(i as int).last() == av[i - 1]);
                assert(av[i - 1] == (self.assocs@[i - 1].0@, self.assocs@[i - 1].1@));
                if hit {
                    assert(out@.map_values(|t: String| t@) =~= kv.push(av[i - 1].1));
                }
            }
        }
        proof {
            assert(av.take(n as int) =~= av);
        }
        out
    }

    /// Every tag name in the vocabulary with the number of images
    /// carrying it; a name orphaned by tag removal counts zero.
    pub fn get_all_tags(&self) -> (r: Vec<(String, u64)>)
        ensures
            r@.len() == self.tags@.len(),
            forall|i: int|
                0 <= i < r@.len() ==> #[trigger] r@[i].0@ == self.tags@[i]@ && r@[i].1 == tag_count(
                    assoc_views(*self),
                    self.tags@[i]@,
                ),
    {
        let n = self.tags.len();
        let mut out: Vec<(String, u64)> = Vec::new();
        let mut i: usize = 0;
        while i < n
            invariant
                n == self.tags@.len(),
                i <= n,
                out@.len() == i,
                forall|k: int|
                    0 <= k < i ==> #[trigger] out@[k].0@ == self.tags@[k]@ && out@[k].1
                        == tag_count(assoc_views(*self), self.tags@[k]@),
            decreases n - i,
        {
            let count = self.count_tag(self.tags[i].as_str());
            out.push((self.tags[i].clone(), count));
            i += 1;
        }
        out
    }

    /// How many associations carry this tag name.
    fn count_tag(&self, t: &str) -> (r: u64)
        ensures
            r == tag_count(assoc_views(*self), t@),
    {
        let ghost av = assoc_views(*self);
        let n = self.assocs.len();
        let mut count: usize = 0;
        let mut i: usize = 0;
        proof {
            assert(av.take(0) =~= Seq::<(Seq<char>, Seq<char>)>::empty());
        }
        while i < n
            invariant
                n == self.assocs@.len(),
                av == assoc_views(*self),
                i <= n,
                count <= i,
                count == tag_count(av.take(i as int), t@),
            decreases n - i,
        {
            let hit = crate::text::eq_str(self.assocs[i].1.as_str(), t);
            if hit {
                count += 1;
            }
            i += 1;
            proof {
                assert(av.take(i as int).drop_last() =~= av.take(i - 1));
                assert(av.take(i as int).last() == av[i - 1]);
                assert(av[i - 1] == (self.assocs@[i - 1].0@, self.assocs@[i - 1].1@));
            }
        }
        proof {
            assert(av.take(n as int) =~= av);
        }
        count as u64
    }

    /// The index of the key record with this token, if any.
    fn find_key_by_token(&self, key: &str) -> (r: Option<usize>)
        ensures
            match r {
                Some(i) => i < self.keys@.len() && self.keys@[i as int].key@ == key@,
                None => !self.has_key(key@),
            },
    {
        let n = self.keys.len();
        let mut i: usize = 0;
        while i < n
            invariant
                n == self.keys@.len(),
                i <= n,
                forall|k: int| 0 <= k < i ==> self.keys@[k].key@ != key@,
            decreases n - i,
        {
            if crate::text::eq_str(self.keys[i].key.as_str(), key) {
                return Some(i);
            }
            i += 1;
        }
        None
    }

    /// The index of the key record with this username, if any.
    fn find_key_by_username(&self, username: &str) -> (r: Option<usize>)
        ensures
            match r {
                Some(i) => i < self.keys@.len() && self.keys@[i as int].username@ == username@,
                None => !self.has_username(username@),
            },
    {
        let n = self.keys.len();
        let mut i: usize = 0;
        while i < n
            invariant
                n == self.keys@.len(),
                i <= n,
                forall|k: int| 0 <= k < i ==> self.keys@[k].username@ != username@,
            decreases n - i,
        {
            if crate::text::eq_str(self.keys[i].username.as_str(), username) {
                return Some(i);
            }
            i += 1;
        }
        None
    }

    /// Record a new API key. The caller supplies the token; the
    /// catalog enforces username uniqueness, surfacing a collision as
    /// `UsernameExists`, and token uniqueness as `StorageFailure`.
    pub fn generate_api_key(
        &mut self,
        key: String,
        username: String,
        requests_per_second: Option<u32>,
        max_batch_size: Option<u32>,
        now: u64,
    ) -> (r: Result<(), ImageError>)
        requires
            old(self).wf(),
        ensures
            final(self).wf(),
            final(self).images@ == old(self).images@,
            final(self).tags@ == old(self).tags@,
            final(self).assocs@ == old(self).assocs@,
            match r {
                Ok(()) => !old(self).has_username(username@) && !old(self).has_key(key@)
                    && final(self).keys@ == old(self).keys@.push(
                    ApiKey {
                        key,
                        username,
                        created_at: now,
                        last_used_at: None,
                        is_active: true,
                        requests_per_second,
                        max_batch_size,
                    },
                ),
                Err(ImageError::UsernameExists) => old(self).has_username(username@) && *final(self)
                    == *old(self),
                Err(ImageError::StorageFailure) => !old(self).has_username(username@) && old(
                    self,
                ).has_key(key@) && *final(self) == *old(self),
                Err(_) => false,
            },
    {
        if self.find_key_by_username(username.as_str()).is_some() {
            return Err(ImageError::UsernameExists);
        }
        if self.find_key_by_token(key.as_str()).is_some() {
            return Err(ImageError::StorageFailure);
        }
        let rec = ApiKey {
            key,
            username,
            created_at: now,
            last_used_at: None,
            is_active: true,
            requests_per_second,
            max_batch_size,
        };
        self.keys.push(rec);
        proof {
            assert forall|a: int, b: int|
                0 <= a < b < self.keys@.len() implies #[trigger] self.keys@[a].key@
                != #[trigger] self.keys@[b].key@ && self.keys@[a].username@
                != self.keys@[b].username@ by {
                if b < self.keys@.len() - 1 {
                    assert(self.keys@[a] == old(self).keys@[a]);
                    assert(self.keys@[b] == old(self).keys@[b]);
                } else {
                    assert(self.keys@[a] == old(self).keys@[a]);
                    assert(old(self).keys@[a].key@ != self.keys@[b].key@);
                    assert(old(self).keys@[a].username@ != self.keys@[b].username@);
                }
            }
            lemma_wf_after_keys_change(*old(self), *self);
        }
        Ok(())
    }

    /// Remove the key owned by this username; reports whether one was
    /// there.
    pub fn remove_api_key(&mut self, username: &str) -> (r: bool)
        requires
            old(self).wf(),
        ensures
            final(self).wf(),
            final(self).images@ == old(self).images@,
            final(self).tags@ == old(self).tags@,
            final(self).assocs@ == old(self).assocs@,
            r == old(self).has_username(username@),
            if r {
                exists|i: int|
                    0 <= i < old(self).keys@.len() && old(self).keys@[i].username@ == username@
                        && final(self).keys@ == old(self).keys@.remove(i)
            } else {
                final(self).keys@ == old(self).keys@
            },
    {
        match self.find_key_by_username(username) {
            Some(i) => {
                let ghost ks = self.keys@;
                self.keys.remove(i);
                proof {
                    assert(self.keys@ == ks.remove(i as int));
                    assert forall|a: int, b: int|
                        0 <= a < b < self.keys@.len() implies #[trigger] self.keys@[a].key@
                        != #[trigger] self.keys@[b].key@ && self.keys@[a].username@
                        != self.keys@[b].username@ by {
                        let a0 = if a < i as int {
                            a
                        } else {
                            a + 1
                        };
                        let b0 = if b < i as int {
                            b
                        } else {
                            b + 1
                        };
                        assert(self.keys@[a] == ks[a0]);
                        assert(self.keys@[b] == ks[b0]);
                    }
                    lemma_wf_after_keys_change(*old(self), *self);
                }
                true
            },
            None => false,
        }
    }

    /// Every key record, in catalog order.
    pub fn list_api_keys(&self) -> (r: Vec<ApiKey>)
        ensures
            r@.to_multiset() == self.keys@.to_multiset(),
            forall|i: int, j: int|
                0 <= i < j < r@.len() ==> #[trigger] r@[i].created_at
                    >= #[trigger] r@[j].created_at,
    {
        broadcast use vstd::seq_lib::group_to_multiset_ensures;

        let n = self.keys.len();
        let mut rest: Vec<ApiKey> = Vec::new();
        let mut i: usize = 0;
        while i < n
            invariant
                n == self.keys@.len(),
                i <= n,
                rest@.len() == i,
                forall|k: int| 0 <= k < i ==> rest@[k] == self.keys@[k],
            decreases n - i,
        {
            rest.push(self.keys[i].clone());
            i += 1;
        }
        proof {
            assert(rest@ =~= self.keys@);
        }
        // Selection by newest creation time: move the newest remaining
        // record over, one at a time.
        let mut out: Vec<ApiKey> = Vec::new();
        while rest.len() > 0
            invariant
                out@.to_multiset().add(rest@.to_multiset()) == self.keys@.to_multiset(),
                forall|a: int, b: int|
                    0 <= a < b < out@.len() ==> #[trigger] out@[a].created_at
                        >= #[trigger] out@[b].created_at,
                forall|a: int, b: int|
                    0 <= a < out@.len() && 0 <= b < rest@.len() ==> #[trigger] out@[a].created_at
                        >= #[trigger] rest@[b].created_at,
            decreases rest@.len(),
        {
            let m = rest.len();
            let mut best: usize = 0;
            let mut j: usize = 1;
            while j < m
                invariant
                    m == rest@.len(),
                    best < j <= m || (best == 0 && j <= m),
                    best < m,
                    forall|q: int|
                        0 <= q < j ==> rest@[best as int].created_at
                            >= #[trigger] rest@[q].created_at,
                decreases m - j,
            {
                if rest[j].created_at > rest[best].created_at {
                    best = j;
                }
                j += 1;
            }
            let ghost rest0 = rest@;
            let ghost out0 = out@;
            let k = rest.remove(best);
            out.push(k);
            proof {
                assert(rest@ == rest0.remove(best as int));
                vstd::seq_lib::to_multiset_remove::<ApiKey>(rest0, best as int);
                assert(out@ == out0.push(k));
                vstd::seq_lib::to_multiset_build::<ApiKey>(out0, k);
                assert(rest0.to_multiset().count(k) > 0) by {
                    assert(rest0.contains(k)) by {
                        assert(rest0[best as int] == k);
                    }
                    vstd::seq_lib::to_multiset_contains::<ApiKey>(rest0, k);
                }
                assert(out@.to_multiset().add(rest@.to_multiset()) =~= out0.to_multiset().add(
                    rest0.to_multiset(),
                ));
                assert forall|a: int, b: int|
                    0 <= a < out@.len() && 0 <= b < rest@.len() implies #[trigger] out@[a].created_at
                    >= #[trigger] rest@[b].created_at by {
                    let b0 = if b < best as int {
                        b
                    } else {
                        b + 1
                    };
                    assert(rest@[b] == rest0[b0]);
                    if a < out@.len() - 1 {
                        assert(out@[a] == out0[a]);
                    } else {
                        assert(out@[a] == k);
                        assert(k.created_at >= rest0[b0].created_at);
                    }
                }
            }
        }
        proof {
            assert(rest@.to_multiset() =~= Multiset::<ApiKey>::empty());
            assert(out@.to_multiset().add(Multiset::<ApiKey>::empty()) =~= out@.to_multiset());
        }
        out
    }

    /// Authenticate a token: `Ok(true)` for a known active key,
    /// `InactiveKey` for a known deactivated one — a distinct
    /// condition — and `Ok(false)` for an unknown token.
    pub fn validate_api_key(&self, key: &str) -> (r: Result<bool, ImageError>)
        ensures
            match r {
                Ok(true) => exists|i: int|
                    0 <= i < self.keys@.len() && self.keys@[i].key@ == key@
                        && self.keys@[i].is_active,
                Ok(false) => !self.has_key(key@),
                Err(ImageError::InactiveKey) => exists|i: int|
                    0 <= i < self.keys@.len() && self.keys@[i].key@ == key@
                        && !self.keys@[i].is_active,
                Err(_) => false,
            },
    {
        match self.find_key_by_token(key) {
            Some(i) => {
                if self.keys[i].is_active {
                    Ok(true)
                } else {
                    Err(ImageError::InactiveKey)
                }
            },
            None => Ok(false),
        }
    }

    /// The key record with this token, or `NotFound`.
    pub fn get_api_key(&self, key: &str) -> (r: Result<ApiKey, ImageError>)
        ensures
            match r {
                Ok(k) => exists|i: int|
                    0 <= i < self.keys@.len() && #[trigger] self.keys@[i].key@ == key@ && k
                        == self.keys@[i],
                Err(ImageError::NotFound) => !self.has_key(key@),
                Err(_) => false,
            },
    {
        match self.find_key_by_token(key) {
            Some(i) => {
                let k = self.keys[i].clone();
                proof {
                    assert(self.keys@[i as int].key@ == key@);
                }
                Ok(k)
            },
            None => Err(ImageError::NotFound),
        }
    }

    /// Set the last-used time of this token's record, if it exists; a
    /// missing record is a silent no-op, since this update is
    /// best-effort for callers.
    pub fn update_key_last_used(&mut self, key: &str, now: u64)
        requires
            old(self).wf(),
        ensures
            final(self).wf(),
            final(self).images@ == old(self).images@,
            final(self).tags@ == old(self).tags@,
            final(self).assocs@ == old(self).assocs@,
            final(self).keys@.len() == old(self).keys@.len(),
            forall|i: int|
                0 <= i < old(self).keys@.len() ==> final(self).keys@[i] == (
                if old(self).keys@[i].key@ == key@ {
                    key_touched(old(self).keys@[i], now)
                } else {
                    old(self).keys@[i]
                }),
    {
        let n = self.keys.len();
        let mut out: Vec<ApiKey> = Vec::new();
        let mut i: usize = 0;
        while i < n
            invariant
                n == self.keys@.len(),
                *self == *old(self),
                i <= n,
                out@.len() == i,
                forall|k: int|
                    0 <= k < i ==> out@[k] == (if self.keys@[k].key@ == key@ {
                        key_touched(self.keys@[k], now)
                    } else {
                        self.keys@[k]
                    }),
            decreases n - i,
        {
            let mut rec = self.keys[i].clone();
            if crate::text::eq_str(rec.key.as_str(), key) {
                rec.last_used_at = Some(now);
            }
            out.push(rec);
            i += 1;
        }
        self.keys = out;
        proof {
            assert forall|a: int, b: int|
                0 <= a < b < self.keys@.len() implies #[trigger] self.keys@[a].key@
                != #[trigger] self.keys@[b].key@ && self.keys@[a].username@
                != self.keys@[b].username@ by {
                assert(old(self).keys@[a].key@ != old(self).keys@[b].key@);
                assert(old(self).keys@[a].username@ != old(self).keys@[b].username@);
            }
            lemma_wf_after_keys_change(*old(self), *self);
        }
    }

    /// Set the rate-limit override of the active key owned by this
    /// username; `NotFound` exactly when no active key has it.
    pub fn update_api_key_rate_limit(&mut self, username: &str, requests_per_second: Option<u32>)
        -> (r: Result<(), ImageError>)
        requires
            old(self).wf(),
        ensures
            final(self).wf(),
            final(self).images@ == old(self).images@,
            final(self).tags@ == old(self).tags@,
            final(self).assocs@ == old(self).assocs@,
            match r {
                Ok(()) => final(self).keys@.len() == old(self).keys@.len() && (exists|i: int|
                    0 <= i < old(self).keys@.len() && #[trigger] old(self).keys@[i].username@
                        == username@ && old(self).keys@[i].is_active) && forall|i: int|
                    0 <= i < old(self).keys@.len() ==> final(self).keys@[i] == (
                    if old(self).keys@[i].username@ == username@ && old(self).keys@[i].is_active {
                        key_with_rate(old(self).keys@[i], requests_per_second)
                    } else {
                        old(self).keys@[i]
                    }),
                Err(ImageError::NotFound) => *final(self) == *old(self) && !(exists|i: int|
                    0 <= i < old(self).keys@.len() && #[trigger] old(self).keys@[i].username@
                        == username@ && old(self).keys@[i].is_active),
                Err(_) => false,
            },
    {
        let found = match self.find_key_by_username(username) {
            Some(i) => self.keys[i].is_active,
            None => false,
        };
        if !found {
            proof {
                assert forall|i: int|
                    0 <= i < self.keys@.len() && #[trigger] self.keys@[i].username@
                        == username@ implies !self.keys@[i].is_active by {
                    let w = choose|w: int|
                        0 <= w < self.keys@.len() && self.keys@[w].username@ == username@
                            && !self.keys@[w].is_active;
                }
            }
            return Err(ImageError::NotFound);
        }
        let n = self.keys.len();
        let mut out: Vec<ApiKey> = Vec::new();
        let mut i: usize = 0;
        while i < n
            invariant
                n == self.keys@.len(),
                *self == *old(self),
                i <= n,
                out@.len() == i,
                forall|k: int|
                    0 <= k < i ==> out@[k] == (if self.keys@[k].username@ == username@
                        && self.keys@[k].is_active {
                        key_with_rate(self.keys@[k], requests_per_second)
                    } else {
                        self.keys@[k]
                    }),
            decreases n - i,
        {
            let mut rec = self.keys[i].clone();
            if crate::text::eq_str(rec.username.as_str(), username) && rec.is_active {
                rec.requests_per_second = requests_per_second;
            }
            out.push(rec);
            i += 1;
        }
        self.keys = out;
        proof {
            assert forall|a: int, b: int|
                0 <= a < b < self.keys@.len() implies #[trigger] self.keys@[a].key@
                != #[trigger] self.keys@[b].key@ && self.keys@[a].username@
                != self.keys@[b].username@ by {
                assert(old(self).keys@[a].key@ != old(self).keys@[b].key@);
                assert(old(self).keys@[a].username@ != old(self).keys@[b].username@);
            }
            lemma_wf_after_keys_change(*old(self), *self);
        }
        Ok(())
    }

    /// Activate or deactivate the key owned by this username;
    /// `NotFound` exactly when the username is unknown.
    pub fn update_api_key_status(&mut self, username: &str, is_active: bool) -> (r: Result<
        (),
        ImageError,
    >)
        requires
            old(self).wf(),
        ensures
            final(self).wf(),
            final(self).images@ == old(self).images@,
            final(self).tags@ == old(self).tags@,
            final(self).assocs@ == old(self).assocs@,
            match r {
                Ok(()) => old(self).has_username(username@) && final(self).keys@.len() == old(
                    self,
                ).keys@.len() && forall|i: int|
                    0 <= i < old(self).keys@.len() ==> final(self).keys@[i] == (
                    if old(self).keys@[i].username@ == username@ {
                        key_with_status(old(self).keys@[i], is_active)
                    } else {
                        old(self).keys@[i]
                    }),
                Err(ImageError::NotFound) => !old(self).has_username(username@) && *final(self)
                    == *old(self),
                Err(_) => false,
            },
    {
        if self.find_key_by_username(username).is_none() {
            return Err(ImageError::NotFound);
        }
        let n = self.keys.len();
        let mut out: Vec<ApiKey> = Vec::new();
        let mut i: usize = 0;
        while i < n
            invariant
                n == self.keys@.len(),
                *self == *old(self),
                i <= n,
                out@.len() == i,
                forall|k: int|
                    0 <= k < i ==> out@[k] == (if self.keys@[k].username@ == username@ {
                        key_with_status(self.keys@[k], is_active)
                    } else {
                        self.keys@[k]
                    }),
            decreases n - i,
        {
            let mut rec = self.keys[i].clone();
            if crate::text::eq_str(rec.username.as_str(), username) {
                rec.is_active = is_active;
            }
            out.push(rec);
            i += 1;
        }
        self.keys = out;
        proof {
            assert forall|a: int, b: int|
                0 <= a < b < self.keys@.len() implies #[trigger] self.keys@[a].key@
                != #[trigger] self.keys@[b].key@ && self.keys@[a].username@
                != self.keys@[b].username@ by {
                assert(old(self).keys@[a].key@ != old(self).keys@[b].key@);
                assert(old(self).keys@[a].username@ != old(self).keys@[b].username@);
            }
            lemma_wf_after_keys_change(*old(self), *self);
        }
        Ok(())
    }
}

/// The relation that [`Catalog::insert_image`] establishes between the
/// catalog before, the catalog after, the record offered and the
/// result: exactly its contract, as one reusable predicate.
pub open spec fn insert_image_rel(
    pre: Catalog,
    post: Catalog,
    rec: ImageRecord,
    r: Result<(), ImageError>,
) -> bool {
    &&& post.tags == pre.tags
    &&& post.assocs == pre.assocs
    &&& post.keys == pre.keys
    &&& match r {
        Ok(()) => !pre.has_hash(rec.hash@) && !pre.has_filename(rec.filename@) && post.images@
            == pre.images@.push(rec),
        Err(ImageError::Duplicate) => pre.has_hash(rec.hash@) && post == pre,
        Err(ImageError::StorageFailure) => !pre.has_hash(rec.hash@) && pre.has_filename(
            rec.filename@,
        ) && post == pre,
        Err(_) => false,
    }
}

} // verus!
