//! Filtered random selection and response building.
//!
//! A filter is translated into one selection over the whole catalog:
//! an image matches when it carries every requested tag and satisfies
//! every dimension and size constraint. The randomness is the
//! caller's: it supplies a pick value, and the engine selects the
//! matching image at `pick % count`, so a uniformly random pick gives
//! a uniformly random matching image.
use vstd::prelude::*;

use crate::catalog::{assoc_views, tags_of_hash, Catalog, ImageRecord};
use crate::error::ImageError;
use crate::models::{
    dim_matches, size_matches, BatchImageResponse, ImageFilters, ImageResponse, ImageResponseV,
};
use crate::text::{ends_with_seq, ends_with_str};

verus! {

/// Whether a stored image satisfies a filter specification: it
/// carries every requested tag — matched verbatim against the stored
/// names — and its width, height and size satisfy their constraints.
pub open spec fn spec_matches(c: Catalog, rec: ImageRecord, f: ImageFilters) -> bool {
    &&& match f.tags {
        Some(ts) => forall|k: int|
            0 <= k < ts@.len() ==> c.has_assoc(rec.hash@, #[trigger] ts@[k]@),
        None => true,
    }
    &&& dim_matches(rec.width, f.width)
    &&& dim_matches(rec.height, f.height)
    &&& size_matches(rec.size_bytes, f.size)
}

/// The indices of the matching images among the first `n`, in order.
pub open spec fn matching_upto(c: Catalog, f: ImageFilters, n: int) -> Seq<int>
    decreases n,
{
    if n <= 0 {
        Seq::empty()
    } else {
        let rest = matching_upto(c, f, n - 1);
        if spec_matches(c, c.images@[n - 1], f) {
            rest.push(n - 1)
        } else {
            rest
        }
    }
}

/// The indices of all matching images, in order.
pub open spec fn matching_indices(c: Catalog, f: ImageFilters) -> Seq<int> {
    matching_upto(c, f, c.images@.len() as int)
}

/// Every listed index is in range and its image matches; and every
/// matching image in range is listed.
pub proof fn lemma_matching_upto_props(c: Catalog, f: ImageFilters, n: int)
    requires
        n <= c.images@.len(),
    ensures
        forall|k: int|
            0 <= k < matching_upto(c, f, n).len() ==> 0 <= #[trigger] matching_upto(c, f, n)[k] < n
                && spec_matches(c, c.images@[matching_upto(c, f, n)[k]], f),
        forall|i: int|
            0 <= i < n && spec_matches(c, c.images@[i], f) ==> matching_upto(c, f, n).contains(i),
    decreases n,
{
    if n > 0 {
        lemma_matching_upto_props(c, f, n - 1);
        let rest = matching_upto(c, f, n - 1);
        let m = matching_upto(c, f, n);
        assert forall|i: int|
            0 <= i < n && spec_matches(c, c.images@[i], f) implies m.contains(i) by {
            if i < n - 1 {
                assert(rest.contains(i));
                let w = choose|w: int| 0 <= w < rest.len() && rest[w] == i;
                assert(m[w] == i);
            } else {
                assert(m[m.len() - 1] == i);
            }
        }
    }
}

/// The format label derived from a stored filename's extension.
pub open spec fn label_of_filename(f: Seq<char>) -> Seq<char> {
    if ends_with_seq(f, ".png"@) {
        "PNG"@
    } else if ends_with_seq(f, ".jpg"@) {
        "JPG"@
    } else if ends_with_seq(f, ".jpeg"@) {
        "JPEG"@
    } else if ends_with_seq(f, ".gif"@) {
        "GIF"@
    } else if ends_with_seq(f, ".webp"@) {
        "WEBP"@
    } else if ends_with_seq(f, ".bmp"@) {
        "BMP"@
    } else {
        "UNKNOWN"@
    }
}

/// Derive the format label from a filename.
pub fn format_label(filename: &str) -> (r: String)
    ensures
        r@ == label_of_filename(filename@),
{
    if ends_with_str(filename, ".png") {
        "PNG".to_owned()
    } else if ends_with_str(filename, ".jpg") {
        "JPG".to_owned()
    } else if ends_with_str(filename, ".jpeg") {
        "JPEG".to_owned()
    } else if ends_with_str(filename, ".gif") {
        "GIF".to_owned()
    } else if ends_with_str(filename, ".webp") {
        "WEBP".to_owned()
    } else if ends_with_str(filename, ".bmp") {
        "BMP".to_owned()
    } else {
        "UNKNOWN".to_owned()
    }
}

/// The fully materialized response for a stored image: its public URL
/// under the base URL, the format label from its filename, its fixed
/// attributes, and the tags it carries.
pub open spec fn response_of(c: Catalog, rec: ImageRecord, base: Seq<char>) -> ImageResponseV {
    ImageResponseV {
        url: base + "/"@ + rec.filename@,
        filename: rec.filename@,
        format: label_of_filename(rec.filename@),
        width: rec.width,
        height: rec.height,
        size_bytes: rec.size_bytes,
        hash: rec.hash@,
        tags: tags_of_hash(assoc_views(c), rec.hash@),
        created_at: rec.created_at,
        modified_at: rec.modified_at,
    }
}

/// The stored image record with this filename.
pub open spec fn record_of_filename(c: Catalog, f: Seq<char>) -> ImageRecord {
    let i = choose|i: int| 0 <= i < c.images@.len() && c.images@[i].filename@ == f;
    c.images@[i]
}

impl Catalog {
    /// Whether the image at this index satisfies the filter.
    fn index_matches(&self, i: usize, filters: &ImageFilters) -> (r: bool)
        requires
            i < self.images@.len(),
        ensures
            r == spec_matches(*self, self.images@[i as int], *filters),
    {
        if filters.tags.is_some() {
            let ts = filters.tags.as_ref().unwrap();
            proof {
                assert(filters.tags == Some(*ts));
            }
            let m = ts.len();
            let mut k: usize = 0;
            while k < m
                invariant
                    m == ts@.len(),
                    k <= m,
                    i < self.images@.len(),
                    filters.tags == Some(*ts),
                    forall|j: int|
                        0 <= j < k ==> self.has_assoc(
                            self.images@[i as int].hash@,
                            #[trigger] ts@[j]@,
                        ),
                decreases m - k,
            {
                if self.find_assoc(self.images[i].hash.as_str(), ts[k].as_str()).is_none() {
                    proof {
                        assert(!self.has_assoc(self.images@[i as int].hash@, ts@[k as int]@));
                        assert(filters.tags->Some_0 == *ts);
                        assert(filters.tags->Some_0@[k as int]@ == ts@[k as int]@);
                        assert(!self.has_assoc(
                            self.images@[i as int].hash@,
                            filters.tags->Some_0@[k as int]@,
                        ));
                        assert(!spec_matches(*self, self.images@[i as int], *filters));
                    }
                    return false;
                }
                k += 1;
            }
        }
        let rec = &self.images[i];
        match &filters.width {
            Some(crate::models::DimensionFilter::Exact(e)) => {
                if rec.width != *e {
                    return false;
                }
            },
            Some(crate::models::DimensionFilter::Range(lo, hi)) => {
                if rec.width < *lo || rec.width > *hi {
                    return false;
                }
            },
            None => {},
        }
        match &filters.height {
            Some(crate::models::DimensionFilter::Exact(e)) => {
                if rec.height != *e {
                    return false;
                }
            },
            Some(crate::models::DimensionFilter::Range(lo, hi)) => {
                if rec.height < *lo || rec.height > *hi {
                    return false;
                }
            },
            None => {},
        }
        match &filters.size {
            Some(crate::models::SizeFilter::Exact(e)) => {
                if rec.size_bytes != *e {
                    return false;
                }
            },
            Some(crate::models::SizeFilter::Range(lo, hi)) => {
                if rec.size_bytes < *lo || rec.size_bytes > *hi {
                    return false;
                }
            },
            None => {},
        }
        true
    }

    /// Select one matching image: the one at `pick % count` among the
    /// matching images in catalog order. `NotFound` exactly when no
    /// image matches.
    pub fn select_random(&self, filters: &ImageFilters, pick: u64) -> (r: Result<
        ImageRecord,
        ImageError,
    >)
        ensures
            match r {
                Ok(rec) => {
                    let m = matching_indices(*self, *filters);
                    m.len() > 0 && rec == self.images@[m[(pick as int) % (m.len() as int)]]
                        && spec_matches(*self, rec, *filters)
                },
                Err(ImageError::NotFound) => matching_indices(*self, *filters).len() == 0,
                Err(_) => false,
            },
    {
        let n = self.images.len();
        let mut idxs: Vec<usize> = Vec::new();
        let mut i: usize = 0;
        proof {
            assert(idxs@.map_values(|x: usize| x as int) =~= matching_upto(*self, *filters, 0));
        }
        while i < n
            invariant
                n == self.images@.len(),
                i <= n,
                idxs@.map_values(|x: usize| x as int) == matching_upto(*self, *filters, i as int),
            decreases n - i,
        {
            let ghost kv = idxs@.map_values(|x: usize| x as int);
            if self.index_matches(i, filters) {
                idxs.push(i);
                proof {
                    assert(idxs@.map_values(|x: usize| x as int) =~= kv.push(i as int));
                }
            }
            i += 1;
        }
        let count = idxs.len();
        if count == 0 {
            return Err(ImageError::NotFound);
        }
        let sel = (pick % (count as u64)) as usize;
        proof {
            lemma_matching_upto_props(*self, *filters, n as int);
            let m = matching_indices(*self, *filters);
            assert(m.len() == count);
            assert(m[sel as int] == idxs@.map_values(|x: usize| x as int)[sel as int]);
            assert(0 <= m[sel as int] < n);
            assert(sel as int == (pick as int) % (m.len() as int)) by {
                assert(pick % (count as u64) == ((pick as int) % (count as int)) as u64) by (
                nonlinear_arith)
                    requires
                        count > 0,
                ;
            }
        }
        let rec = self.images[idxs[sel]].clone();
        Ok(rec)
    }

    /// Build the full response for one stored image.
    pub fn build_image_response(&self, rec: &ImageRecord, base_url: &str) -> (r: ImageResponse)
        ensures
            r@ == response_of(*self, *rec, base_url@),
    {
        let mut url = base_url.to_owned();
        url.append("/");
        url.append(rec.filename.as_str());
        let tags = self.get_image_tags(rec.hash.as_str());
        let format = format_label(rec.filename.as_str());
        let resp = ImageResponse {
            url,
            filename: rec.filename.clone(),
            format,
            width: rec.width,
            height: rec.height,
            size_bytes: rec.size_bytes,
            hash: rec.hash.clone(),
            tags,
            created_at: rec.created_at,
            modified_at: rec.modified_at,
        };
        resp
    }

    /// The response for the image with this filename; `NotFound`
    /// exactly when no stored image has it.
    pub fn get_image_by_filename(&self, filename: &str, base_url: &str) -> (r: Result<
        ImageResponse,
        ImageError,
    >)
        requires
            self.wf(),
        ensures
            match r {
                Ok(resp) => self.has_filename(filename@) && resp@ == response_of(
                    *self,
                    record_of_filename(*self, filename@),
                    base_url@,
                ),
                Err(ImageError::NotFound) => !self.has_filename(filename@),
                Err(_) => false,
            },
    {
        match self.find_by_filename(filename) {
            Some(i) => {
                proof {
                    let c = choose|c: int|
                        0 <= c < self.images@.len() && self.images@[c].filename@ == filename@;
                    if c != i as int {
                        assert(self.images@[c].filename@ != self.images@[i as int].filename@);
                    }
                }
                let rec = self.images[i].clone();
                Ok(self.build_image_response(&rec, base_url))
            },
            None => Err(ImageError::NotFound),
        }
    }

    /// Select one matching image and build its response. `NotFound`
    /// exactly when no image matches the filter.
    pub fn get_random_image_with_filters(
        &self,
        filters: &ImageFilters,
        pick: u64,
        base_url: &str,
    ) -> (r: Result<ImageResponse, ImageError>)
        ensures
            match r {
                Ok(resp) => {
                    let m = matching_indices(*self, *filters);
                    m.len() > 0 && resp@ == response_of(
                        *self,
                        self.images@[m[(pick as int) % (m.len() as int)]],
                        base_url@,
                    ) && spec_matches(
                        *self,
                        self.images@[m[(pick as int) % (m.len() as int)]],
                        *filters,
                    )
                },
                Err(ImageError::NotFound) => matching_indices(*self, *filters).len() == 0,
                Err(_) => false,
            },
    {
        match self.select_random(filters, pick) {
            Ok(rec) => Ok(self.build_image_response(&rec, base_url)),
            Err(e) => Err(e),
        }
    }
}

/// The batch ceiling a key's record grants: an absent value disables
/// batching, leaving an effective ceiling of one.
pub open spec fn effective_max_batch(mbs: Option<u32>) -> u32 {
    match mbs {
        Some(m) => m,
        None => 1,
    }
}

impl Catalog {
    /// Perform `count` random selections under one filter, using one
    /// supplied pick per selection. A count over the caller's batch
    /// ceiling fails wholesale as `BatchSizeExceeded`; per-selection
    /// failures are isolated into the error list and never fail the
    /// batch.
    pub fn batch_random(
        &self,
        filters: &ImageFilters,
        count: u32,
        max_batch_size: Option<u32>,
        picks: &Vec<u64>,
        base_url: &str,
    ) -> (r: Result<BatchImageResponse, ImageError>)
        requires
            picks@.len() == count,
        ensures
            match r {
                Ok(b) => {
                    let m = matching_indices(*self, *filters);
                    &&& count <= effective_max_batch(max_batch_size)
                    &&& b.total == count
                    &&& b.successful == b.images@.len()
                    &&& b.failed == b.errors@.len()
                    &&& b.successful + b.failed == count
                    &&& if m.len() == 0 {
                        b.images@.len() == 0 && b.errors@.len() == count && (forall|i: int|
                            0 <= i < count ==> b.errors@[i] == ImageError::NotFound)
                    } else {
                        b.errors@.len() == 0 && b.images@.len() == count && (forall|i: int|
                            0 <= i < count ==> b.images@[i]@ == response_of(
                                *self,
                                self.images@[m[(picks@[i] as int) % (m.len() as int)]],
                                base_url@,
                            ))
                    }
                },
                Err(ImageError::BatchSizeExceeded) => count > effective_max_batch(max_batch_size),
                Err(_) => false,
            },
    {
        let max_batch: u32 = match max_batch_size {
            Some(m) => m,
            None => 1,
        };
        if count > max_batch {
            return Err(ImageError::BatchSizeExceeded);
        }
        let mut images: Vec<ImageResponse> = Vec::new();
        let mut errors: Vec<ImageError> = Vec::new();
        let mut i: usize = 0;
        while i < count as usize
            invariant
                picks@.len() == count,
                i <= count,
                ({
                    let m = matching_indices(*self, *filters);
                    if m.len() == 0 {
                        images@.len() == 0 && errors@.len() == i && (forall|k: int|
                            0 <= k < i ==> errors@[k] == ImageError::NotFound)
                    } else {
                        errors@.len() == 0 && images@.len() == i && (forall|k: int|
                            0 <= k < i ==> images@[k]@ == response_of(
                                *self,
                                self.images@[m[(picks@[k] as int) % (m.len() as int)]],
                                base_url@,
                            ))
                    }
                }),
            decreases count - i,
        {
            match self.get_random_image_with_filters(filters, picks[i], base_url) {
                Ok(resp) => {
                    images.push(resp);
                },
                Err(e) => {
                    errors.push(e);
                },
            }
            i += 1;
        }
        let successful = images.len();
        let failed = errors.len();
        Ok(
            BatchImageResponse {
                images,
                total: count as usize,
                successful,
                failed,
                errors,
            },
        )
    }
}

/// A selected image carries every requested tag: whenever a selection
/// made with a tag list succeeds, the returned record has an
/// association for each listed name — never only some of them.
pub proof fn lemma_selected_carries_all_tags(
    c: Catalog,
    f: ImageFilters,
    pick: u64,
    rec: ImageRecord,
)
    requires
        matching_indices(c, f).len() > 0,
        rec == c.images@[matching_indices(c, f)[(pick as int) % (matching_indices(c, f).len() as int)]],
        f.tags is Some,
    ensures
        forall|k: int|
            0 <= k < f.tags->Some_0@.len() ==> c.has_assoc(rec.hash@, #[trigger] f.tags->Some_0@[k]@),
{
    lemma_matching_upto_props(c, f, c.images@.len() as int);
    let m = matching_indices(c, f);
    let s = (pick as int) % (m.len() as int);
    assert(0 <= s < m.len()) by (nonlinear_arith)
        requires
            m.len() > 0,
            s == (pick as int) % (m.len() as int),
            pick >= 0,
    ;
    assert(spec_matches(c, c.images@[m[s]], f));
}

} // verus!
