//! Request, response and filter records, and the translation of raw
//! query fragments into a filter specification.
//!
//! Timestamps are carried as milliseconds since the Unix epoch; the
//! unverified rim converts to and from calendar notation.
use vstd::prelude::*;

use crate::error::ImageError;
use crate::text::{
    parse_dec_spec, parse_u32, parse_u64, split_commas, split_commas_spec, trim_spec, trim_str,
};

verus! {

/// A fully materialized image response.
#[derive(Debug)]
pub struct ImageResponse {
    /// Public URL of the stored file.
    pub url: String,
    /// Stored filename, unique in the catalog.
    pub filename: String,
    /// Upper-cased container label derived from the filename extension.
    pub format: String,
    /// Pixel width, fixed at ingest time.
    pub width: u32,
    /// Pixel height, fixed at ingest time.
    pub height: u32,
    /// Byte size of the stored file.
    pub size_bytes: u64,
    /// Content hash: the image's identity and dedup key.
    pub hash: String,
    /// Normalized tag names carried by the image.
    pub tags: Vec<String>,
    /// Creation time, milliseconds since the Unix epoch.
    pub created_at: u64,
    /// Last modification time, milliseconds since the Unix epoch.
    pub modified_at: u64,
}

/// The mathematical content of an [`ImageResponse`].
pub ghost struct ImageResponseV {
    /// View of the public URL.
    pub url: Seq<char>,
    /// View of the stored filename.
    pub filename: Seq<char>,
    /// View of the format label.
    pub format: Seq<char>,
    /// Pixel width.
    pub width: u32,
    /// Pixel height.
    pub height: u32,
    /// Byte size.
    pub size_bytes: u64,
    /// View of the content hash.
    pub hash: Seq<char>,
    /// Views of the tag names.
    pub tags: Seq<Seq<char>>,
    /// Creation time in milliseconds.
    pub created_at: u64,
    /// Modification time in milliseconds.
    pub modified_at: u64,
}

impl View for ImageResponse {
    type V = ImageResponseV;

    open spec fn view(&self) -> ImageResponseV {
        ImageResponseV {
            url: self.url@,
            filename: self.filename@,
            format: self.format@,
            width: self.width,
            height: self.height,
            size_bytes: self.size_bytes,
            hash: self.hash@,
            tags: self.tags@.map_values(|t: String| t@),
            created_at: self.created_at,
            modified_at: self.modified_at,
        }
    }
}

impl Clone for ImageResponse {
    /// Cloning keeps the whole mathematical content.
    fn clone(&self) -> (r: Self)
        ensures
            r@ == self@,
    {
        let mut tags: Vec<String> = Vec::new();
        let mut i: usize = 0;
        while i < self.tags.len()
            invariant
                i <= self.tags@.len(),
                tags@.len() == i,
                forall|k: int| 0 <= k < i ==> tags@[k]@ == self.tags@[k]@,
            decreases self.tags@.len() - i,
        {
            tags.push(self.tags[i].clone());
            i += 1;
        }
        let r = ImageResponse {
            url: self.url.clone(),
            filename: self.filename.clone(),
            format: self.format.clone(),
            width: self.width,
            height: self.height,
            size_bytes: self.size_bytes,
            hash: self.hash.clone(),
            tags,
            created_at: self.created_at,
            modified_at: self.modified_at,
        };
        proof {
            assert(r@.tags =~= self@.tags);
        }
        r
    }
}

/// Where an ingest request points.
#[derive(Debug, Clone, Copy, PartialEq, Eq, Structural)]
pub enum PathType {
    /// A remote URL, to be fetched through the guard.
    Url,
    /// A path on the local filesystem.
    Local,
}

/// A single ingest request.
#[derive(Debug, Clone)]
pub struct AddImageRequest {
    /// Local path or remote URL, depending on `path_type`.
    pub path: String,
    /// Which kind of source `path` is.
    pub path_type: PathType,
    /// Tags to attach on success; must be nonempty.
    pub tags: Vec<String>,
}

/// Admin request to create an API key.
#[derive(Debug, Clone)]
pub struct GenerateApiKeyRequest {
    /// Owning username, unique among keys.
    pub username: String,
    /// Requests-per-second override; absent means unlimited.
    pub requests_per_second: Option<u32>,
    /// Batch-size ceiling; absent means batching disabled.
    pub max_batch_size: Option<u32>,
}

/// Admin request to remove an API key by username.
#[derive(Debug, Clone)]
pub struct RemoveApiKeyRequest {
    /// Username whose key is removed.
    pub username: String,
}

/// Admin request to change a key's rate-limit override.
#[derive(Debug, Clone)]
pub struct UpdateApiKeyRequest {
    /// New override; absent means unlimited.
    pub requests_per_second: Option<u32>,
}

/// Admin request to activate or deactivate a key.
#[derive(Debug, Clone)]
pub struct UpdateApiKeyStatusRequest {
    /// New active flag.
    pub is_active: bool,
}

/// A batch of ingest requests.
#[derive(Debug, Clone)]
pub struct BatchAddImageRequest {
    /// The individual requests; failures are isolated per item.
    pub images: Vec<AddImageRequest>,
}

/// A batch request for random images.
#[derive(Debug, Clone)]
pub struct BatchRandomRequest {
    /// How many selections to perform.
    pub count: u32,
    /// Requested tags; every returned image must carry all of them.
    pub tags: Vec<String>,
    /// Exact pixel width, winning over the bounds below.
    pub width: Option<u32>,
    /// Inclusive lower width bound; used only with `width_max`.
    pub width_min: Option<u32>,
    /// Inclusive upper width bound; used only with `width_min`.
    pub width_max: Option<u32>,
    /// Exact pixel height, winning over the bounds below.
    pub height: Option<u32>,
    /// Inclusive lower height bound; used only with `height_max`.
    pub height_min: Option<u32>,
    /// Inclusive upper height bound; used only with `height_min`.
    pub height_max: Option<u32>,
    /// Exact byte size, winning over the bounds below.
    pub size: Option<u64>,
    /// Inclusive lower size bound; used only with `size_max`.
    pub size_min: Option<u64>,
    /// Inclusive upper size bound; used only with `size_min`.
    pub size_max: Option<u64>,
}

/// The outcome of a batch of random selections.
#[derive(Debug, Clone)]
pub struct BatchImageResponse {
    /// The successfully selected images.
    pub images: Vec<ImageResponse>,
    /// Number of selections attempted.
    pub total: usize,
    /// Number of selections that produced an image.
    pub successful: usize,
    /// Number of selections that failed.
    pub failed: usize,
    /// One error per failed selection.
    pub errors: Vec<ImageError>,
}

/// An API key record.
#[derive(Debug)]
pub struct ApiKey {
    /// The opaque token itself, unique in the catalog.
    pub key: String,
    /// Owning username, unique in the catalog.
    pub username: String,
    /// Creation time, milliseconds since the Unix epoch.
    pub created_at: u64,
    /// Time of last successful authenticated use, if any.
    pub last_used_at: Option<u64>,
    /// Whether the key may authorize requests.
    pub is_active: bool,
    /// Requests-per-second ceiling; absent means unlimited.
    pub requests_per_second: Option<u32>,
    /// Batch-size ceiling; absent means batching disabled.
    pub max_batch_size: Option<u32>,
}

impl Clone for ApiKey {
    /// Cloning keeps the record's value.
    fn clone(&self) -> (r: Self)
        ensures
            r == *self,
    {
        ApiKey {
            key: self.key.clone(),
            username: self.username.clone(),
            created_at: self.created_at,
            last_used_at: self.last_used_at,
            is_active: self.is_active,
            requests_per_second: self.requests_per_second,
            max_batch_size: self.max_batch_size,
        }
    }
}

/// A constraint on one pixel dimension.
#[derive(Debug, Clone, Copy, PartialEq, Eq, Structural)]
pub enum DimensionFilter {
    /// The dimension must equal this value.
    Exact(u32),
    /// The dimension must lie in this inclusive range.
    Range(u32, u32),
}

/// A constraint on the byte size.
#[derive(Debug, Clone, Copy, PartialEq, Eq, Structural)]
pub enum SizeFilter {
    /// The size must equal this value.
    Exact(u64),
    /// The size must lie in this inclusive range.
    Range(u64, u64),
}

/// A filter specification for random selection.
#[derive(Debug, Clone)]
pub struct ImageFilters {
    /// Requested tags; `Some` demands every one of them, matched
    /// verbatim against the stored normalized names.
    pub tags: Option<Vec<String>>,
    /// Constraint on the pixel width.
    pub width: Option<DimensionFilter>,
    /// Constraint on the pixel height.
    pub height: Option<DimensionFilter>,
    /// Constraint on the byte size.
    pub size: Option<SizeFilter>,
}

/// Whether a pixel dimension satisfies a constraint.
pub open spec fn dim_matches(v: u32, f: Option<DimensionFilter>) -> bool {
    match f {
        None => true,
        Some(DimensionFilter::Exact(e)) => v == e,
        Some(DimensionFilter::Range(lo, hi)) => lo <= v && v <= hi,
    }
}

/// Whether a byte size satisfies a constraint.
pub open spec fn size_matches(v: u64, f: Option<SizeFilter>) -> bool {
    match f {
        None => true,
        Some(SizeFilter::Exact(e)) => v == e,
        Some(SizeFilter::Range(lo, hi)) => lo <= v && v <= hi,
    }
}

/// A decimal string parsed into a `u32`, if it is digits and fits.
pub open spec fn parse_u32_spec(s: Seq<char>) -> Option<u32> {
    match parse_dec_spec(s) {
        Some(v) => if v <= u32::MAX {
            Some(v as u32)
        } else {
            None
        },
        None => None,
    }
}

/// A decimal string parsed into a `u64`, if it is digits and fits.
pub open spec fn parse_u64_spec(s: Seq<char>) -> Option<u64> {
    match parse_dec_spec(s) {
        Some(v) => if v <= u64::MAX {
            Some(v as u64)
        } else {
            None
        },
        None => None,
    }
}

/// The dimension constraint built from raw query fragments. An exact
/// value, if present, decides alone; the bounds are consulted only
/// when no exact value was given, and only as a pair with `min <= max`.
pub open spec fn spec_dim_from_strs(
    exact: Option<Seq<char>>,
    min: Option<Seq<char>>,
    max: Option<Seq<char>>,
) -> Option<DimensionFilter> {
    match exact {
        Some(e) => match parse_u32_spec(e) {
            Some(v) => Some(DimensionFilter::Exact(v)),
            None => None,
        },
        None => match (min, max) {
            (Some(a), Some(b)) => match (parse_u32_spec(a), parse_u32_spec(b)) {
                (Some(lo), Some(hi)) => if lo <= hi {
                    Some(DimensionFilter::Range(lo, hi))
                } else {
                    None
                },
                _ => None,
            },
            _ => None,
        },
    }
}

/// The size constraint built from raw query fragments, by the same
/// precedence rule as [`spec_dim_from_strs`].
pub open spec fn spec_size_from_strs(
    exact: Option<Seq<char>>,
    min: Option<Seq<char>>,
    max: Option<Seq<char>>,
) -> Option<SizeFilter> {
    match exact {
        Some(e) => match parse_u64_spec(e) {
            Some(v) => Some(SizeFilter::Exact(v)),
            None => None,
        },
        None => match (min, max) {
            (Some(a), Some(b)) => match (parse_u64_spec(a), parse_u64_spec(b)) {
                (Some(lo), Some(hi)) => if lo <= hi {
                    Some(SizeFilter::Range(lo, hi))
                } else {
                    None
                },
                _ => None,
            },
            _ => None,
        },
    }
}

/// The dimension constraint built from already-parsed values, with the
/// same precedence: an exact value wins, bounds pair up otherwise.
pub open spec fn spec_dim_from_opts(
    exact: Option<u32>,
    min: Option<u32>,
    max: Option<u32>,
) -> Option<DimensionFilter> {
    match exact {
        Some(v) => Some(DimensionFilter::Exact(v)),
        None => match (min, max) {
            (Some(lo), Some(hi)) => if lo <= hi {
                Some(DimensionFilter::Range(lo, hi))
            } else {
                None
            },
            _ => None,
        },
    }
}

/// The size constraint built from already-parsed values.
pub open spec fn spec_size_from_opts(
    exact: Option<u64>,
    min: Option<u64>,
    max: Option<u64>,
) -> Option<SizeFilter> {
    match exact {
        Some(v) => Some(SizeFilter::Exact(v)),
        None => match (min, max) {
            (Some(lo), Some(hi)) => if lo <= hi {
                Some(SizeFilter::Range(lo, hi))
            } else {
                None
            },
            _ => None,
        },
    }
}

/// An exact dimension value takes precedence: whatever bounds also
/// arrive, the constraint built is the one the exact value alone
/// would have built, and it never depends on the bounds.
pub proof fn lemma_exact_wins_dimension(
    exact: Seq<char>,
    min: Option<Seq<char>>,
    max: Option<Seq<char>>,
)
    ensures
        spec_dim_from_strs(Some(exact), min, max) == spec_dim_from_strs(Some(exact), None, None),
{
}

/// An exact size value takes precedence, as in
/// [`lemma_exact_wins_dimension`].
pub proof fn lemma_exact_wins_size(exact: Seq<char>, min: Option<Seq<char>>, max: Option<Seq<char>>)
    ensures
        spec_size_from_strs(Some(exact), min, max) == spec_size_from_strs(Some(exact), None, None),
{
}

/// An exact dimension value takes precedence among already-parsed
/// values as well.
pub proof fn lemma_exact_wins_dimension_opts(exact: u32, min: Option<u32>, max: Option<u32>)
    ensures
        spec_dim_from_opts(Some(exact), min, max) == Some(DimensionFilter::Exact(exact)),
{
}

/// An exact size value takes precedence among already-parsed values
/// as well.
pub proof fn lemma_exact_wins_size_opts(exact: u64, min: Option<u64>, max: Option<u64>)
    ensures
        spec_size_from_opts(Some(exact), min, max) == Some(SizeFilter::Exact(exact)),
{
}

/// The views of a list of query pairs.
pub open spec fn params_view(params: Seq<(String, String)>) -> Seq<(Seq<char>, Seq<char>)> {
    params.map_values(|p: (String, String)| (p.0@, p.1@))
}

/// The value of the first pair whose key equals `key`, if any.
pub open spec fn query_get(params: Seq<(Seq<char>, Seq<char>)>, key: Seq<char>) -> Option<
    Seq<char>,
>
    decreases params.len(),
{
    if params.len() == 0 {
        None
    } else if params[0].0 == key {
        Some(params[0].1)
    } else {
        query_get(params.drop_first(), key)
    }
}

/// Look a key up among query pairs; the first match wins.
fn get_param(params: &Vec<(String, String)>, key: &str) -> (r: Option<String>)
    ensures
        match r {
            Some(v) => query_get(params_view(params@), key@) == Some(v@),
            None => query_get(params_view(params@), key@) is None,
        },
{
    let n = params.len();
    let mut i: usize = 0;
    proof {
        assert(params_view(params@).subrange(0, n as int) =~= params_view(params@));
    }
    while i < n
        invariant
            n == params@.len(),
            i <= n,
            query_get(params_view(params@).subrange(i as int, n as int), key@) == query_get(
                params_view(params@),
                key@,
            ),
        decreases n - i,
    {
        let ghost suffix = params_view(params@).subrange(i as int, n as int);
        if crate::text::eq_str(params[i].0.as_str(), key) {
            let r = params[i].1.clone();
            return Some(r);
        }
        i += 1;
        proof {
            assert(suffix.drop_first() =~= params_view(params@).subrange(i as int, n as int));
        }
    }
    None
}

/// The tag fragments of a raw comma-separated tag string: split on
/// commas, each fragment trimmed of ASCII whitespace.
pub open spec fn tags_of_query(raw: Seq<char>) -> Seq<Seq<char>> {
    split_commas_spec(raw).map_values(|t: Seq<char>| trim_spec(t))
}

impl ImageFilters {
    /// Build a filter specification from raw query pairs.
    ///
    /// The tag list is present exactly when a `tags` parameter is;
    /// each dimension is constrained per [`spec_dim_from_strs`], the
    /// size per [`spec_size_from_strs`].
    pub fn from_query(params: &Vec<(String, String)>) -> (r: ImageFilters)
        ensures
            match r.tags {
                Some(ts) => query_get(params_view(params@), "tags"@) matches Some(raw)
                    && ts@.map_values(|t: String| t@) == tags_of_query(raw),
                None => query_get(params_view(params@), "tags"@) is None,
            },
            r.width == spec_dim_from_strs(
                query_get(params_view(params@), "width"@),
                query_get(params_view(params@), "width_min"@),
                query_get(params_view(params@), "width_max"@),
            ),
            r.height == spec_dim_from_strs(
                query_get(params_view(params@), "height"@),
                query_get(params_view(params@), "height_min"@),
                query_get(params_view(params@), "height_max"@),
            ),
            r.size == spec_size_from_strs(
                query_get(params_view(params@), "size"@),
                query_get(params_view(params@), "size_min"@),
                query_get(params_view(params@), "size_max"@),
            ),
    {
        let tags = match get_param(params, "tags") {
            Some(raw) => {
                let pieces = split_commas(raw.as_str());
                let mut ts: Vec<String> = Vec::new();
                let mut i: usize = 0;
                while i < pieces.len()
                    invariant
                        i <= pieces@.len(),
                        ts@.len() == i,
                        forall|k: int| 0 <= k < i ==> ts@[k]@ == trim_spec(pieces@[k]@),
                    decreases pieces@.len() - i,
                {
                    let t = trim_str(pieces[i].as_str());
                    ts.push(t);
                    i += 1;
                }
                proof {
                    let pv = pieces@.map_values(|t: String| t@);
                    let tv = ts@.map_values(|t: String| t@);
                    assert forall|k: int| 0 <= k < tv.len() implies tv[k] == tags_of_query(raw@)[k]
                        by {
                        assert(ts@[k]@ == trim_spec(pieces@[k]@));
                        assert(pv[k] == pieces@[k]@);
                    }
                    assert(tv =~= tags_of_query(raw@));
                }
                Some(ts)
            },
            None => None,
        };
        let width = Self::parse_dimension(
            get_param(params, "width").as_ref(),
            get_param(params, "width_min").as_ref(),
            get_param(params, "width_max").as_ref(),
        );
        let height = Self::parse_dimension(
            get_param(params, "height").as_ref(),
            get_param(params, "height_min").as_ref(),
            get_param(params, "height_max").as_ref(),
        );
        let size = Self::parse_size(
            get_param(params, "size").as_ref(),
            get_param(params, "size_min").as_ref(),
            get_param(params, "size_max").as_ref(),
        );
        ImageFilters { tags, width, height, size }
    }

    /// Build one dimension constraint from raw fragments; exact wins.
    pub fn parse_dimension(
        exact: Option<&String>,
        min: Option<&String>,
        max: Option<&String>,
    ) -> (r: Option<DimensionFilter>)
        ensures
            r == spec_dim_from_strs(
                match exact {
                    Some(e) => Some(e@),
                    None => None,
                },
                match min {
                    Some(a) => Some(a@),
                    None => None,
                },
                match max {
                    Some(b) => Some(b@),
                    None => None,
                },
            ),
    {
        match exact {
            Some(e) => match parse_u32(e.as_str()) {
                Some(v) => Some(DimensionFilter::Exact(v)),
                None => None,
            },
            None => match (min, max) {
                (Some(a), Some(b)) => match (parse_u32(a.as_str()), parse_u32(b.as_str())) {
                    (Some(lo), Some(hi)) => if lo <= hi {
                        Some(DimensionFilter::Range(lo, hi))
                    } else {
                        None
                    },
                    _ => None,
                },
                _ => None,
            },
        }
    }

    /// Build the size constraint from raw fragments; exact wins.
    pub fn parse_size(exact: Option<&String>, min: Option<&String>, max: Option<&String>) -> (r:
        Option<SizeFilter>)
        ensures
            r == spec_size_from_strs(
                match exact {
                    Some(e) => Some(e@),
                    None => None,
                },
                match min {
                    Some(a) => Some(a@),
                    None => None,
                },
                match max {
                    Some(b) => Some(b@),
                    None => None,
                },
            ),
    {
        match exact {
            Some(e) => match parse_u64(e.as_str()) {
                Some(v) => Some(SizeFilter::Exact(v)),
                None => None,
            },
            None => match (min, max) {
                (Some(a), Some(b)) => match (parse_u64(a.as_str()), parse_u64(b.as_str())) {
                    (Some(lo), Some(hi)) => if lo <= hi {
                        Some(SizeFilter::Range(lo, hi))
                    } else {
                        None
                    },
                    _ => None,
                },
                _ => None,
            },
        }
    }
}

impl BatchRandomRequest {
    /// The filter specification this request denotes. The tag list is
    /// always present (possibly empty); each numeric constraint
    /// follows [`spec_dim_from_opts`] and [`spec_size_from_opts`].
    pub fn to_filters(&self) -> (r: ImageFilters)
        ensures
            r.tags matches Some(ts) && ts@.map_values(|t: String| t@) == self.tags@.map_values(
                |t: String| t@,
            ),
            r.width == spec_dim_from_opts(self.width, self.width_min, self.width_max),
            r.height == spec_dim_from_opts(self.height, self.height_min, self.height_max),
            r.size == spec_size_from_opts(self.size, self.size_min, self.size_max),
    {
        ImageFilters {
            tags: Some(self.tags.clone()),
            width: Self::parse_dimension(self.width, self.width_min, self.width_max),
            height: Self::parse_dimension(self.height, self.height_min, self.height_max),
            size: Self::parse_size(self.size, self.size_min, self.size_max),
        }
    }

    /// Build one dimension constraint from parsed values; exact wins.
    pub fn parse_dimension(exact: Option<u32>, min: Option<u32>, max: Option<u32>) -> (r: Option<
        DimensionFilter,
    >)
        ensures
            r == spec_dim_from_opts(exact, min, max),
    {
        match exact {
            Some(v) => Some(DimensionFilter::Exact(v)),
            None => match (min, max) {
                (Some(lo), Some(hi)) => if lo <= hi {
                    Some(DimensionFilter::Range(lo, hi))
                } else {
                    None
                },
                _ => None,
            },
        }
    }

    /// Build the size constraint from parsed values; exact wins.
    pub fn parse_size(exact: Option<u64>, min: Option<u64>, max: Option<u64>) -> (r: Option<
        SizeFilter,
    >)
        ensures
            r == spec_size_from_opts(exact, min, max),
    {
        match exact {
            Some(v) => Some(SizeFilter::Exact(v)),
            None => match (min, max) {
                (Some(lo), Some(hi)) => if lo <= hi {
                    Some(SizeFilter::Range(lo, hi))
                } else {
                    None
                },
                _ => None,
            },
        }
    }
}

} // verus!
