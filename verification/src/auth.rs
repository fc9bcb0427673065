//! Authentication and authorization decisions.
//!
//! A request carries an optional `Authorization` header. The admin key
//! is almighty and its use is not tracked. Any other bearer token is
//! rate-limited first, then its last-used time is recorded, then the
//! token is authorized: a known active key passes, a known inactive
//! key is refused as `InactiveKey` — a distinct condition — and an
//! unknown or malformed credential as `Unauthorized`.
use vstd::prelude::*;

use crate::catalog::{key_touched, Catalog};
use crate::error::ImageError;
use crate::limiter::{
    key_record, rate_allowed_spec, request_views, requests_after, ApiKeyRateLimiter,
};
use crate::models::ApiKey;
use crate::text::{starts_with_seq, starts_with_str, trim_spec, trim_str};

verus! {

/// The bearer token of an `Authorization` header: the part after the
/// `Bearer ` marker, trimmed of surrounding whitespace; nothing when
/// the marker is missing.
pub open spec fn bearer_token_spec(h: Seq<char>) -> Option<Seq<char>> {
    if starts_with_seq(h, "Bearer "@) {
        Some(trim_spec(h.skip(7)))
    } else {
        None
    }
}

/// Extract the bearer token from a header value.
fn token_of_header(header: &str) -> (r: Option<String>)
    ensures
        match r {
            Some(t) => bearer_token_spec(header@) == Some(t@),
            None => bearer_token_spec(header@) is None,
        },
{
    proof {
        reveal_strlit("Bearer ");
    }
    if starts_with_str(header, "Bearer ") {
        let n = header.unicode_len();
        let rest = header.substring_char(7, n);
        proof {
            assert(rest@ =~= header@.skip(7));
        }
        Some(trim_str(rest))
    } else {
        None
    }
}

/// What the admin check answers: only a bearer token equal to the admin
/// key passes.
pub open spec fn admin_verdict(admin: Seq<char>, header: Option<Seq<char>>) -> Result<
    (),
    ImageError,
> {
    match header {
        Some(h) => match bearer_token_spec(h) {
            Some(t) => if t == admin {
                Ok(())
            } else {
                Err(ImageError::Unauthorized)
            },
            None => Err(ImageError::Unauthorized),
        },
        None => Err(ImageError::Unauthorized),
    }
}

/// The authenticated check's verdict, over the states before the
/// check: a missing or malformed credential is `Unauthorized`; the
/// admin key passes; any other token is `RateLimited` when the window
/// is full, then authorized by its record: active passes, inactive is
/// `InactiveKey`, unknown is `Unauthorized`.
pub open spec fn auth_verdict(
    admin: Seq<char>,
    c: Catalog,
    l: ApiKeyRateLimiter,
    header: Option<Seq<char>>,
    now: u64,
) -> Result<(), ImageError> {
    match header {
        None => Err(ImageError::Unauthorized),
        Some(h) => match bearer_token_spec(h) {
            None => Err(ImageError::Unauthorized),
            Some(t) => if t == admin {
                Ok(())
            } else if !rate_allowed_spec(l, c, t, now) {
                Err(ImageError::RateLimited)
            } else if c.has_key(t) {
                if key_record(c, t).is_active {
                    Ok(())
                } else {
                    Err(ImageError::InactiveKey)
                }
            } else {
                Err(ImageError::Unauthorized)
            },
        },
    }
}

/// The key records after the last-used time of one token is set.
pub open spec fn keys_touched(ks: Seq<ApiKey>, key: Seq<char>, now: u64) -> Seq<ApiKey> {
    Seq::new(
        ks.len(),
        |i: int|
            if ks[i].key@ == key {
                key_touched(ks[i], now)
            } else {
                ks[i]
            },
    )
}

/// Whether the verdict lets the token through to the tracking stage:
/// a bearer token other than the admin key, with the window open.
pub open spec fn tracks_key(
    admin: Seq<char>,
    c: Catalog,
    l: ApiKeyRateLimiter,
    header: Option<Seq<char>>,
    now: u64,
) -> bool {
    match header {
        Some(h) => match bearer_token_spec(h) {
            Some(t) => t != admin && rate_allowed_spec(l, c, t, now),
            None => false,
        },
        None => false,
    }
}

/// Whether the limiter is consulted at all: a bearer token other than
/// the admin key.
pub open spec fn consults_limiter(admin: Seq<char>, header: Option<Seq<char>>) -> bool {
    match header {
        Some(h) => match bearer_token_spec(h) {
            Some(t) => t != admin,
            None => false,
        },
        None => false,
    }
}

/// The bearer token of an optional header, when there is one.
pub open spec fn token_of(header: Option<Seq<char>>) -> Seq<char> {
    bearer_token_spec(header->Some_0)->Some_0
}

/// The authentication engine: it holds the admin key and drives the
/// catalog and the per-key limiter.
#[derive(Debug)]
pub struct Auth {
    /// The process-wide admin key.
    pub admin_key: String,
}

impl Auth {
    /// A new engine with this admin key.
    pub fn new(admin_key: String) -> (r: Auth)
        ensures
            r.admin_key == admin_key,
    {
        Auth { admin_key }
    }

    /// Admit only the admin key. Reads nothing else and changes
    /// nothing.
    pub fn check_admin(&self, auth_header: Option<&String>) -> (r: Result<(), ImageError>)
        ensures
            r == admin_verdict(
                self.admin_key@,
                match auth_header {
                    Some(h) => Some(h@),
                    None => None,
                },
            ),
    {
        match auth_header {
            Some(h) => match token_of_header(h.as_str()) {
                Some(t) => {
                    if crate::text::eq_str(t.as_str(), self.admin_key.as_str()) {
                        Ok(())
                    } else {
                        Err(ImageError::Unauthorized)
                    }
                },
                None => Err(ImageError::Unauthorized),
            },
            None => Err(ImageError::Unauthorized),
        }
    }

    /// Authenticate and authorize one request. The admin key passes
    /// untracked; any other bearer token is rate-limited, its record's
    /// last-used time is set — best-effort, an unknown token records
    /// nothing — and then authorized against its record.
    pub fn check_api_key(
        &self,
        catalog: &mut Catalog,
        limiter: &mut ApiKeyRateLimiter,
        auth_header: Option<&String>,
        now: u64,
    ) -> (r: Result<(), ImageError>)
        requires
            old(catalog).wf(),
            old(limiter).wf(),
        ensures
            final(catalog).wf(),
            final(limiter).wf(),
            ({
                let h = match auth_header {
                    Some(v) => Some(v@),
                    None => None,
                };
                &&& r == auth_verdict(self.admin_key@, *old(catalog), *old(limiter), h, now)
                &&& if consults_limiter(self.admin_key@, h) {
                    &&& request_views(*final(limiter)) == requests_after(
                        *old(limiter),
                        *old(catalog),
                        token_of(h),
                        now,
                    )
                    &&& final(limiter).default_max_requests == old(limiter).default_max_requests
                    &&& final(limiter).window_ms == old(limiter).window_ms
                } else {
                    *final(limiter) == *old(limiter)
                }
                &&& final(catalog).images@ == old(catalog).images@
                &&& final(catalog).tags@ == old(catalog).tags@
                &&& final(catalog).assocs@ == old(catalog).assocs@
                &&& if tracks_key(self.admin_key@, *old(catalog), *old(limiter), h, now) {
                    final(catalog).keys@ == keys_touched(old(catalog).keys@, token_of(h), now)
                } else {
                    *final(catalog) == *old(catalog)
                }
            }),
    {
        let header = match auth_header {
            Some(h) => h,
            None => {
                return Err(ImageError::Unauthorized);
            },
        };
        let key = match token_of_header(header.as_str()) {
            Some(t) => t,
            None => {
                return Err(ImageError::Unauthorized);
            },
        };
        if crate::text::eq_str(key.as_str(), self.admin_key.as_str()) {
            return Ok(());
        }
        if !limiter.check_rate_limit(catalog, key.as_str(), now) {
            return Err(ImageError::RateLimited);
        }
        catalog.update_key_last_used(key.as_str(), now);
        proof {
            assert(catalog.keys@ =~= keys_touched(old(catalog).keys@, key@, now));
        }
        let verdict = match catalog.validate_api_key(key.as_str()) {
            Ok(true) => Ok(()),
            Ok(false) => Err(ImageError::Unauthorized),
            Err(_) => Err(ImageError::InactiveKey),
        };
        proof {
            lemma_touch_preserves_lookup(*old(catalog), *catalog, key@, now);
        }
        verdict
    }

    /// Authenticate as [`check_api_key`](Self::check_api_key) does,
    /// and hand back the caller's key record — a synthetic unlimited
    /// record for the admin key, otherwise the stored record with its
    /// last-used time just set.
    pub fn require_auth_info(
        &self,
        catalog: &mut Catalog,
        limiter: &mut ApiKeyRateLimiter,
        auth_header: Option<&String>,
        now: u64,
    ) -> (r: Result<ApiKey, ImageError>)
        requires
            old(catalog).wf(),
            old(limiter).wf(),
        ensures
            final(catalog).wf(),
            final(limiter).wf(),
            ({
                let h = match auth_header {
                    Some(v) => Some(v@),
                    None => None,
                };
                let verdict = auth_verdict(self.admin_key@, *old(catalog), *old(limiter), h, now);
                &&& match r {
                    Ok(k) => verdict is Ok && if token_of(h) == self.admin_key@ {
                        &&& k.key@ == self.admin_key@
                        &&& k.username@ == "admin"@
                        &&& k.created_at == now
                        &&& k.last_used_at is None
                        &&& k.is_active
                        &&& k.requests_per_second is None
                        &&& k.max_batch_size is None
                    } else {
                        k == key_touched(key_record(*old(catalog), token_of(h)), now)
                    },
                    Err(e) => verdict == Err::<(), ImageError>(e),
                }
                &&& if consults_limiter(self.admin_key@, h) {
                    &&& request_views(*final(limiter)) == requests_after(
                        *old(limiter),
                        *old(catalog),
                        token_of(h),
                        now,
                    )
                    &&& final(limiter).default_max_requests == old(limiter).default_max_requests
                    &&& final(limiter).window_ms == old(limiter).window_ms
                } else {
                    *final(limiter) == *old(limiter)
                }
                &&& final(catalog).images@ == old(catalog).images@
                &&& final(catalog).tags@ == old(catalog).tags@
                &&& final(catalog).assocs@ == old(catalog).assocs@
                &&& if tracks_key(self.admin_key@, *old(catalog), *old(limiter), h, now) {
                    final(catalog).keys@ == keys_touched(old(catalog).keys@, token_of(h), now)
                } else {
                    *final(catalog) == *old(catalog)
                }
            }),
    {
        let header = match auth_header {
            Some(h) => h,
            None => {
                return Err(ImageError::Unauthorized);
            },
        };
        let key = match token_of_header(header.as_str()) {
            Some(t) => t,
            None => {
                return Err(ImageError::Unauthorized);
            },
        };
        if crate::text::eq_str(key.as_str(), self.admin_key.as_str()) {
            let k = ApiKey {
                key,
                username: "admin".to_owned(),
                created_at: now,
                last_used_at: None,
                is_active: true,
                requests_per_second: None,
                max_batch_size: None,
            };
            return Ok(k);
        }
        if !limiter.check_rate_limit(catalog, key.as_str(), now) {
            return Err(ImageError::RateLimited);
        }
        catalog.update_key_last_used(key.as_str(), now);
        proof {
            assert(catalog.keys@ =~= keys_touched(old(catalog).keys@, key@, now));
        }
        let r = match catalog.get_api_key(key.as_str()) {
            Ok(k) => {
                if k.is_active {
                    Ok(k)
                } else {
                    Err(ImageError::InactiveKey)
                }
            },
            Err(_) => Err(ImageError::Unauthorized),
        };
        proof {
            lemma_touch_preserves_lookup(*old(catalog), *catalog, key@, now);
        }
        r
    }
}

/// Setting a record's last-used time changes neither which tokens are
/// known nor any record's identity or flags.
proof fn lemma_touch_preserves_lookup(pre: Catalog, post: Catalog, key: Seq<char>, now: u64)
    requires
        pre.wf(),
        post.keys@ == keys_touched(pre.keys@, key, now),
    ensures
        forall|t: Seq<char>| post.has_key(t) == pre.has_key(t),
        forall|i: int|
            0 <= i < pre.keys@.len() ==> #[trigger] post.keys@[i].key@ == pre.keys@[i].key@
                && post.keys@[i].is_active == pre.keys@[i].is_active
                && post.keys@[i].requests_per_second == pre.keys@[i].requests_per_second
                && post.keys@[i].max_batch_size == pre.keys@[i].max_batch_size
                && post.keys@[i].username@ == pre.keys@[i].username@ && post.keys@[i].created_at
                == pre.keys@[i].created_at,
{
    assert forall|t: Seq<char>| post.has_key(t) == pre.has_key(t) by {
        if pre.has_key(t) {
            let i = choose|i: int| 0 <= i < pre.keys@.len() && pre.keys@[i].key@ == t;
            assert(post.keys@[i].key@ == t);
        }
        if post.has_key(t) {
            let i = choose|i: int| 0 <= i < post.keys@.len() && post.keys@[i].key@ == t;
            assert(pre.keys@[i].key@ == t);
        }
    }
}

} // verus!
