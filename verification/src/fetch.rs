//! Admission decisions for the remote fetcher.
//!
//! The fetcher itself — the HEAD probe, the streamed GET, timeout and
//! redirect handling — performs I/O and lives outside the library. It
//! hands these functions plain values: the probe's status, declared
//! length and content type decide whether to download at all, and the
//! per-chunk step keeps the running byte count under the ceiling, so
//! an absent or wrong declared length cannot smuggle an oversized
//! body through.
use vstd::prelude::*;

use crate::error::ImageError;
use crate::text::{contains_seq, lower_chars, lower_char_exec};
use crate::MAX_FILE_SIZE;

verus! {

/// Whether a declared content type passes the probe: a missing header
/// is tolerated, and a present one must contain one of the allowed
/// types after ASCII case folding.
pub open spec fn probe_content_type_ok(ct: Option<Seq<char>>) -> bool {
    match ct {
        None => true,
        Some(c) => {
            ||| contains_seq(lower_chars(c), "image/jpeg"@)
            ||| contains_seq(lower_chars(c), "image/png"@)
            ||| contains_seq(lower_chars(c), "image/gif"@)
            ||| contains_seq(lower_chars(c), "image/webp"@)
            ||| contains_seq(lower_chars(c), "image/bmp"@)
            ||| contains_seq(lower_chars(c), "image/x-ms-bmp"@)
            ||| contains_seq(lower_chars(c), "binary/octet-stream"@)
        },
    }
}

/// What the probe decides: the status must be a success, a declared
/// length must not exceed the ceiling, and a declared content type
/// must be allowed.
pub open spec fn probe_verdict_spec(
    status: u16,
    content_length: Option<u64>,
    ct: Option<Seq<char>>,
) -> Result<(), ImageError> {
    if !(200 <= status && status < 300) {
        Err(ImageError::StorageFailure)
    } else if content_length matches Some(l) && l > MAX_FILE_SIZE {
        Err(ImageError::FileTooLarge)
    } else if !probe_content_type_ok(ct) {
        Err(ImageError::UnsupportedFormat)
    } else {
        Ok(())
    }
}

/// Case-folded substring search, for the content-type allow-list.
fn contains_fold(h: &str, n: &str) -> (r: bool)
    ensures
        r == contains_seq(lower_chars(h@), lower_chars(n@)),
{
    let hn = h.unicode_len();
    let nn = n.unicode_len();
    if nn > hn {
        assert(forall|i: int| !crate::text::occurs_at(lower_chars(h@), lower_chars(n@), i));
        return false;
    }
    if nn == 0 {
        proof {
            assert(lower_chars(h@).subrange(0, 0) =~= lower_chars(n@));
            assert(crate::text::occurs_at(lower_chars(h@), lower_chars(n@), 0));
        }
        return true;
    }
    let mut i: usize = 0;
    while i <= hn - nn
        invariant
            hn == h@.len(),
            nn == n@.len(),
            0 < nn <= hn,
            i <= hn - nn + 1,
            forall|k: int| 0 <= k < i ==> !crate::text::occurs_at(lower_chars(h@), lower_chars(n@), k),
        decreases hn - nn + 1 - i,
    {
        let mut j: usize = 0;
        let mut hit = true;
        while j < nn
            invariant
                hn == h@.len(),
                nn == n@.len(),
                i + nn <= hn,
                j <= nn,
                hit ==> forall|k: int|
                    0 <= k < j ==> lower_chars(h@)[i + k] == lower_chars(n@)[k],
                !hit ==> !crate::text::occurs_at(lower_chars(h@), lower_chars(n@), i as int),
            decreases nn - j,
        {
            if hit {
                let ca = lower_char_exec(h.get_char(i + j));
                let cb = lower_char_exec(n.get_char(j));
                if ca != cb {
                    proof {
                        assert(lower_chars(h@)[i + j] != lower_chars(n@)[j as int]);
                        assert(lower_chars(h@).subrange(i as int, i + nn) != lower_chars(n@)) by {
                            assert(lower_chars(h@).subrange(i as int, i + nn)[j as int]
                                != lower_chars(n@)[j as int]);
                        }
                    }
                    hit = false;
                }
            }
            j += 1;
        }
        if hit {
            proof {
                assert(lower_chars(h@).subrange(i as int, i + nn) =~= lower_chars(n@));
                assert(crate::text::occurs_at(lower_chars(h@), lower_chars(n@), i as int));
            }
            return true;
        }
        i += 1;
    }
    proof {
        assert forall|k: int| !crate::text::occurs_at(lower_chars(h@), lower_chars(n@), k) by {
            if crate::text::occurs_at(lower_chars(h@), lower_chars(n@), k) {
                assert(k < i);
            }
        }
    }
    false
}

/// Decide whether a HEAD probe allows the download to proceed.
pub fn probe_verdict(status: u16, content_length: Option<u64>, content_type: Option<&String>) -> (r:
    Result<(), ImageError>)
    ensures
        r == probe_verdict_spec(
            status,
            content_length,
            match content_type {
                Some(c) => Some(c@),
                None => None,
            },
        ),
{
    if !(200 <= status && status < 300) {
        return Err(ImageError::StorageFailure);
    }
    if let Some(l) = content_length {
        if l > MAX_FILE_SIZE {
            return Err(ImageError::FileTooLarge);
        }
    }
    if let Some(ct) = content_type {
        proof {
            reveal_strlit("image/jpeg");
            reveal_strlit("image/png");
            reveal_strlit("image/gif");
            reveal_strlit("image/webp");
            reveal_strlit("image/bmp");
            reveal_strlit("image/x-ms-bmp");
            reveal_strlit("binary/octet-stream");
            assert(lower_chars("image/jpeg"@) =~= "image/jpeg"@);
            assert(lower_chars("image/png"@) =~= "image/png"@);
            assert(lower_chars("image/gif"@) =~= "image/gif"@);
            assert(lower_chars("image/webp"@) =~= "image/webp"@);
            assert(lower_chars("image/bmp"@) =~= "image/bmp"@);
            assert(lower_chars("image/x-ms-bmp"@) =~= "image/x-ms-bmp"@);
            assert(lower_chars("binary/octet-stream"@) =~= "binary/octet-stream"@);
        }
        let ok = contains_fold(ct.as_str(), "image/jpeg") || contains_fold(ct.as_str(), "image/png")
            || contains_fold(ct.as_str(), "image/gif") || contains_fold(ct.as_str(), "image/webp")
            || contains_fold(ct.as_str(), "image/bmp") || contains_fold(
            ct.as_str(),
            "image/x-ms-bmp",
        ) || contains_fold(ct.as_str(), "binary/octet-stream");
        if !ok {
            return Err(ImageError::UnsupportedFormat);
        }
    }
    Ok(())
}

/// Account one received chunk against the running byte count; the
/// ceiling is checked per chunk, not only at the end, so the download
/// must be aborted the moment this returns `FileTooLarge`.
pub fn stream_step(downloaded: u64, chunk_len: u64) -> (r: Result<u64, ImageError>)
    ensures
        match r {
            Ok(n) => downloaded + chunk_len <= MAX_FILE_SIZE && n == downloaded + chunk_len,
            Err(ImageError::FileTooLarge) => downloaded + chunk_len > MAX_FILE_SIZE,
            Err(_) => false,
        },
{
    if chunk_len > MAX_FILE_SIZE || downloaded > MAX_FILE_SIZE - chunk_len {
        Err(ImageError::FileTooLarge)
    } else {
        Ok(downloaded + chunk_len)
    }
}

/// Hold a local file's size to the ceiling before reading it whole.
pub fn size_verdict(len: u64) -> (r: Result<(), ImageError>)
    ensures
        match r {
            Ok(()) => len <= MAX_FILE_SIZE,
            Err(ImageError::FileTooLarge) => len > MAX_FILE_SIZE,
            Err(_) => false,
        },
{
    if len > MAX_FILE_SIZE {
        Err(ImageError::FileTooLarge)
    } else {
        Ok(())
    }
}

} // verus!
