//! The ingest pipeline: size ceiling, declared-type allow-list,
//! magic-byte sniffing, full decode, content hashing, deduplicating
//! insert, and tag attachment — in that order, so that each stage runs
//! only on input the cheaper stages have already bounded and typed.
//!
//! The insert is attempted, not preceded by an existence check: a
//! duplicate surfaces as `Duplicate` from the uniqueness constraint,
//! which stays race-free under concurrent identical uploads. The
//! caller owns the backing file: it stores the bytes only for a
//! successful ingest, and leaves none behind on any error.
use vstd::prelude::*;

use crate::catalog::{add_tags_spec, assoc_views, tag_views, Catalog, ImageRecord};
use crate::codec::{
    decode_dimensions, decoded_dims, ext_of_format, ext_of_format_spec, sniff_format, sniff_spec,
    ImageFormat,
};
use crate::digest::{content_hash, sha256_hex};
use crate::error::ImageError;
use crate::text::eq_str;
use crate::MAX_FILE_SIZE;

verus! {

/// The content types accepted when a type is declared for a direct
/// byte upload; matched exactly. Final acceptance still requires a
/// successful sniff and decode regardless of the declared type.
pub open spec fn upload_type_ok(ct: Seq<char>) -> bool {
    ||| ct == "image/jpeg"@
    ||| ct == "image/png"@
    ||| ct == "image/gif"@
    ||| ct == "image/webp"@
    ||| ct == "image/bmp"@
    ||| ct == "image/x-ms-bmp"@
}

/// The validation stages before anything is stored, in pipeline
/// order: at least one tag, the size ceiling, the declared type if
/// any, the sniff, the decode. The first failing stage names the
/// error.
pub open spec fn ingest_precheck(b: Seq<u8>, ct: Option<Seq<char>>, n_tags: nat) -> Result<
    ImageFormat,
    ImageError,
> {
    if n_tags == 0 {
        Err(ImageError::MissingTags)
    } else if b.len() > MAX_FILE_SIZE {
        Err(ImageError::FileTooLarge)
    } else if ct matches Some(c) && !upload_type_ok(c) {
        Err(ImageError::UnsupportedFormat)
    } else {
        match sniff_spec(b) {
            None => Err(ImageError::UnsupportedFormat),
            Some(fmt) => match decoded_dims(b) {
                None => Err(ImageError::UnsupportedFormat),
                Some(_) => Ok(fmt),
            },
        }
    }
}

/// The stored filename of an accepted payload: its content hash,
/// a dot, and the sniffed container's extension.
pub open spec fn ingest_filename(b: Seq<u8>, fmt: ImageFormat) -> Seq<char> {
    sha256_hex(b) + "."@ + ext_of_format_spec(fmt)
}

impl Catalog {
    /// Ingest an image payload: validate it, record it under its
    /// content hash, and attach the tags.
    ///
    /// On success the returned string is the content hash. Byte-
    /// identical content that is already stored is refused as
    /// `Duplicate` with the catalog unchanged; every validation
    /// failure also leaves the catalog unchanged.
    pub fn ingest_bytes(
        &mut self,
        bytes: &Vec<u8>,
        declared_content_type: Option<&String>,
        tags: &Vec<String>,
        now: u64,
    ) -> (r: Result<String, ImageError>)
        requires
            old(self).wf(),
        ensures
            final(self).wf(),
            final(self).keys@ == old(self).keys@,
            ({
                let ct = match declared_content_type {
                    Some(c) => Some(c@),
                    None => None,
                };
                match r {
                    Ok(h) => {
                        &&& ingest_precheck(bytes@, ct, tags@.len()) is Ok
                        &&& h@ == sha256_hex(bytes@)
                        &&& !old(self).has_hash(sha256_hex(bytes@))
                        &&& final(self).images@.len() == old(self).images@.len() + 1
                        &&& final(self).images@.subrange(0, old(self).images@.len() as int) == old(
                            self,
                        ).images@
                        &&& ({
                            let rec = final(self).images@.last();
                            &&& rec.hash@ == sha256_hex(bytes@)
                            &&& rec.filename@ == ingest_filename(
                                bytes@,
                                ingest_precheck(bytes@, ct, tags@.len())->Ok_0,
                            )
                            &&& rec.created_at == now
                            &&& rec.modified_at == now
                            &&& Some((rec.width, rec.height)) == decoded_dims(bytes@)
                            &&& rec.size_bytes == bytes@.len()
                        })
                        &&& (tag_views(*final(self)), assoc_views(*final(self))) == add_tags_spec(
                            tag_views(*old(self)),
                            assoc_views(*old(self)),
                            sha256_hex(bytes@),
                            tags@.map_values(|t: String| t@),
                        )
                    },
                    Err(ImageError::Duplicate) => ingest_precheck(bytes@, ct, tags@.len()) is Ok
                        && old(self).has_hash(sha256_hex(bytes@)) && *final(self) == *old(self),
                    Err(ImageError::StorageFailure) => ingest_precheck(bytes@, ct, tags@.len())
                        is Ok && !old(self).has_hash(sha256_hex(bytes@)) && old(self).has_filename(
                        ingest_filename(bytes@, ingest_precheck(bytes@, ct, tags@.len())->Ok_0),
                    ) && *final(self) == *old(self),
                    Err(e) => ingest_precheck(bytes@, ct, tags@.len()) == Err::<
                        ImageFormat,
                        ImageError,
                    >(e) && *final(self) == *old(self),
                }
            }),
    {
        if tags.len() == 0 {
            return Err(ImageError::MissingTags);
        }
        if bytes.len() as u64 > MAX_FILE_SIZE {
            return Err(ImageError::FileTooLarge);
        }
        if let Some(ct) = declared_content_type {
            let ok = eq_str(ct.as_str(), "image/jpeg") || eq_str(ct.as_str(), "image/png")
                || eq_str(ct.as_str(), "image/gif") || eq_str(ct.as_str(), "image/webp") || eq_str(
                ct.as_str(),
                "image/bmp",
            ) || eq_str(ct.as_str(), "image/x-ms-bmp");
            if !ok {
                return Err(ImageError::UnsupportedFormat);
            }
        }
        let fmt = match sniff_format(bytes) {
            None => {
                return Err(ImageError::UnsupportedFormat);
            },
            Some(f) => f,
        };
        let dims = match decode_dimensions(bytes) {
            None => {
                return Err(ImageError::UnsupportedFormat);
            },
            Some(d) => d,
        };
        let hash = content_hash(bytes);
        let mut filename = hash.clone();
        filename.append(".");
        filename.append(ext_of_format(fmt));
        proof {
            reveal_strlit(".");
        }
        let rec = ImageRecord {
            hash: hash.clone(),
            filename,
            created_at: now,
            modified_at: now,
            width: dims.0,
            height: dims.1,
            size_bytes: bytes.len() as u64,
        };
        let ghost grec = rec;
        let ghost ct = match declared_content_type {
            Some(c) => Some(c@),
            None => None::<Seq<char>>,
        };
        proof {
            assert(grec.hash@ == sha256_hex(bytes@));
            assert(grec.filename@ == ingest_filename(bytes@, fmt));
            assert(ingest_precheck(bytes@, ct, tags@.len()) == Ok::<ImageFormat, ImageError>(fmt));
        }
        match self.insert_image(rec) {
            Ok(()) => {},
            Err(e) => {
                return Err(e);
            },
        }
        proof {
            assert(self.images@.last() == grec);
            assert(self.has_hash(hash@));
        }
        match self.add_tags(hash.as_str(), tags) {
            Ok(()) => {},
            Err(_) => {
                proof {
                    assert(false);
                }
            },
        }
        Ok(hash)
    }
}

} // verus!
