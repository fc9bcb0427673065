//! The closed error taxonomy of the engine.
//!
//! Every failure a caller can observe maps to exactly one variant, so
//! callers never have to inspect error text to tell conditions apart.
use vstd::prelude::*;

verus! {

/// One error per externally distinguishable failure condition.
#[derive(Clone, Copy, Debug, PartialEq, Eq, Structural)]
pub enum ImageError {
    /// The SSRF guard rejected the URL, or it did not parse.
    InvalidUrl,
    /// Format sniffing or decoding failed, or a declared content type
    /// is outside the allow-list.
    UnsupportedFormat,
    /// The byte-size ceiling was exceeded, at the probe or mid-stream.
    FileTooLarge,
    /// Byte-identical content is already stored.
    Duplicate,
    /// No image, filename or username matches.
    NotFound,
    /// A rate limiter denied the request.
    RateLimited,
    /// The API key is known but deactivated.
    InactiveKey,
    /// The API key is unknown or the credential is malformed.
    Unauthorized,
    /// An API key for this username already exists.
    UsernameExists,
    /// An image was submitted without any tag.
    MissingTags,
    /// A batch request exceeded the caller's batch-size ceiling.
    BatchSizeExceeded,
    /// Catch-all for an underlying persistence failure.
    StorageFailure,
}

impl ImageError {
    /// The HTTP status code that the service reports for this error.
    pub fn status_code(&self) -> (code: u16)
        ensures
            code == self.spec_status_code(),
    {
        match self {
            ImageError::InvalidUrl => 400,
            ImageError::UnsupportedFormat => 400,
            ImageError::FileTooLarge => 413,
            ImageError::Duplicate => 409,
            ImageError::NotFound => 404,
            ImageError::RateLimited => 429,
            ImageError::InactiveKey => 401,
            ImageError::Unauthorized => 401,
            ImageError::UsernameExists => 409,
            ImageError::MissingTags => 400,
            ImageError::BatchSizeExceeded => 400,
            ImageError::StorageFailure => 500,
        }
    }

    /// The status code of each variant, as a specification.
    pub open spec fn spec_status_code(&self) -> u16 {
        match self {
            ImageError::InvalidUrl => 400,
            ImageError::UnsupportedFormat => 400,
            ImageError::FileTooLarge => 413,
            ImageError::Duplicate => 409,
            ImageError::NotFound => 404,
            ImageError::RateLimited => 429,
            ImageError::InactiveKey => 401,
            ImageError::Unauthorized => 401,
            ImageError::UsernameExists => 409,
            ImageError::MissingTags => 400,
            ImageError::BatchSizeExceeded => 400,
            ImageError::StorageFailure => 500,
        }
    }
}

} // verus!
