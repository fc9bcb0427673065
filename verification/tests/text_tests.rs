use imagevault::config::Config;
use imagevault::digest::content_hash;
use imagevault::error::ImageError;
use imagevault::norm::normalize_tag;
use imagevault::text::{
    contains_str, ends_with_str, eq_fold, eq_str, parse_u32, parse_u64, split_commas,
    starts_with_str, trim_str, u64_to_string,
};

#[test]
fn contains_finds_substrings() {
    assert!(contains_str("metadata.google.internal", "google"));
    assert!(contains_str("abc", ""));
    assert!(!contains_str("abc", "abcd"));
    assert!(contains_str("10.0.0.5", "10."));
    assert!(!contains_str("example.com", "10."));
}

#[test]
fn prefix_suffix_equality() {
    assert!(starts_with_str("Bearer abc", "Bearer "));
    assert!(!starts_with_str("bearer abc", "Bearer "));
    assert!(ends_with_str("photo.png", ".png"));
    assert!(!ends_with_str("photo.png", ".jpg"));
    assert!(eq_str("same", "same"));
    assert!(!eq_str("same", "Same"));
    assert!(eq_fold("IMAGE/PNG", "image/png"));
    assert!(!eq_fold("image/png", "image/jpeg"));
}

#[test]
fn trim_and_split() {
    assert_eq!(trim_str("  cat  "), "cat");
    assert_eq!(trim_str("\t dog\r\n"), "dog");
    assert_eq!(trim_str("   "), "");
    let parts = split_commas("a, b ,c");
    assert_eq!(parts, vec!["a".to_string(), " b ".to_string(), "c".to_string()]);
    let parts = split_commas("");
    assert_eq!(parts, vec!["".to_string()]);
    let parts = split_commas("one");
    assert_eq!(parts, vec!["one".to_string()]);
}

#[test]
fn decimal_parsing() {
    assert_eq!(parse_u64("0"), Some(0));
    assert_eq!(parse_u64("1234567890"), Some(1234567890));
    assert_eq!(parse_u64("18446744073709551615"), Some(u64::MAX));
    assert_eq!(parse_u64("18446744073709551616"), None);
    assert_eq!(parse_u64(""), None);
    assert_eq!(parse_u64("12a"), None);
    assert_eq!(parse_u64("-1"), None);
    assert_eq!(parse_u32("4294967295"), Some(u32::MAX));
    assert_eq!(parse_u32("4294967296"), None);
}

#[test]
fn decimal_printing() {
    assert_eq!(u64_to_string(0), "0");
    assert_eq!(u64_to_string(8000), "8000");
    assert_eq!(u64_to_string(18446744073709551615), "18446744073709551615");
}

#[test]
fn tag_normalization() {
    assert_eq!(normalize_tag("Cat Person"), "cat_person");
    assert_eq!(normalize_tag("cute"), "cute");
    assert_eq!(normalize_tag("A B C"), "a_b_c");
}

#[test]
fn content_hash_known_digests() {
    // SHA-256 of the empty input and of "abc", in hex.
    let empty: Vec<u8> = Vec::new();
    assert_eq!(
        content_hash(&empty),
        "e3b0c44298fc1c149afbf4c8996fb92427ae41e4649b934ca495991b7852b855"
    );
    let abc: Vec<u8> = b"abc".to_vec();
    assert_eq!(
        content_hash(&abc),
        "ba7816bf8f01cfea414140de5dae2223b00361a396177a9cb410ff61f20015ad"
    );
}

#[test]
fn config_base_url_and_ttl() {
    let c = Config::new(
        "127.0.0.1".to_string(),
        8000,
        "/images".to_string(),
        None,
        2,
        1,
        100,
        300,
        "SECRET-REDACTED".to_string(),
    )
    .unwrap();
    assert_eq!(c.get_base_url(), "http://127.0.0.1:8000");
    assert_eq!(c.cache_ttl(), 300_000);
    let c2 = Config::new(
        "h".to_string(),
        1,
        "p".to_string(),
        Some("https://img.example.org".to_string()),
        2,
        1,
        100,
        300,
        "k".to_string(),
    )
    .unwrap();
    assert_eq!(c2.get_base_url(), "https://img.example.org");
}

#[test]
fn config_requires_admin_key() {
    let r = Config::new(
        "h".to_string(),
        1,
        "p".to_string(),
        None,
        2,
        1,
        100,
        300,
        "".to_string(),
    );
    assert!(matches!(r, Err(ImageError::Unauthorized)));
}

#[test]
fn error_status_codes() {
    assert_eq!(ImageError::NotFound.status_code(), 404);
    assert_eq!(ImageError::Duplicate.status_code(), 409);
    assert_eq!(ImageError::FileTooLarge.status_code(), 413);
    assert_eq!(ImageError::RateLimited.status_code(), 429);
    assert_eq!(ImageError::Unauthorized.status_code(), 401);
    assert_eq!(ImageError::InactiveKey.status_code(), 401);
    assert_eq!(ImageError::UsernameExists.status_code(), 409);
    assert_eq!(ImageError::StorageFailure.status_code(), 500);
    assert_eq!(ImageError::InvalidUrl.status_code(), 400);
    assert_eq!(ImageError::UnsupportedFormat.status_code(), 400);
    assert_eq!(ImageError::MissingTags.status_code(), 400);
    assert_eq!(ImageError::BatchSizeExceeded.status_code(), 400);
}
