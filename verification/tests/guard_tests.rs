use imagevault::error::ImageError;
use imagevault::guard::{check_url_parts, validate_url};

#[test]
fn rejects_metadata_endpoint() {
    assert!(matches!(
        validate_url("http://169.254.169.254/"),
        Err(ImageError::InvalidUrl)
    ));
}

#[test]
fn rejects_private_range() {
    assert!(matches!(validate_url("http://10.0.0.5/"), Err(ImageError::InvalidUrl)));
    assert!(matches!(
        validate_url("http://192.168.1.7/img.png"),
        Err(ImageError::InvalidUrl)
    ));
    assert!(matches!(
        validate_url("http://172.16.0.1/"),
        Err(ImageError::InvalidUrl)
    ));
}

#[test]
fn rejects_loopback() {
    assert!(matches!(
        validate_url("http://localhost:8000/"),
        Err(ImageError::InvalidUrl)
    ));
    assert!(matches!(
        validate_url("http://127.0.0.1/x.png"),
        Err(ImageError::InvalidUrl)
    ));
    assert!(matches!(
        validate_url("http://0.0.0.0/"),
        Err(ImageError::InvalidUrl)
    ));
}

#[test]
fn accepts_public_https() {
    let p = validate_url("https://example.com/image.png").unwrap();
    assert_eq!(p.scheme, "https");
    assert_eq!(p.host, "example.com");
    assert_eq!(p.port, None);
}

#[test]
fn rejects_other_schemes() {
    assert!(matches!(
        validate_url("ftp://example.com/image.png"),
        Err(ImageError::InvalidUrl)
    ));
    assert!(matches!(validate_url("not a url"), Err(ImageError::InvalidUrl)));
}

#[test]
fn rejects_service_ports() {
    assert!(matches!(
        validate_url("http://example.com:22/"),
        Err(ImageError::InvalidUrl)
    ));
    assert!(matches!(
        validate_url("http://example.com:5432/"),
        Err(ImageError::InvalidUrl)
    ));
    assert!(validate_url("http://example.com:8080/").is_ok());
}

#[test]
fn rejects_metadata_hostnames_case_insensitively() {
    assert!(!check_url_parts("https", "MetaData.Google.Internal", None));
    assert!(!check_url_parts("https", "metadata.azure.internal", None));
    assert!(!check_url_parts("https", "metadata.platformequinix.com", None));
    assert!(check_url_parts("https", "example.com", Some(443)));
    assert!(!check_url_parts("https", "example.com", Some(3306)));
    assert!(!check_url_parts("gopher", "example.com", None));
}
