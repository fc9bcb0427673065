use imagevault::auth::Auth;
use imagevault::catalog::Catalog;
use imagevault::error::ImageError;
use imagevault::limiter::ApiKeyRateLimiter;

fn setup() -> (Auth, Catalog, ApiKeyRateLimiter) {
    let auth = Auth::new("SECRET-REDACTED".to_string());
    let mut catalog = Catalog::new();
    catalog.generate_api_key("goodkey".to_string(), "alice".to_string(), Some(1), Some(4), 0)
        .unwrap();
    catalog.generate_api_key("oldkey".to_string(), "bob".to_string(), None, None, 0).unwrap();
    catalog.update_api_key_status("bob", false).unwrap();
    let limiter = ApiKeyRateLimiter::new(10, 1000);
    (auth, catalog, limiter)
}

#[test]
fn missing_or_malformed_credentials_are_unauthorized() {
    let (auth, mut c, mut l) = setup();
    assert!(matches!(
        auth.check_api_key(&mut c, &mut l, None, 100),
        Err(ImageError::Unauthorized)
    ));
    let junk = "Basic abc".to_string();
    assert!(matches!(
        auth.check_api_key(&mut c, &mut l, Some(&junk), 100),
        Err(ImageError::Unauthorized)
    ));
    let unknown = "Bearer nosuch".to_string();
    assert!(matches!(
        auth.check_api_key(&mut c, &mut l, Some(&unknown), 100),
        Err(ImageError::Unauthorized)
    ));
}

#[test]
fn admin_key_passes_untracked() {
    let (auth, mut c, mut l) = setup();
    let header = "Bearer SECRET-REDACTED".to_string();
    assert!(auth.check_admin(Some(&header)).is_ok());
    assert!(auth.check_api_key(&mut c, &mut l, Some(&header), 100).is_ok());
    // No rate-limit entry was made for the admin key.
    assert_eq!(l.requests.len(), 0);
    let other = "Bearer goodkey".to_string();
    assert!(matches!(auth.check_admin(Some(&other)), Err(ImageError::Unauthorized)));
    assert!(matches!(auth.check_admin(None), Err(ImageError::Unauthorized)));
}

#[test]
fn known_active_key_passes_and_is_touched() {
    let (auth, mut c, mut l) = setup();
    let header = "Bearer goodkey".to_string();
    assert!(auth.check_api_key(&mut c, &mut l, Some(&header), 777).is_ok());
    assert_eq!(c.get_api_key("goodkey").unwrap().last_used_at, Some(777));
}

#[test]
fn deactivated_key_is_a_distinct_condition() {
    let (auth, mut c, mut l) = setup();
    let header = "Bearer oldkey".to_string();
    assert!(matches!(
        auth.check_api_key(&mut c, &mut l, Some(&header), 100),
        Err(ImageError::InactiveKey)
    ));
}

#[test]
fn over_limit_keys_are_rate_limited() {
    let (auth, mut c, mut l) = setup();
    // alice's ceiling is one request per window.
    let header = "Bearer goodkey".to_string();
    assert!(auth.check_api_key(&mut c, &mut l, Some(&header), 100).is_ok());
    assert!(matches!(
        auth.check_api_key(&mut c, &mut l, Some(&header), 150),
        Err(ImageError::RateLimited)
    ));
    assert!(auth.check_api_key(&mut c, &mut l, Some(&header), 1200).is_ok());
}

#[test]
fn auth_info_returns_the_touched_record() {
    let (auth, mut c, mut l) = setup();
    let header = "Bearer goodkey".to_string();
    let k = auth.require_auth_info(&mut c, &mut l, Some(&header), 555).unwrap();
    assert_eq!(k.username, "alice");
    assert_eq!(k.last_used_at, Some(555));
    assert_eq!(k.max_batch_size, Some(4));
}

#[test]
fn auth_info_for_admin_is_synthetic_and_unlimited() {
    let (auth, mut c, mut l) = setup();
    let header = "Bearer SECRET-REDACTED".to_string();
    let k = auth.require_auth_info(&mut c, &mut l, Some(&header), 42).unwrap();
    assert_eq!(k.username, "admin");
    assert!(k.is_active);
    assert_eq!(k.requests_per_second, None);
    assert_eq!(k.max_batch_size, None);
    assert_eq!(k.created_at, 42);
}

#[test]
fn bearer_tokens_are_trimmed() {
    let (auth, mut c, mut l) = setup();
    let header = "Bearer   goodkey  ".to_string();
    assert!(auth.check_api_key(&mut c, &mut l, Some(&header), 100).is_ok());
}
