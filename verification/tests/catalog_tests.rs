use imagevault::catalog::{Catalog, ImageRecord};
use imagevault::error::ImageError;

fn rec(hash: &str, filename: &str, w: u32, h: u32, size: u64) -> ImageRecord {
    ImageRecord {
        hash: hash.to_string(),
        filename: filename.to_string(),
        created_at: 1_000,
        modified_at: 1_000,
        width: w,
        height: h,
        size_bytes: size,
    }
}

#[test]
fn insert_deduplicates_on_hash() {
    let mut c = Catalog::new();
    assert!(c.insert_image(rec("h1", "a.png", 10, 10, 5)).is_ok());
    assert_eq!(c.images.len(), 1);
    let r = c.insert_image(rec("h1", "b.png", 20, 20, 9));
    assert!(matches!(r, Err(ImageError::Duplicate)));
    assert_eq!(c.images.len(), 1);
}

#[test]
fn insert_rejects_filename_collision() {
    let mut c = Catalog::new();
    assert!(c.insert_image(rec("h1", "a.png", 10, 10, 5)).is_ok());
    let r = c.insert_image(rec("h2", "a.png", 20, 20, 9));
    assert!(matches!(r, Err(ImageError::StorageFailure)));
    assert_eq!(c.images.len(), 1);
}

#[test]
fn add_tags_normalizes_and_deduplicates() {
    let mut c = Catalog::new();
    c.insert_image(rec("h1", "a.png", 10, 10, 5)).unwrap();
    c.add_tags("h1", &vec!["Cat Person".to_string(), "CUTE".to_string()]).unwrap();
    assert_eq!(c.get_image_tags("h1"), vec!["cat_person".to_string(), "cute".to_string()]);
    // Re-adding a normalized-equal tag is a no-op, not a duplicate.
    c.add_tags("h1", &vec!["cat person".to_string()]).unwrap();
    assert_eq!(c.get_image_tags("h1"), vec!["cat_person".to_string(), "cute".to_string()]);
    let all = c.get_all_tags();
    assert_eq!(all.len(), 2);
    assert_eq!(all[0], ("cat_person".to_string(), 1));
    assert_eq!(all[1], ("cute".to_string(), 1));
}

#[test]
fn add_tags_unknown_image_is_not_found() {
    let mut c = Catalog::new();
    let r = c.add_tags("missing", &vec!["cat".to_string()]);
    assert!(matches!(r, Err(ImageError::NotFound)));
}

#[test]
fn remove_tags_detaches_but_keeps_vocabulary() {
    let mut c = Catalog::new();
    c.insert_image(rec("h1", "a.png", 10, 10, 5)).unwrap();
    c.add_tags("h1", &vec!["cat".to_string(), "cute".to_string()]).unwrap();
    c.remove_tags("h1", &vec!["Cat".to_string()]);
    assert_eq!(c.get_image_tags("h1"), vec!["cute".to_string()]);
    let all = c.get_all_tags();
    assert_eq!(all.len(), 2);
    assert_eq!(all[0], ("cat".to_string(), 0));
    assert_eq!(all[1], ("cute".to_string(), 1));
}

#[test]
fn remove_image_prunes_orphaned_tags() {
    let mut c = Catalog::new();
    c.insert_image(rec("h1", "a.png", 10, 10, 5)).unwrap();
    c.insert_image(rec("h2", "b.png", 10, 10, 5)).unwrap();
    c.add_tags("h1", &vec!["cat".to_string(), "shared".to_string()]).unwrap();
    c.add_tags("h2", &vec!["shared".to_string()]).unwrap();
    c.remove_image("a.png").unwrap();
    assert_eq!(c.images.len(), 1);
    assert_eq!(c.get_image_tags("h1"), Vec::<String>::new());
    // "cat" lost its only image and is pruned; "shared" survives.
    let all = c.get_all_tags();
    assert_eq!(all, vec![("shared".to_string(), 1)]);
}

#[test]
fn remove_image_unknown_filename() {
    let mut c = Catalog::new();
    assert!(matches!(c.remove_image("nope.png"), Err(ImageError::NotFound)));
}

#[test]
fn api_key_lifecycle() {
    let mut c = Catalog::new();
    c.generate_api_key("k1".to_string(), "alice".to_string(), Some(5), Some(10), 111).unwrap();
    // Username collisions are a distinct condition.
    let r = c.generate_api_key("k2".to_string(), "alice".to_string(), None, None, 222);
    assert!(matches!(r, Err(ImageError::UsernameExists)));
    c.generate_api_key("k3".to_string(), "bob".to_string(), None, None, 333).unwrap();

    assert_eq!(c.validate_api_key("k1"), Ok(true));
    assert_eq!(c.validate_api_key("unknown"), Ok(false));

    c.update_api_key_status("bob", false).unwrap();
    assert!(matches!(c.validate_api_key("k3"), Err(ImageError::InactiveKey)));

    let k = c.get_api_key("k1").unwrap();
    assert_eq!(k.username, "alice");
    assert_eq!(k.requests_per_second, Some(5));
    assert_eq!(k.max_batch_size, Some(10));
    assert_eq!(k.created_at, 111);
    assert_eq!(k.last_used_at, None);

    c.update_key_last_used("k1", 999);
    assert_eq!(c.get_api_key("k1").unwrap().last_used_at, Some(999));

    c.update_api_key_rate_limit("alice", None).unwrap();
    assert_eq!(c.get_api_key("k1").unwrap().requests_per_second, None);
    // Only active keys take a rate-limit update.
    let r = c.update_api_key_rate_limit("bob", Some(9));
    assert!(matches!(r, Err(ImageError::NotFound)));

    assert_eq!(c.list_api_keys().len(), 2);
    assert!(c.remove_api_key("alice"));
    assert!(!c.remove_api_key("alice"));
    assert_eq!(c.list_api_keys().len(), 1);
}

#[test]
fn keys_are_listed_newest_first() {
    let mut c = Catalog::new();
    c.generate_api_key("k1".to_string(), "a".to_string(), None, None, 100).unwrap();
    c.generate_api_key("k2".to_string(), "b".to_string(), None, None, 300).unwrap();
    c.generate_api_key("k3".to_string(), "c".to_string(), None, None, 200).unwrap();
    let listed = c.list_api_keys();
    let order: Vec<&str> = listed.iter().map(|k| k.username.as_str()).collect();
    assert_eq!(order, vec!["b", "c", "a"]);
}

#[test]
fn key_uniqueness_is_enforced() {
    let mut c = Catalog::new();
    c.generate_api_key("k1".to_string(), "alice".to_string(), None, None, 1).unwrap();
    let r = c.generate_api_key("k1".to_string(), "bob".to_string(), None, None, 2);
    assert!(matches!(r, Err(ImageError::StorageFailure)));
}
