use imagevault::cache::ImageCache;
use imagevault::models::ImageResponse;

fn resp(filename: &str, width: u32) -> ImageResponse {
    ImageResponse {
        url: format!("http://x/{}", filename),
        filename: filename.to_string(),
        format: "PNG".to_string(),
        width,
        height: 1,
        size_bytes: 10,
        hash: "h".to_string(),
        tags: vec!["t".to_string()],
        created_at: 0,
        modified_at: 0,
    }
}

#[test]
fn serves_until_the_deadline() {
    let mut c = ImageCache::new(10, 300_000);
    c.insert("a.png".to_string(), resp("a.png", 7), 1_000);
    let hit = c.get("a.png", 2_000).unwrap();
    assert_eq!(hit.width, 7);
    assert_eq!(hit.filename, "a.png");
    // At and after the deadline the entry is no longer served.
    assert!(c.get("a.png", 301_000).is_none());
    assert!(c.get("a.png", 999_999).is_none());
    assert!(c.get("other.png", 2_000).is_none());
}

#[test]
fn same_key_replaces() {
    let mut c = ImageCache::new(10, 1_000);
    c.insert("a.png".to_string(), resp("a.png", 1), 0);
    c.insert("a.png".to_string(), resp("a.png", 2), 10);
    assert_eq!(c.get("a.png", 20).unwrap().width, 2);
    assert_eq!(c.entries.len(), 1);
}

#[test]
fn capacity_evicts_the_oldest() {
    let mut c = ImageCache::new(2, 10_000);
    c.insert("a".to_string(), resp("a", 1), 0);
    c.insert("b".to_string(), resp("b", 2), 1);
    c.insert("c".to_string(), resp("c", 3), 2);
    assert!(c.get("a", 5).is_none());
    assert!(c.get("b", 5).is_some());
    assert!(c.get("c", 5).is_some());
    assert_eq!(c.entries.len(), 2);
}
