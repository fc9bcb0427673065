use imagevault::catalog::Catalog;
use imagevault::codec::{sniff_format, ImageFormat};
use imagevault::error::ImageError;
use imagevault::models::ImageFilters;

// --- a minimal PNG encoder, enough for the image decoder to accept ---

fn crc32(data: &[u8]) -> u32 {
    let mut table = [0u32; 256];
    for n in 0..256 {
        let mut c = n as u32;
        for _ in 0..8 {
            c = if c & 1 != 0 { 0xEDB88320 ^ (c >> 1) } else { c >> 1 };
        }
        table[n] = c;
    }
    let mut crc: u32 = 0xFFFFFFFF;
    for &b in data {
        crc = table[((crc ^ b as u32) & 0xFF) as usize] ^ (crc >> 8);
    }
    crc ^ 0xFFFFFFFF
}

fn adler32(data: &[u8]) -> u32 {
    let mut a: u32 = 1;
    let mut b: u32 = 0;
    for &x in data {
        a = (a + x as u32) % 65521;
        b = (b + a) % 65521;
    }
    (b << 16) | a
}

fn chunk(kind: &[u8; 4], payload: &[u8]) -> Vec<u8> {
    let mut out = Vec::new();
    out.extend_from_slice(&(payload.len() as u32).to_be_bytes());
    out.extend_from_slice(kind);
    out.extend_from_slice(payload);
    let mut crc_input = kind.to_vec();
    crc_input.extend_from_slice(payload);
    out.extend_from_slice(&crc32(&crc_input).to_be_bytes());
    out
}

fn make_png(w: u32, h: u32, shade: u8) -> Vec<u8> {
    let mut png = vec![0x89, b'P', b'N', b'G', 0x0D, 0x0A, 0x1A, 0x0A];
    let mut ihdr = Vec::new();
    ihdr.extend_from_slice(&w.to_be_bytes());
    ihdr.extend_from_slice(&h.to_be_bytes());
    ihdr.extend_from_slice(&[8, 2, 0, 0, 0]);
    png.extend_from_slice(&chunk(b"IHDR", &ihdr));
    let mut raw = Vec::new();
    for _y in 0..h {
        raw.push(0u8);
        for _x in 0..w {
            raw.push(shade);
            raw.push(0);
            raw.push(0);
        }
    }
    let mut z = vec![0x78, 0x01];
    let mut off = 0usize;
    while off < raw.len() {
        let n = std::cmp::min(65535, raw.len() - off);
        let last = if off + n == raw.len() { 1u8 } else { 0u8 };
        z.push(last);
        z.extend_from_slice(&(n as u16).to_le_bytes());
        z.extend_from_slice(&(!(n as u16)).to_le_bytes());
        z.extend_from_slice(&raw[off..off + n]);
        off += n;
    }
    z.extend_from_slice(&adler32(&raw).to_be_bytes());
    png.extend_from_slice(&chunk(b"IDAT", &z));
    png.extend_from_slice(&chunk(b"IEND", &[]));
    png
}

fn tags(names: &[&str]) -> Vec<String> {
    names.iter().map(|s| s.to_string()).collect()
}

#[test]
fn sniffing_goes_by_magic_bytes() {
    assert_eq!(sniff_format(&make_png(1, 1, 0)), Some(ImageFormat::Png));
    assert_eq!(sniff_format(&vec![0xFF, 0xD8, 0xFF, 0xE0]), Some(ImageFormat::Jpeg));
    assert_eq!(sniff_format(&b"GIF89a...".to_vec()), Some(ImageFormat::Gif));
    assert_eq!(sniff_format(&b"GIF87a...".to_vec()), Some(ImageFormat::Gif));
    assert_eq!(
        sniff_format(&b"RIFF\x00\x00\x00\x00WEBPVP8 ".to_vec()),
        Some(ImageFormat::WebP)
    );
    assert_eq!(sniff_format(&b"BM......".to_vec()), Some(ImageFormat::Bmp));
    assert_eq!(sniff_format(&b"plain text".to_vec()), None);
    assert_eq!(sniff_format(&Vec::new()), None);
}

#[test]
fn ingest_accepts_and_records_dimensions() {
    let mut c = Catalog::new();
    let png = make_png(100, 50, 7);
    let hash = c.ingest_bytes(&png, None, &tags(&["cat"]), 1000).unwrap();
    assert_eq!(hash.len(), 64);
    assert_eq!(c.images.len(), 1);
    assert_eq!(c.images[0].width, 100);
    assert_eq!(c.images[0].height, 50);
    assert_eq!(c.images[0].size_bytes, png.len() as u64);
    assert_eq!(c.images[0].filename, format!("{}.png", hash));
}

#[test]
fn reingesting_identical_bytes_is_a_duplicate() {
    let mut c = Catalog::new();
    let png = make_png(20, 10, 3);
    c.ingest_bytes(&png, None, &tags(&["cat"]), 1000).unwrap();
    let images_before = c.images.len();
    let tags_before = c.get_all_tags().len();
    let r = c.ingest_bytes(&png, None, &tags(&["other"]), 2000);
    assert!(matches!(r, Err(ImageError::Duplicate)));
    assert_eq!(c.images.len(), images_before);
    assert_eq!(c.get_all_tags().len(), tags_before);
}

#[test]
fn ingest_rejections() {
    let mut c = Catalog::new();
    let png = make_png(4, 4, 1);
    // No tags.
    let r = c.ingest_bytes(&png, None, &Vec::new(), 0);
    assert!(matches!(r, Err(ImageError::MissingTags)));
    // Unknown declared type.
    let r = c.ingest_bytes(&png, Some(&"text/html".to_string()), &tags(&["x"]), 0);
    assert!(matches!(r, Err(ImageError::UnsupportedFormat)));
    // Not an image at all.
    let r = c.ingest_bytes(&b"hello".to_vec(), None, &tags(&["x"]), 0);
    assert!(matches!(r, Err(ImageError::UnsupportedFormat)));
    // Sniffs as PNG but does not decode.
    let mut broken = make_png(4, 4, 1);
    let len = broken.len();
    broken.truncate(len - 20);
    let r = c.ingest_bytes(&broken, None, &tags(&["x"]), 0);
    assert!(matches!(r, Err(ImageError::UnsupportedFormat)));
    // Over the size ceiling.
    let big = vec![0u8; 10 * 1024 * 1024 + 1];
    let r = c.ingest_bytes(&big, None, &tags(&["x"]), 0);
    assert!(matches!(r, Err(ImageError::FileTooLarge)));
    assert_eq!(c.images.len(), 0);
}

#[test]
fn ingest_accepts_declared_image_type() {
    let mut c = Catalog::new();
    let png = make_png(4, 4, 1);
    let r = c.ingest_bytes(&png, Some(&"image/png".to_string()), &tags(&["x"]), 0);
    assert!(r.is_ok());
}

#[test]
fn end_to_end_ingest_select_fetch() {
    let mut c = Catalog::new();
    let png = make_png(100, 50, 9);
    let hash = c.ingest_bytes(&png, None, &tags(&["cat", "cute"]), 1234).unwrap();
    let filename = format!("{}.png", hash);
    let base = "http://127.0.0.1:8000/images";

    // A random selection filtered by one of its tags returns it.
    let f = ImageFilters {
        tags: Some(tags(&["cat"])),
        width: None,
        height: None,
        size: None,
    };
    let got = c.get_random_image_with_filters(&f, 42, base).unwrap();
    assert_eq!(got.hash, hash);
    assert_eq!(got.filename, filename);
    assert_eq!(got.format, "PNG");
    assert_eq!(got.tags, tags(&["cat", "cute"]));
    assert_eq!(got.url, format!("{}/{}", base, filename));

    // A tag nothing carries finds nothing.
    let f = ImageFilters {
        tags: Some(tags(&["dog"])),
        width: None,
        height: None,
        size: None,
    };
    assert!(matches!(
        c.get_random_image_with_filters(&f, 42, base),
        Err(ImageError::NotFound)
    ));

    // Fetch by filename re-derives the fixed attributes.
    let got = c.get_image_by_filename(&filename, base).unwrap();
    assert_eq!(got.width, 100);
    assert_eq!(got.height, 50);
    assert_eq!(got.created_at, 1234);
    assert!(matches!(
        c.get_image_by_filename("missing.png", base),
        Err(ImageError::NotFound)
    ));
}

#[test]
fn selection_requires_every_requested_tag() {
    let mut c = Catalog::new();
    let both = c.ingest_bytes(&make_png(10, 10, 1), None, &tags(&["a", "b", "extra"]), 0).unwrap();
    let _only_a = c.ingest_bytes(&make_png(10, 10, 2), None, &tags(&["a"]), 0).unwrap();
    let f = ImageFilters {
        tags: Some(tags(&["a", "b"])),
        width: None,
        height: None,
        size: None,
    };
    // Whatever the pick, only the image carrying both tags comes back.
    for pick in 0..10u64 {
        let got = c.get_random_image_with_filters(&f, pick, "http://x").unwrap();
        assert_eq!(got.hash, both);
    }
}

#[test]
fn selection_honours_dimension_and_size_filters() {
    let mut c = Catalog::new();
    let small = c.ingest_bytes(&make_png(10, 10, 1), None, &tags(&["t"]), 0).unwrap();
    let wide = c.ingest_bytes(&make_png(100, 10, 2), None, &tags(&["t"]), 0).unwrap();
    let f = ImageFilters {
        tags: None,
        width: Some(imagevault::models::DimensionFilter::Exact(100)),
        height: None,
        size: None,
    };
    assert_eq!(c.get_random_image_with_filters(&f, 3, "b").unwrap().hash, wide);
    let f = ImageFilters {
        tags: None,
        width: Some(imagevault::models::DimensionFilter::Range(5, 20)),
        height: Some(imagevault::models::DimensionFilter::Range(5, 20)),
        size: None,
    };
    assert_eq!(c.get_random_image_with_filters(&f, 3, "b").unwrap().hash, small);
    let f = ImageFilters {
        tags: None,
        width: None,
        height: None,
        size: Some(imagevault::models::SizeFilter::Exact(1)),
    };
    assert!(matches!(
        c.get_random_image_with_filters(&f, 3, "b"),
        Err(ImageError::NotFound)
    ));
}

#[test]
fn batch_respects_the_callers_ceiling() {
    let mut c = Catalog::new();
    c.ingest_bytes(&make_png(10, 10, 1), None, &tags(&["t"]), 0).unwrap();
    let f = ImageFilters { tags: None, width: None, height: None, size: None };
    // Batching disabled: the effective ceiling is one.
    let r = c.batch_random(&f, 2, None, &vec![0, 1], "b");
    assert!(matches!(r, Err(ImageError::BatchSizeExceeded)));
    let b = c.batch_random(&f, 2, Some(5), &vec![0, 1], "b").unwrap();
    assert_eq!(b.total, 2);
    assert_eq!(b.successful, 2);
    assert_eq!(b.failed, 0);
    assert_eq!(b.images.len(), 2);
    // Per-item misses never fail the batch.
    let f = ImageFilters {
        tags: Some(tags(&["nothing"])),
        width: None,
        height: None,
        size: None,
    };
    let b = c.batch_random(&f, 2, Some(5), &vec![0, 1], "b").unwrap();
    assert_eq!(b.successful, 0);
    assert_eq!(b.failed, 2);
    assert_eq!(b.errors, vec![ImageError::NotFound, ImageError::NotFound]);
}

#[test]
fn deleting_an_ingested_image_prunes_its_tags() {
    let mut c = Catalog::new();
    let hash = c.ingest_bytes(&make_png(10, 10, 1), None, &tags(&["cat", "cute"]), 0).unwrap();
    let filename = format!("{}.png", hash);
    c.remove_image(&filename).unwrap();
    assert_eq!(c.images.len(), 0);
    assert_eq!(c.get_all_tags(), Vec::<(String, u64)>::new());
    assert!(matches!(c.remove_image(&filename), Err(ImageError::NotFound)));
}
