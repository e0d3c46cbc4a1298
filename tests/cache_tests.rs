use std::collections::hash_map::DefaultHasher;
use std::hash::Hasher;
use std::io::Cursor;

use image::{DynamicImage, GenericImageView, ImageFormat, RgbImage};
use luma::library::{cache_size, picture_data_uri, thumbnail_data_uri, thumbnail_for, PictureMime};
use luma::numerals::{decimal, hex_lower};
use luma::thumbnails::{blob_file_name, handle_for, make_thumbnail, Thumbnail, ThumbnailCache};

fn std_handle(bytes: &Vec<u8>) -> String {
    let mut h = DefaultHasher::new();
    h.write(bytes);
    format!("{:x}", h.finish())
}

fn png(width: u32, height: u32) -> Vec<u8> {
    let img = RgbImage::from_fn(width, height, |x, y| image::Rgb([(x % 256) as u8, (y % 256) as u8, 90]));
    let mut out = Vec::new();
    DynamicImage::ImageRgb8(img).write_to(&mut Cursor::new(&mut out), ImageFormat::Png).unwrap();
    out
}

#[test]
fn hex_matches_format() {
    for n in [0u64, 1, 9, 10, 15, 16, 255, 256, 0xdead_beef, u64::MAX] {
        assert_eq!(hex_lower(n), format!("{:x}", n));
    }
    assert_eq!(hex_lower(0xabc), "abc");
}

#[test]
fn decimal_matches_format() {
    for n in [0u64, 7, 10, 99, 100, 12345, u64::MAX] {
        assert_eq!(decimal(n), n.to_string());
    }
}

#[test]
fn handle_is_the_hex_of_the_content_hash() {
    let bytes = vec![1u8, 2, 3, 4, 5];
    let h = handle_for(&bytes);
    assert_eq!(h, std_handle(&bytes));
    assert_ne!(h, handle_for(&vec![1u8, 2, 3, 4, 6]));
    assert!(h.chars().all(|c| c.is_ascii_hexdigit() && !c.is_ascii_uppercase()));
}

#[test]
fn blob_name_is_handle_dot_bin() {
    assert_eq!(blob_file_name("1a2b").as_deref(), Some("1a2b.bin"));
    assert_eq!(blob_file_name("0123456789abcdef").as_deref(), Some("0123456789abcdef.bin"));
}

#[test]
fn malformed_handles_give_no_file_name() {
    for bad in ["", "../../x", "ABC", "12 3", "g1", "0123456789abcdef0", "a/b", "..", "a.bin"] {
        assert_eq!(blob_file_name(bad), None, "{}", bad);
    }
}

#[test]
fn every_handle_gives_a_file_name() {
    for bytes in [vec![], vec![0u8], vec![1, 2, 3], vec![255; 1000]] {
        let h = handle_for(&bytes);
        assert_eq!(blob_file_name(&h), Some(format!("{}.bin", h)));
    }
}

#[test]
fn thumbnail_is_a_jpeg_fitted_into_the_box() {
    let raw = png(500, 300);
    let t = make_thumbnail(&raw).expect("decodable artwork gives a thumbnail");
    assert_ne!(t.bytes(), &raw);
    assert_eq!(t.bytes()[0..2], [0xff, 0xd8]);
    assert_eq!(t.handle(), &std_handle(t.bytes()));
    let back = image::load_from_memory(t.bytes()).unwrap();
    assert_eq!(back.dimensions(), (250, 150));
}

#[test]
fn undecodable_artwork_gives_no_thumbnail() {
    assert!(make_thumbnail(&[0u8, 1, 2, 3, 4, 5]).is_none());
    assert!(make_thumbnail(&[]).is_none());
}

#[test]
fn identical_artwork_is_stored_once() {
    let raw = png(64, 64);
    let first = make_thumbnail(&raw).unwrap();
    let second = make_thumbnail(&raw).unwrap();
    assert_eq!(first.handle(), second.handle());
    let handle = first.handle().clone();
    let mut cache = ThumbnailCache::new();
    assert!(cache.store(first));
    assert_eq!(cache.len(), 1);
    let after_first = cache.fetch(&handle).unwrap();
    assert!(!cache.store(second));
    assert_eq!(cache.len(), 1);
    let after_second = cache.fetch(&handle).unwrap();
    assert_eq!(after_first, after_second);
}

#[test]
fn different_blobs_get_different_handles() {
    let mut cache = ThumbnailCache::new();
    let a = Thumbnail::from_encoded(vec![1, 2, 3]);
    let b = Thumbnail::from_encoded(vec![3, 2, 1]);
    let (ha, hb) = (a.handle().clone(), b.handle().clone());
    assert!(cache.store(a));
    assert!(cache.store(b));
    assert_eq!(cache.len(), 2);
    assert!(cache.contains(&ha) && cache.contains(&hb));
    assert_eq!(cache.fetch(&ha), Some(vec![1, 2, 3]));
    assert_eq!(cache.fetch(&hb), Some(vec![3, 2, 1]));
    assert_eq!(cache.fetch("nothere"), None);
}

#[test]
fn cleared_cache_forgets_handles_and_weighs_nothing() {
    let mut cache = ThumbnailCache::new();
    let t = Thumbnail::from_encoded(vec![7; 100]);
    let h = t.handle().clone();
    cache.store(t);
    assert!(cache.fetch(&h).is_some());
    cache.clear();
    assert_eq!(cache.len(), 0);
    assert_eq!(cache.fetch(&h), None);
    assert_eq!(cache_size(None, &Vec::new()), 0);
}

#[test]
fn cache_size_adds_snapshot_and_blobs() {
    assert_eq!(cache_size(Some(1000), &vec![10, 20, 30]), 1060);
    assert_eq!(cache_size(None, &vec![5, 5]), 10);
    assert_eq!(cache_size(Some(u64::MAX - 1), &vec![1, 1]), u64::MAX);
}

#[test]
fn data_uris_name_the_mime_type() {
    assert_eq!(thumbnail_data_uri(&[0xff, 0xd8, 0xff]), "data:image/jpeg;base64,/9j/");
    assert_eq!(picture_data_uri(PictureMime::Png, b"Man"), "data:image/png;base64,TWFu");
    assert_eq!(picture_data_uri(PictureMime::Gif, b"Ma"), "data:image/gif;base64,TWE=");
    assert_eq!(picture_data_uri(PictureMime::Bmp, b""), "data:image/bmp;base64,");
    assert_eq!(picture_data_uri(PictureMime::Other, b"M"), "data:image/jpeg;base64,TQ==");
    assert_eq!(
        thumbnail_data_uri(b"any carnal pleasure."),
        "data:image/jpeg;base64,YW55IGNhcm5hbCBwbGVhc3VyZS4="
    );
}

#[test]
fn thumbnail_lookup_renders_or_reports_missing() {
    let mut cache = ThumbnailCache::new();
    let t = Thumbnail::from_encoded(b"Man".to_vec());
    let h = t.handle().clone();
    cache.store(t);
    assert_eq!(thumbnail_for(&cache, &h), Some("data:image/jpeg;base64,TWFu".to_string()));
    assert_eq!(thumbnail_for(&cache, "0"), None);
}
