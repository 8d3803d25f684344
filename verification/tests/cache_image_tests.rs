use imgserver::cache::Cache;
use imgserver::image::{pixel_kind, samples_to_le_bytes, ColorKind, PixelKind};
use std::time::{Duration, SystemTime};

#[test]
fn new_cache_holds_nothing() {
    let c: Cache<u32, String> = Cache::new(Duration::from_secs(300));
    assert_eq!(c.get(1), None);
}

#[test]
fn updated_cache_gives_the_stored_value() {
    let mut c: Cache<u32, String> = Cache::new(Duration::from_secs(300));
    c.update(1, "[\"a.png\"]".to_string(), SystemTime::now());
    assert_eq!(c.get(1), Some("[\"a.png\"]".to_string()));
    assert_eq!(c.get(2), None);
    c.update(1, "[]".to_string(), SystemTime::now());
    assert_eq!(c.get(1), Some("[]".to_string()));
}

#[test]
fn entries_give_value_and_stamp() {
    let mut c: Cache<usize, String> = Cache::new(Duration::from_secs(300));
    let t = SystemTime::UNIX_EPOCH + Duration::from_secs(1_000);
    c.update(3, "x".to_string(), t);
    assert_eq!(c.entry(&3), Some((&"x".to_string(), &t)));
    assert_eq!(c.entry(&4), None);
    // A value stored long ago is still answered: the timeout is not applied.
    assert_eq!(c.get(3), Some("x".to_string()));
}

#[test]
fn read_item_needs_the_elapsed_time() {
    let v = "x".to_string();
    assert_eq!(Cache::<u32, String>::read_item(&v, Some(Duration::from_secs(1))), Some("x".to_string()));
    assert_eq!(Cache::<u32, String>::read_item(&v, None), None);
}

#[test]
fn pixel_layouts() {
    assert_eq!(pixel_kind(ColorKind::L8), Some(PixelKind::U8));
    assert_eq!(pixel_kind(ColorKind::La16), Some(PixelKind::U16x2));
    assert_eq!(pixel_kind(ColorKind::Rgb8), Some(PixelKind::U8x3));
    assert_eq!(pixel_kind(ColorKind::Rgba16), Some(PixelKind::U16x4));
    assert_eq!(pixel_kind(ColorKind::Other), None);
}

#[test]
fn little_endian_samples() {
    assert_eq!(samples_to_le_bytes(&vec![0x1234, 1, 0xffff]), vec![0x34, 0x12, 1, 0, 0xff, 0xff]);
    assert!(samples_to_le_bytes(&Vec::new()).is_empty());
}
