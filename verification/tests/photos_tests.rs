use imgserver::photos::{compare_photos, sort_photos, PhotoOrder};
use imgserver::routes::{photo_names, photos_json};

fn strings(v: &[&str]) -> Vec<String> {
    v.iter().map(|s| s.to_string()).collect()
}

#[test]
fn numbered_names_sort_by_number() {
    let mut v = strings(&["dog-10.png", "dog-9.png", "dog-1.png"]);
    sort_photos(&mut v);
    assert_eq!(v, strings(&["dog-1.png", "dog-9.png", "dog-10.png"]));
}

#[test]
fn other_names_sort_by_text() {
    let mut v = strings(&["b.txt", "a.txt", "c"]);
    sort_photos(&mut v);
    assert_eq!(v, strings(&["a.txt", "b.txt", "c"]));
}

#[test]
fn equal_numbers_keep_their_order() {
    let mut v = strings(&["b1.png", "a01.png"]);
    sort_photos(&mut v);
    assert_eq!(v, strings(&["b1.png", "a01.png"]));
}

#[test]
fn empty_and_single() {
    let mut v: Vec<String> = Vec::new();
    sort_photos(&mut v);
    assert!(v.is_empty());
    let mut w = strings(&["x99999999999.png"]);
    sort_photos(&mut w);
    assert_eq!(w, strings(&["x99999999999.png"]));
}

#[test]
fn comparison_rules() {
    assert_eq!(compare_photos("a10.png", "a9.png"), PhotoOrder::Greater);
    assert_eq!(compare_photos("a10.png", "a10.png"), PhotoOrder::Equal);
    // The leftmost match: digits directly followed by a dot.
    assert_eq!(compare_photos("12x3.png", "5.png"), PhotoOrder::Less);
    assert_eq!(compare_photos("a1.b.c", "a2.x"), PhotoOrder::Less);
    // Not both numbered: by text.
    assert_eq!(compare_photos("a10.png", "b"), PhotoOrder::Less);
    assert_eq!(compare_photos("9.png", "10"), PhotoOrder::Greater);
    // A match that stops at a line feed does not reach the end.
    assert_eq!(compare_photos("a2.png\nx", "b10.png"), PhotoOrder::Less);
    assert_eq!(compare_photos("z2.png\nx", "a10.png"), PhotoOrder::Greater);
    // A dot must be followed by something.
    assert_eq!(compare_photos("b2.", "a10.png"), PhotoOrder::Greater);
}

#[test]
fn photo_listing() {
    let names = strings(&["a.PNG", "b.txt", "c.jpeg", "noext", "d.Jpg"]);
    let photos = photo_names(&names);
    assert_eq!(photos, strings(&["a.PNG", "c.jpeg", "d.Jpg"]));
    assert_eq!(photos_json(&photos), "[\"a.PNG\",\"c.jpeg\",\"d.Jpg\"]");
    assert_eq!(photos_json(&strings(&["x.png"])), "[\"x.png\"]");
}

#[test]
fn sortable_needs_numbers_that_fit() {
    assert!(imgserver::photos::sortable(&strings(&["a4294967295.png", "b.txt"])));
    assert!(imgserver::photos::sortable(&strings(&["a4294967295.png", "b4294967295.png"])));
    // One numbered name is never compared by number, however large.
    assert!(imgserver::photos::sortable(&strings(&["a4294967296.png"])));
    assert!(imgserver::photos::sortable(&strings(&["x.png", "a99999999999.png", "y"])));
    // Two numbered names, one of them too large.
    assert!(!imgserver::photos::sortable(&strings(&["x.png", "a99999999999.png", "b1.png"])));
    assert!(!imgserver::photos::sortable(&strings(&["b1.png", "c", "a4294967296.png"])));
    assert!(!imgserver::photos::sortable(&strings(&["a4294967296.png", "b4294967296.png"])));
    // A number that does not reach the end of the name is never read.
    assert!(imgserver::photos::sortable(&strings(&["a99999999999.png\nx", "b1.png"])));
}

#[test]
fn large_number_among_plain_names_sorts_by_text() {
    let mut v = strings(&["b.txt", "a99999999999.png", "c"]);
    sort_photos(&mut v);
    assert_eq!(v, strings(&["a99999999999.png", "b.txt", "c"]));
}

#[test]
fn empty_photo_listing() {
    let photos = photo_names(&strings(&["readme.md", "notes"]));
    assert!(photos.is_empty());
    assert_eq!(photos_json(&photos), "[]");
}
