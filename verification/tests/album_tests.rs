use imgserver::album::{
    album_dirs, Album, AlbumError, AlbumSettings, CacheFile, DirInfo, ImageFile, ImageUpdates,
    ProcessType, PREVIEW_HEIGHT, PREVIEW_WIDTH, THUMBNAIL_SIZE,
};
use imgserver::digest::file_hash;

const CONFIG: &str = "; album settings\nname = Dogs\nauthor = Me\nhost_path = dogs\ncover_path = cover.png\nreadme = README.md\nimage_dir = images\n";

fn sorted(mut v: Vec<String>) -> Vec<String> {
    v.sort();
    v
}

fn image(name: &str, cached: Option<&[u8]>) -> ImageFile {
    ImageFile {
        name: name.to_string(),
        path: format!("album/images/{}", name),
        cached: cached.map(|b| b.to_vec()),
    }
}

fn cache_file(name: &str, bytes: &[u8]) -> CacheFile {
    CacheFile { name: name.to_string(), bytes: bytes.to_vec() }
}

#[test]
fn settings_are_read_and_host_path_gets_a_slash() {
    let s = AlbumSettings::parse(CONFIG).unwrap();
    assert_eq!(s.name, "Dogs");
    assert_eq!(s.author, "Me");
    assert_eq!(s.host_path, "/dogs");
    assert_eq!(s.cover_path, "cover.png");
    assert_eq!(s.readme_path, "README.md");
    assert_eq!(s.images_path, "images");
    let t = AlbumSettings::parse(&CONFIG.replace("host_path = dogs", "host_path = /cats")).unwrap();
    assert_eq!(t.host_path, "/cats");
}

#[test]
fn later_entries_take_priority() {
    let s = AlbumSettings::parse(&format!("{}name = Cats\n", CONFIG)).unwrap();
    assert_eq!(s.name, "Cats");
}

#[test]
fn missing_setting_is_a_parse_error() {
    let r = AlbumSettings::parse("name = a\nauthor = b\nhost_path = c\ncover_path = d\nreadme = e\n");
    assert!(matches!(r, Err(AlbumError::ConfigParse(_))));
}

#[test]
fn unparsable_config_is_a_parse_error() {
    let r = AlbumSettings::parse("this line has no equals sign\n");
    assert!(matches!(r, Err(AlbumError::ConfigParse(_))));
}

#[test]
fn load_needs_the_image_count() {
    let s = AlbumSettings::parse(CONFIG).unwrap();
    assert!(matches!(Album::load("a".to_string(), s.clone(), None), Err(AlbumError::Io())));
    let a = Album::load("albums/album_dogs".to_string(), s, Some(3)).unwrap();
    assert_eq!(a.path, "albums/album_dogs");
    assert_eq!(a.host_path, "/dogs");
    assert_eq!(a.images_path, "images");
    assert_eq!(a.images, 3);
}

#[test]
fn process_types() {
    assert_eq!(ProcessType::all(), [ProcessType::Thumbnail, ProcessType::Preview]);
    assert_eq!(ProcessType::Thumbnail.to_path(), ".thumbs");
    assert_eq!(ProcessType::Preview.to_path(), ".previews");
    assert_eq!(ProcessType::Thumbnail.to_image_size(), (u32::MAX, 255));
    assert_eq!(ProcessType::Preview.to_image_size(), (1920, 1080));
    assert_eq!(THUMBNAIL_SIZE, 255);
    assert_eq!((PREVIEW_WIDTH, PREVIEW_HEIGHT), (1920, 1080));
    assert_eq!(ProcessType::Thumbnail.to_string(), "thumbnails");
    assert_eq!(ProcessType::Preview.to_string(), "previews");
}

#[test]
fn file_hashes_are_md5_in_lower_hex() {
    assert_eq!(file_hash(b""), "d41d8cd98f00b204e9800998ecf8427e");
    assert_eq!(file_hash(b"abc"), "900150983cd24fb0d6963f7d28e17f72");
}

#[test]
fn file_hashes_are_thirty_two_hex_digits() {
    let data: Vec<u8> = (0..=255u8).cycle().take(5000).collect();
    let h = file_hash(&data);
    assert_eq!(h.len(), 32);
    assert!(h.chars().all(|c| c.is_ascii_digit() || ('a'..='f').contains(&c)));
}

#[test]
fn lock_text_has_one_line_per_file() {
    let files = vec![cache_file("a.png", b"abc"), cache_file("b.png", b"")];
    assert_eq!(
        Album::recalculate_hash(&files),
        "a.png:900150983cd24fb0d6963f7d28e17f72\nb.png:d41d8cd98f00b204e9800998ecf8427e"
    );
    assert_eq!(Album::recalculate_hash(&Vec::new()), "");
}

#[test]
fn without_lock_every_file_is_added() {
    let images = vec![image("a.png", None), image(".lock", None)];
    let u = Album::check(None, &images);
    assert_eq!(
        sorted(u.added()),
        vec!["album/images/.lock".to_string(), "album/images/a.png".to_string()]
    );
    assert!(u.removed().is_empty());
    assert!(!u.is_none());
}

#[test]
fn fresh_cache_needs_nothing() {
    let cache = vec![cache_file("a.png", b"one"), cache_file("b.png", b"two")];
    let lock = Album::recalculate_hash(&cache);
    let images = vec![
        image("b.png", Some(b"two")),
        image(".lock", None),
        image("a.png", Some(b"one")),
    ];
    let u = Album::check(Some(&lock), &images);
    assert!(u.is_none());
    assert!(u.added().is_empty() && u.removed().is_empty());
}

#[test]
fn stale_missing_and_orphaned_entries() {
    let cache = vec![
        cache_file("a.png", b"one"),
        cache_file("b.png", b"two"),
        cache_file("gone.png", b"x"),
    ];
    let lock = format!("{}\nno colon here\n", Album::recalculate_hash(&cache));
    let images = vec![
        image("a.png", Some(b"changed")),
        image("b.png", None),
        image("new.png", None),
    ];
    let u = Album::check(Some(&lock), &images);
    assert_eq!(
        sorted(u.added()),
        vec![
            "album/images/a.png".to_string(),
            "album/images/b.png".to_string(),
            "album/images/new.png".to_string()
        ]
    );
    assert_eq!(u.removed(), vec!["gone.png".to_string()]);
}

#[test]
fn lock_value_is_everything_after_the_first_colon() {
    let images = vec![image("a", Some(b"abc"))];
    let lock = "a:900150983cd24fb0d6963f7d28e17f72:extra";
    let u = Album::check(Some(lock), &images);
    assert_eq!(u.added(), vec!["album/images/a".to_string()]);
    let lock2 = "a:wrong\r\na:900150983cd24fb0d6963f7d28e17f72\r\n";
    assert!(Album::check(Some(lock2), &images).is_none());
}

#[test]
fn all_adds_every_path() {
    let u = ImageUpdates::all(&vec!["x".to_string(), "y".to_string(), "x".to_string()]);
    assert_eq!(sorted(u.added()), vec!["x".to_string(), "y".to_string()]);
    assert!(u.removed().is_empty());
    assert!(ImageUpdates::all(&Vec::new()).is_none());
}

fn dir(path: &str, name: &str, is_dir: Option<bool>) -> DirInfo {
    DirInfo { path: path.to_string(), name: name.to_string(), is_dir }
}

#[test]
fn album_directories_last_first() {
    let entries = vec![
        dir("albums/album_a", "album_a", Some(true)),
        dir("albums/other", "other", None),
        dir("albums/album_file", "album_file", Some(false)),
        dir("albums/album_b", "album_b", Some(true)),
    ];
    assert_eq!(
        album_dirs(&entries),
        Some(vec!["albums/album_b".to_string(), "albums/album_a".to_string()])
    );
    let bad = vec![dir("albums/album_x", "album_x", None)];
    assert_eq!(album_dirs(&bad), None);
    assert_eq!(album_dirs(&Vec::new()), Some(Vec::new()));
}
