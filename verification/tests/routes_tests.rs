use imgserver::album::Album;
use imgserver::routes::{
    album_list, cover_url, image_type, image_type_of_lower, middleware, path_str,
    request_file_name, route_lower, time_unit, Route,
};

fn album(host: &str, name: &str, images: usize) -> Album {
    Album {
        path: format!("albums/{}", name),
        name: name.to_string(),
        author: "me".to_string(),
        host_path: host.to_string(),
        readme_path: "README.md".to_string(),
        images_path: "images".to_string(),
        cover_path: "cover.png".to_string(),
        images,
    }
}

#[test]
fn image_types_by_extension() {
    assert_eq!(image_type("png"), "image/png");
    assert_eq!(image_type("PNG"), "image/png");
    assert_eq!(image_type("Jpeg"), "image/jpeg");
    assert_eq!(image_type("jpg"), "image/jpeg");
    assert_eq!(image_type("gif"), "");
    assert_eq!(image_type_of_lower("PNG"), "");
}

#[test]
fn durations() {
    assert_eq!(time_unit(5), "005\u{3bc}s");
    assert_eq!(time_unit(999), "999\u{3bc}s");
    assert_eq!(time_unit(1500), "001ms");
    assert_eq!(time_unit(2_000_000), "002s ");
    assert_eq!(time_unit(999_999_999), "999s ");
    // Past a thousand seconds the seconds are divided once more.
    assert_eq!(time_unit(5_000_000_000), "005s ");
    assert_eq!(time_unit(123_456_789_000), "123s ");
    assert_eq!(time_unit(0), "000\u{3bc}s");
}

#[test]
fn log_paths() {
    assert_eq!(
        path_str("/album%20one/photos/x".to_string()),
        Some("\x1b[32m/album one\x1b[34m/photos\x1b[33m/x\x1b[0m".to_string())
    );
    assert_eq!(path_str("/".to_string()), Some("\x1b[32m/\x1b[0m".to_string()));
    assert_eq!(path_str("nopath".to_string()), None);
}

#[test]
fn routing() {
    let albums = vec![album("/dogs", "dogs", 2), album("/cats", "cats", 0)];
    assert_eq!(route_lower("/dogs", &albums), Route::Page(0));
    assert_eq!(route_lower("/cats/photos", &albums), Route::Photos(1));
    assert_eq!(route_lower("/cats/cover", &albums), Route::Cover(1));
    assert_eq!(route_lower("/dogs/photo/a.png", &albums), Route::Photo(0));
    assert_eq!(route_lower("/dogs/preview/a.png", &albums), Route::Preview(0));
    assert_eq!(route_lower("/dogs/thumb/a.png", &albums), Route::Thumb(0));
    assert_eq!(route_lower("/birds", &albums), Route::NotFound);
    assert_eq!(middleware(true, "/DOGS/Photos", Some(&albums)), Some(Route::Photos(0)));
    assert_eq!(middleware(false, "/dogs", Some(&albums)), None);
    assert_eq!(middleware(true, "/dogs", None), None);
}

#[test]
fn requested_file_names() {
    assert_eq!(request_file_name("/dogs/photo/my%20dog.png", "/photo/"), "my dog.png");
    assert_eq!(request_file_name("/dogs/PHOTO/a.png", "/photo/"), "/dogs/PHOTO/a.png");
    assert_eq!(request_file_name("/d/thumb/a/thumb/b", "/thumb/"), "a/thumb/b");
}

#[test]
fn index_list_and_cover() {
    let albums = vec![album("/dogs", "Dogs", 12), album("/cats", "Cats", 0)];
    assert_eq!(
        album_list(&albums),
        "<ul><li><a href=\"/dogs\">Dogs (12)</a></li><li><a href=\"/cats\">Cats (0)</a></li></ul>"
    );
    assert_eq!(album_list(&Vec::new()), "<ul></ul>");
    assert_eq!(cover_url("/dogs"), "/dogs/cover");
}
