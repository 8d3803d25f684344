use imgserver::serve_static::{get_type, safe_path, static_file_path};

#[test]
fn parent_steps_are_removed() {
    assert_eq!(safe_path("/a/../b".to_string()), "/a/b");
    assert_eq!(safe_path("/../..".to_string()), "");
    // Removing one step can make another, which is removed in turn.
    assert_eq!(safe_path("//....".to_string()), "");
    assert_eq!(safe_path("/plain/path".to_string()), "/plain/path");
}

#[test]
fn content_types() {
    assert_eq!(get_type("a/b.css"), "text/css");
    assert_eq!(get_type("index.html"), "text/html");
    assert_eq!(get_type("x.tar.gz"), "application/octet-stream");
    assert_eq!(get_type("noext"), "application/octet-stream");
    assert_eq!(get_type("p.webp"), "image/webp");
    assert_eq!(get_type("p.PNG"), "application/octet-stream");
}

#[test]
fn static_files() {
    assert_eq!(static_file_path("/"), "./data/static/index.html");
    assert_eq!(static_file_path("/about"), "./data/static/about/index.html");
    assert_eq!(static_file_path("/style.css"), "./data/static/style.css");
    assert_eq!(static_file_path("/../secret"), "./data/static/secret/index.html");
}
