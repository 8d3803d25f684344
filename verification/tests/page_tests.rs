use imgserver::album::Album;
use imgserver::page::{album_page, fill_template, index_page, not_found_page};

fn album(host: &str, name: &str, images: usize) -> Album {
    Album {
        path: format!("albums/{}", name),
        name: name.to_string(),
        author: "me".to_string(),
        host_path: host.to_string(),
        readme_path: "README.md".to_string(),
        images_path: "images".to_string(),
        cover_path: "cover.png".to_string(),
        images,
    }
}

#[test]
fn placeholders_are_filled() {
    assert_eq!(fill_template("a{{X}}b{{X}}c", "X", "yz"), "ayzbyzc");
    assert_eq!(fill_template("{{Y}} {X} {{X}", "X", "v"), "{{Y}} {X} {{X}");
    assert_eq!(fill_template("{{{X}}}", "X", "v"), "{v}");
    assert_eq!(fill_template("", "X", "v"), "");
}

#[test]
fn index_page_lists_the_albums() {
    let albums = vec![album("/dogs", "Dogs", 3), album("/cats", "Cats", 0)];
    assert_eq!(
        index_page("<body>{{ALBUMS}}</body>", &albums),
        "<body><ul><li><a href=\"/dogs\">Dogs (3)</a></li><li><a href=\"/cats\">Cats (0)</a></li></ul></body>"
    );
    assert_eq!(index_page("{{ALBUMS}}", &Vec::new()), "<ul></ul>");
}

#[test]
fn album_page_holds_name_cover_and_readme() {
    let a = album("/dogs", "Dogs", 3);
    assert_eq!(
        album_page("<h>{{NAME}}</h><img src=\"{{COVER}}\">{{README}}", &a, "# Hi Mercury!"),
        "<h>Dogs</h><img src=\"/dogs/cover\"><h1>Hi Mercury!</h1>"
    );
    assert_eq!(album_page("{{README}}", &a, "*x*"), "<p><em>x</em></p>");
}

#[test]
fn not_found_page_names_the_path() {
    assert_eq!(
        not_found_page("v{{VERSION}}: {{PAGE}} not found", "0.2.0", "/nope"),
        "v0.2.0: /nope not found"
    );
}
