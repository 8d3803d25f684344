//! The HTML pages: templates whose `{{KEY}}` placeholders are filled with
//! values, for the index, an album's page and the not-found page.
use vstd::prelude::*;
use crate::album::Album;
use crate::routes::{album_list, album_list_of, cover_url};
use crate::text::{chars_of, replace_all, replace_all_exec, string_of};

verus! {

/// The placeholder for `key` in a template: the key between double braces.
pub open spec fn placeholder(key: Seq<char>) -> Seq<char> {
    "{{"@ + key + "}}"@
}

/// `template` with every placeholder for `key`, taken left to right, replaced
/// by `value`.
pub open spec fn fill(template: Seq<char>, key: Seq<char>, value: Seq<char>) -> Seq<char> {
    replace_all(template, placeholder(key), value)
}

/// Fills the placeholders for `key` in `template` with `value`.
pub fn fill_template(template: &str, key: &str, value: &str) -> (res: String)
    ensures
        res@ == fill(template@, key@, value@),
{
    let mut p = String::new();
    p.append("{{");
    p.append(key);
    p.append("}}");
    proof {
        reveal_strlit("{{");
        reveal_strlit("}}");
    }
    let pat = chars_of(p.as_str());
    let t = chars_of(template);
    let v = chars_of(value);
    let out = replace_all_exec(&t, &pat, &v);
    string_of(&out)
}

/// The HTML that the markdown crate makes of a Markdown text.
pub uninterp spec fn markdown_html(text: Seq<char>) -> Seq<char>;

/// `markdown::to_html`: the Markdown text rendered as HTML with the crate's
/// default (CommonMark) options.  The result is a function of the text
/// alone, named `markdown_html`; what it is for a given text is not stated.
#[verifier::external_body]
fn readme_html(readme: &str) -> (res: String)
    ensures
        res@ == markdown_html(readme@),
{
    ::markdown::to_html(readme)
}

/// An album's page: the album template with the album's name, the address of
/// its cover image and its readme rendered as HTML.
pub open spec fn album_page_of(template: Seq<char>, album: Album, readme: Seq<char>) -> Seq<
    char,
> {
    fill(
        fill(fill(template, "NAME"@, album.name@), "COVER"@, album.host_path@ + "/cover"@),
        "README"@,
        markdown_html(readme),
    )
}

/// Writes an album's page from the album template and the album's readme.
pub fn album_page(template: &str, album: &Album, readme: &str) -> (res: String)
    ensures
        res@ == album_page_of(template@, *album, readme@),
{
    let page = fill_template(template, "NAME", album.name.as_str());
    let cover = cover_url(album.host_path.as_str());
    let page = fill_template(page.as_str(), "COVER", cover.as_str());
    let html = readme_html(readme);
    fill_template(page.as_str(), "README", html.as_str())
}

/// The index page: the index template with the list of the albums.
pub open spec fn index_page_of(template: Seq<char>, albums: Seq<Album>) -> Seq<char> {
    fill(template, "ALBUMS"@, album_list_of(albums))
}

/// Writes the index page from the index template.
pub fn index_page(template: &str, albums: &Vec<Album>) -> (res: String)
    ensures
        res@ == index_page_of(template@, albums@),
{
    let list = album_list(albums);
    fill_template(template, "ALBUMS", list.as_str())
}

/// The not-found page: the template with the server's version and the path
/// that was asked for.
pub open spec fn not_found_page_of(template: Seq<char>, version: Seq<char>, page: Seq<char>) -> Seq<
    char,
> {
    fill(fill(template, "VERSION"@, version), "PAGE"@, page)
}

/// Writes the not-found page for a path.
pub fn not_found_page(template: &str, version: &str, page: &str) -> (res: String)
    ensures
        res@ == not_found_page_of(template@, version@, page@),
{
    let text = fill_template(template, "VERSION", version);
    fill_template(text.as_str(), "PAGE", page)
}

} // verus!
