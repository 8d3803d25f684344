//! Static files: which file a request names, kept inside the data directory,
//! and its content type.
use vstd::prelude::*;
use crate::text::{
    chars_of, contains_char, find, find_from_exec, free_of, lemma_find_from,
    lemma_split_on_nonempty, lemma_split_on_append, occurs_at, replace_all, replace_all_exec, same_text, split_on,
    split_on_exec, starts_with, string_of, lemma_last_piece,
};

verus! {

/// The parent-directory step `/..`.
pub open spec fn up_step() -> Seq<char> {
    seq!['/', '.', '.']
}

/// Removing the occurrences of a non-empty `p` never lengthens a text, and
/// shortens it where `p` occurs.
pub proof fn lemma_replace_shrinks(s: Seq<char>, p: Seq<char>)
    requires
        p.len() > 0,
    ensures
        replace_all(s, p, Seq::empty()).len() <= s.len(),
        find(s, p) is Some ==> replace_all(s, p, Seq::empty()).len() < s.len(),
    decreases s.len(),
{
    if s.len() == 0 {
        lemma_find_from(s, p, 0);
    } else if starts_with(s, p) {
        lemma_replace_shrinks(s.skip(p.len() as int), p);
    } else {
        lemma_replace_shrinks(s.skip(1), p);
        if find(s, p) is Some {
            lemma_find_from(s, p, 0);
            lemma_find_from(s.skip(1), p, 0);
            let j = find(s, p).unwrap();
            assert(j != 0) by {
                if j == 0 {
                    assert(s.subrange(0, p.len() as int) == p);
                }
            }
            assert(s.skip(1).subrange(j - 1, j - 1 + p.len()) =~= s.subrange(j, j + p.len()));
            assert(occurs_at(s.skip(1), p, j - 1));
        }
    }
}

/// A request path with every `/..` removed, again and again until none is left.
pub open spec fn safe_path_of(p: Seq<char>) -> Seq<char>
    decreases p.len(),
{
    if find(p, up_step()) is Some {
        proof {
            lemma_replace_shrinks(p, up_step());
        }
        safe_path_of(replace_all(p, up_step(), Seq::empty()))
    } else {
        p
    }
}

/// Removes every `/..` from a request path, again and again until none is left.
pub fn safe_path(path: String) -> (res: String)
    ensures
        res@ == safe_path_of(path@),
        find(res@, up_step()) is None,
{
    let dots = chars_of("/..");
    proof {
        reveal_strlit("/..");
        assert(dots@ =~= up_step());
    }
    let empty: Vec<char> = Vec::new();
    let mut p = chars_of(path.as_str());
    while find_from_exec(&p, &dots, 0).is_some()
        invariant
            dots@ == up_step(),
            empty@ == Seq::<char>::empty(),
            safe_path_of(path@) == safe_path_of(p@),
        decreases p@.len(),
    {
        proof {
            lemma_replace_shrinks(p@, dots@);
        }
        p = replace_all_exec(&p, &dots, &empty);
    }
    string_of(&p)
}

/// The content type of a file, by what follows the last `.` of its path (all
/// of it where it has none).
pub open spec fn content_type_of(path: Seq<char>) -> Seq<char> {
    let ext = split_on(path, '.').last();
    if ext == "html"@ {
        "text/html"@
    } else if ext == "css"@ {
        "text/css"@
    } else if ext == "js"@ {
        "application/javascript"@
    } else if ext == "png"@ {
        "image/png"@
    } else if ext == "jpg"@ {
        "image/jpeg"@
    } else if ext == "jpeg"@ {
        "image/jpeg"@
    } else if ext == "gif"@ {
        "image/gif"@
    } else if ext == "ico"@ {
        "image/x-icon"@
    } else if ext == "svg"@ {
        "image/svg+xml"@
    } else if ext == "txt"@ {
        "text/plain"@
    } else if ext == "bmp"@ {
        "image/bmp"@
    } else if ext == "tif"@ {
        "image/tiff"@
    } else if ext == "tiff"@ {
        "image/tiff"@
    } else if ext == "webp"@ {
        "image/webp"@
    } else {
        "application/octet-stream"@
    }
}

/// Each extension of the table gives its own content type, whatever the path
/// before its last `.`.
pub proof fn lemma_content_type_by_extension(p: Seq<char>)
    ensures
        content_type_of(p + seq!['.'] + "html"@) == "text/html"@,
        content_type_of(p + seq!['.'] + "css"@) == "text/css"@,
        content_type_of(p + seq!['.'] + "js"@) == "application/javascript"@,
        content_type_of(p + seq!['.'] + "png"@) == "image/png"@,
        content_type_of(p + seq!['.'] + "jpg"@) == "image/jpeg"@,
        content_type_of(p + seq!['.'] + "jpeg"@) == "image/jpeg"@,
        content_type_of(p + seq!['.'] + "gif"@) == "image/gif"@,
        content_type_of(p + seq!['.'] + "ico"@) == "image/x-icon"@,
        content_type_of(p + seq!['.'] + "svg"@) == "image/svg+xml"@,
        content_type_of(p + seq!['.'] + "txt"@) == "text/plain"@,
        content_type_of(p + seq!['.'] + "bmp"@) == "image/bmp"@,
        content_type_of(p + seq!['.'] + "tif"@) == "image/tiff"@,
        content_type_of(p + seq!['.'] + "tiff"@) == "image/tiff"@,
        content_type_of(p + seq!['.'] + "webp"@) == "image/webp"@,
{
    assert(content_type_of(p + seq!['.'] + "html"@) == "text/html"@) by {
        reveal_strlit("html");
        lemma_last_piece(p, "html"@, '.');
    }
    assert(content_type_of(p + seq!['.'] + "css"@) == "text/css"@) by {
        reveal_strlit("css");
        lemma_last_piece(p, "css"@, '.');
        reveal_strlit("html");
        assert("css"@.len() != "html"@.len());
    }
    assert(content_type_of(p + seq!['.'] + "js"@) == "application/javascript"@) by {
        reveal_strlit("js");
        lemma_last_piece(p, "js"@, '.');
        reveal_strlit("html");
        assert("js"@.len() != "html"@.len());
        reveal_strlit("css");
        assert("js"@.len() != "css"@.len());
    }
    assert(content_type_of(p + seq!['.'] + "png"@) == "image/png"@) by {
        reveal_strlit("png");
        lemma_last_piece(p, "png"@, '.');
        reveal_strlit("html");
        assert("png"@.len() != "html"@.len());
        reveal_strlit("css");
        assert("png"@[0] != "css"@[0]);
        reveal_strlit("js");
        assert("png"@.len() != "js"@.len());
    }
    assert(content_type_of(p + seq!['.'] + "jpg"@) == "image/jpeg"@) by {
        reveal_strlit("jpg");
        lemma_last_piece(p, "jpg"@, '.');
        reveal_strlit("html");
        assert("jpg"@.len() != "html"@.len());
        reveal_strlit("css");
        assert("jpg"@[0] != "css"@[0]);
        reveal_strlit("js");
        assert("jpg"@.len() != "js"@.len());
        reveal_strlit("png");
        assert("jpg"@[0] != "png"@[0]);
    }
    assert(content_type_of(p + seq!['.'] + "jpeg"@) == "image/jpeg"@) by {
        reveal_strlit("jpeg");
        lemma_last_piece(p, "jpeg"@, '.');
        reveal_strlit("html");
        assert("jpeg"@[0] != "html"@[0]);
        reveal_strlit("css");
        assert("jpeg"@.len() != "css"@.len());
        reveal_strlit("js");
        assert("jpeg"@.len() != "js"@.len());
        reveal_strlit("png");
        assert("jpeg"@.len() != "png"@.len());
        reveal_strlit("jpg");
        assert("jpeg"@.len() != "jpg"@.len());
    }
    assert(content_type_of(p + seq!['.'] + "gif"@) == "image/gif"@) by {
        reveal_strlit("gif");
        lemma_last_piece(p, "gif"@, '.');
        reveal_strlit("html");
        assert("gif"@.len() != "html"@.len());
        reveal_strlit("css");
        assert("gif"@[0] != "css"@[0]);
        reveal_strlit("js");
        assert("gif"@.len() != "js"@.len());
        reveal_strlit("png");
        assert("gif"@[0] != "png"@[0]);
        reveal_strlit("jpg");
        assert("gif"@[0] != "jpg"@[0]);
        reveal_strlit("jpeg");
        assert("gif"@.len() != "jpeg"@.len());
    }
    assert(content_type_of(p + seq!['.'] + "ico"@) == "image/x-icon"@) by {
        reveal_strlit("ico");
        lemma_last_piece(p, "ico"@, '.');
        reveal_strlit("html");
        assert("ico"@.len() != "html"@.len());
        reveal_strlit("css");
        assert("ico"@[0] != "css"@[0]);
        reveal_strlit("js");
        assert("ico"@.len() != "js"@.len());
        reveal_strlit("png");
        assert("ico"@[0] != "png"@[0]);
        reveal_strlit("jpg");
        assert("ico"@[0] != "jpg"@[0]);
        reveal_strlit("jpeg");
        assert("ico"@.len() != "jpeg"@.len());
        reveal_strlit("gif");
        assert("ico"@[0] != "gif"@[0]);
    }
    assert(content_type_of(p + seq!['.'] + "svg"@) == "image/svg+xml"@) by {
        reveal_strlit("svg");
        lemma_last_piece(p, "svg"@, '.');
        reveal_strlit("html");
        assert("svg"@.len() != "html"@.len());
        reveal_strlit("css");
        assert("svg"@[0] != "css"@[0]);
        reveal_strlit("js");
        assert("svg"@.len() != "js"@.len());
        reveal_strlit("png");
        assert("svg"@[0] != "png"@[0]);
        reveal_strlit("jpg");
        assert("svg"@[0] != "jpg"@[0]);
        reveal_strlit("jpeg");
        assert("svg"@.len() != "jpeg"@.len());
        reveal_strlit("gif");
        assert("svg"@[0] != "gif"@[0]);
        reveal_strlit("ico");
        assert("svg"@[0] != "ico"@[0]);
    }
    assert(content_type_of(p + seq!['.'] + "txt"@) == "text/plain"@) by {
        reveal_strlit("txt");
        lemma_last_piece(p, "txt"@, '.');
        reveal_strlit("html");
        assert("txt"@.len() != "html"@.len());
        reveal_strlit("css");
        assert("txt"@[0] != "css"@[0]);
        reveal_strlit("js");
        assert("txt"@.len() != "js"@.len());
        reveal_strlit("png");
        assert("txt"@[0] != "png"@[0]);
        reveal_strlit("jpg");
        assert("txt"@[0] != "jpg"@[0]);
        reveal_strlit("jpeg");
        assert("txt"@.len() != "jpeg"@.len());
        reveal_strlit("gif");
        assert("txt"@[0] != "gif"@[0]);
        reveal_strlit("ico");
        assert("txt"@[0] != "ico"@[0]);
        reveal_strlit("svg");
        assert("txt"@[0] != "svg"@[0]);
    }
    assert(content_type_of(p + seq!['.'] + "bmp"@) == "image/bmp"@) by {
        reveal_strlit("bmp");
        lemma_last_piece(p, "bmp"@, '.');
        reveal_strlit("html");
        assert("bmp"@.len() != "html"@.len());
        reveal_strlit("css");
        assert("bmp"@[0] != "css"@[0]);
        reveal_strlit("js");
        assert("bmp"@.len() != "js"@.len());
        reveal_strlit("png");
        assert("bmp"@[0] != "png"@[0]);
        reveal_strlit("jpg");
        assert("bmp"@[0] != "jpg"@[0]);
        reveal_strlit("jpeg");
        assert("bmp"@.len() != "jpeg"@.len());
        reveal_strlit("gif");
        assert("bmp"@[0] != "gif"@[0]);
        reveal_strlit("ico");
        assert("bmp"@[0] != "ico"@[0]);
        reveal_strlit("svg");
        assert("bmp"@[0] != "svg"@[0]);
        reveal_strlit("txt");
        assert("bmp"@[0] != "txt"@[0]);
    }
    assert(content_type_of(p + seq!['.'] + "tif"@) == "image/tiff"@) by {
        reveal_strlit("tif");
        lemma_last_piece(p, "tif"@, '.');
        reveal_strlit("html");
        assert("tif"@.len() != "html"@.len());
        reveal_strlit("css");
        assert("tif"@[0] != "css"@[0]);
        reveal_strlit("js");
        assert("tif"@.len() != "js"@.len());
        reveal_strlit("png");
        assert("tif"@[0] != "png"@[0]);
        reveal_strlit("jpg");
        assert("tif"@[0] != "jpg"@[0]);
        reveal_strlit("jpeg");
        assert("tif"@.len() != "jpeg"@.len());
        reveal_strlit("gif");
        assert("tif"@[0] != "gif"@[0]);
        reveal_strlit("ico");
        assert("tif"@[0] != "ico"@[0]);
        reveal_strlit("svg");
        assert("tif"@[0] != "svg"@[0]);
        reveal_strlit("txt");
        assert("tif"@[1] != "txt"@[1]);
        reveal_strlit("bmp");
        assert("tif"@[0] != "bmp"@[0]);
    }
    assert(content_type_of(p + seq!['.'] + "tiff"@) == "image/tiff"@) by {
        reveal_strlit("tiff");
        lemma_last_piece(p, "tiff"@, '.');
        reveal_strlit("html");
        assert("tiff"@[0] != "html"@[0]);
        reveal_strlit("css");
        assert("tiff"@.len() != "css"@.len());
        reveal_strlit("js");
        assert("tiff"@.len() != "js"@.len());
        reveal_strlit("png");
        assert("tiff"@.len() != "png"@.len());
        reveal_strlit("jpg");
        assert("tiff"@.len() != "jpg"@.len());
        reveal_strlit("jpeg");
        assert("tiff"@[0] != "jpeg"@[0]);
        reveal_strlit("gif");
        assert("tiff"@.len() != "gif"@.len());
        reveal_strlit("ico");
        assert("tiff"@.len() != "ico"@.len());
        reveal_strlit("svg");
        assert("tiff"@.len() != "svg"@.len());
        reveal_strlit("txt");
        assert("tiff"@.len() != "txt"@.len());
        reveal_strlit("bmp");
        assert("tiff"@.len() != "bmp"@.len());
        reveal_strlit("tif");
        assert("tiff"@.len() != "tif"@.len());
    }
    assert(content_type_of(p + seq!['.'] + "webp"@) == "image/webp"@) by {
        reveal_strlit("webp");
        lemma_last_piece(p, "webp"@, '.');
        reveal_strlit("html");
        assert("webp"@[0] != "html"@[0]);
        reveal_strlit("css");
        assert("webp"@.len() != "css"@.len());
        reveal_strlit("js");
        assert("webp"@.len() != "js"@.len());
        reveal_strlit("png");
        assert("webp"@.len() != "png"@.len());
        reveal_strlit("jpg");
        assert("webp"@.len() != "jpg"@.len());
        reveal_strlit("jpeg");
        assert("webp"@[0] != "jpeg"@[0]);
        reveal_strlit("gif");
        assert("webp"@.len() != "gif"@.len());
        reveal_strlit("ico");
        assert("webp"@.len() != "ico"@.len());
        reveal_strlit("svg");
        assert("webp"@.len() != "svg"@.len());
        reveal_strlit("txt");
        assert("webp"@.len() != "txt"@.len());
        reveal_strlit("bmp");
        assert("webp"@.len() != "bmp"@.len());
        reveal_strlit("tif");
        assert("webp"@.len() != "tif"@.len());
        reveal_strlit("tiff");
        assert("webp"@[0] != "tiff"@[0]);
    }
}

/// An extension outside the table, or a path without a `.` that is not one
/// of the table's extensions, gives `application/octet-stream`.
pub proof fn lemma_content_type_unknown(p: Seq<char>, e: Seq<char>)
    requires
        free_of(e, '.'),
        e != "html"@,
        e != "css"@,
        e != "js"@,
        e != "png"@,
        e != "jpg"@,
        e != "jpeg"@,
        e != "gif"@,
        e != "ico"@,
        e != "svg"@,
        e != "txt"@,
        e != "bmp"@,
        e != "tif"@,
        e != "tiff"@,
        e != "webp"@,
    ensures
        content_type_of(p + seq!['.'] + e) == "application/octet-stream"@,
{
    lemma_last_piece(p, e, '.');
}

/// The content type of a file, by its extension.
pub fn get_type(path: &str) -> (res: &'static str)
    ensures
        res@ == content_type_of(path@),
{
    let chars = chars_of(path);
    let parts = split_on_exec(&chars, '.');
    proof {
        lemma_split_on_nonempty(chars@, '.');
    }
    let last = string_of(&parts[parts.len() - 1]);
    let ext = last.as_str();
    if same_text(ext, "html") {
        "text/html"
    } else if same_text(ext, "css") {
        "text/css"
    } else if same_text(ext, "js") {
        "application/javascript"
    } else if same_text(ext, "png") {
        "image/png"
    } else if same_text(ext, "jpg") {
        "image/jpeg"
    } else if same_text(ext, "jpeg") {
        "image/jpeg"
    } else if same_text(ext, "gif") {
        "image/gif"
    } else if same_text(ext, "ico") {
        "image/x-icon"
    } else if same_text(ext, "svg") {
        "image/svg+xml"
    } else if same_text(ext, "txt") {
        "text/plain"
    } else if same_text(ext, "bmp") {
        "image/bmp"
    } else if same_text(ext, "tif") {
        "image/tiff"
    } else if same_text(ext, "tiff") {
        "image/tiff"
    } else if same_text(ext, "webp") {
        "image/webp"
    } else {
        "application/octet-stream"
    }
}

/// The file a static request names: the data directory followed by the
/// request path without `/..`, with `index.html` added where the path ends
/// in `/`, and `/index.html` added where its last segment has no `.`.
pub open spec fn static_file_of(req_path: Seq<char>) -> Seq<char> {
    let p1 = "./data/static"@ + safe_path_of(req_path);
    let p2 = if p1.len() > 0 && p1.last() == '/' {
        p1 + "index.html"@
    } else {
        p1
    };
    if free_of(split_on(p2, '/').last(), '.') {
        p2 + "/index.html"@
    } else {
        p2
    }
}

/// The file a static request names; its last segment always holds a `.`.
pub fn static_file_path(req_path: &str) -> (res: String)
    ensures
        res@ == static_file_of(req_path@),
        !free_of(split_on(res@, '/').last(), '.'),
{
    let mut path = String::new();
    path.append("./data/static");
    let safe = safe_path(String::from_str(req_path));
    path.append(safe.as_str());
    let chars = chars_of(path.as_str());
    if chars.len() > 0 && chars[chars.len() - 1] == '/' {
        path.append("index.html");
    }
    let chars = chars_of(path.as_str());
    let parts = split_on_exec(&chars, '/');
    proof {
        lemma_split_on_nonempty(chars@, '/');
    }
    if !contains_char(&parts[parts.len() - 1], '.') {
        let ghost before = path@;
        path.append("/index.html");
        proof {
            reveal_strlit("/index.html");
            reveal_strlit("index.html");
            let name = "index.html"@;
            assert(free_of(name, '/'));
            assert(path@ =~= before + seq!['/'] + name);
            lemma_split_on_append(before, name, '/');
            assert(name[5] == '.');
        }
    }
    path
}

} // verus!
