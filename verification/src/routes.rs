//! Request handling: which album page a path asks for, the names and types of
//! requested images, the photo listing, the index list, and the request log line.
use vstd::prelude::*;
use crate::album::Album;
use crate::text::{
    chars_of, concat, decimal, decimal_exec, join, lowercase, push_char, push_chars,
    replace_all, replace_all_exec, same_chars, same_text, split_on, split_on_exec, starts_with,
    starts_with_exec, string_of, to_lowercase, after_first_or_all, after_first_or_all_exec,
    lemma_split_on_nonempty, free_of, occurs_at, find, lemma_find_from_is, lemma_last_piece,
    lemma_replace_join,
};

verus! {

/// The image formats served in photo listings.
pub open spec fn is_image_format(ext: Seq<char>) -> bool {
    ext == "png"@ || ext == "jpg"@ || ext == "jpeg"@
}

/// The content type of an image, by its lower-case extension.
pub open spec fn image_type_of(ext: Seq<char>) -> Seq<char> {
    if ext == "png"@ {
        "image/png"@
    } else if ext == "jpg"@ || ext == "jpeg"@ {
        "image/jpeg"@
    } else {
        ""@
    }
}

/// The content type for an already lower-cased extension.
pub fn image_type_of_lower(ext: &str) -> (res: &'static str)
    ensures
        res@ == image_type_of(ext@),
{
    if same_text(ext, "png") {
        "image/png"
    } else if same_text(ext, "jpg") || same_text(ext, "jpeg") {
        "image/jpeg"
    } else {
        ""
    }
}

/// The content type of an image, by its extension in any case.
pub fn image_type(ending: &str) -> (res: &'static str)
    ensures
        res@ == image_type_of(lowercase(ending@)),
{
    let lower = to_lowercase(ending);
    image_type_of_lower(lower.as_str())
}

/// `s` padded on the left with zeros to `w` characters.
pub open spec fn zero_pad(s: Seq<char>, w: nat) -> Seq<char> {
    if s.len() >= w {
        s
    } else {
        Seq::new((w - s.len()) as nat, |i: int| '0') + s
    }
}

/// `s` padded on the right with spaces to `w` characters.
pub open spec fn space_pad(s: Seq<char>, w: nat) -> Seq<char> {
    if s.len() >= w {
        s
    } else {
        s + Seq::new((w - s.len()) as nat, |i: int| ' ')
    }
}

/// A duration with its unit: at least three digits, and the unit in two columns.
pub open spec fn timed(t: nat, unit: Seq<char>) -> Seq<char> {
    zero_pad(decimal(t), 3) + space_pad(unit, 2)
}

/// A duration in microseconds, written in microseconds, milliseconds or
/// seconds: the first unit in which it is below a thousand, and where it is
/// not below a thousand seconds, the seconds divided by a thousand once more.
pub open spec fn time_unit_of(t: nat) -> Seq<char> {
    let a = t / 1000;
    let b = a / 1000;
    let c = b / 1000;
    if t < 1000 {
        timed(t, "\u{3bc}s"@)
    } else if a < 1000 {
        timed(a, "ms"@)
    } else if b < 1000 {
        timed(b, "s"@)
    } else {
        timed(c, "s"@)
    }
}

/// Writes a duration with its unit.
fn timed_exec(t: u128, unit: &str) -> (res: String)
    ensures
        res@ == timed(t as nat, unit@),
{
    let digits = decimal_exec(t);
    let mut res = String::new();
    let mut pad = digits.len();
    let ghost start = res@;
    while pad < 3
        invariant
            digits@.len() <= pad <= 3 || (pad == digits@.len() && pad >= 3),
            res@ == Seq::new((pad - digits@.len()) as nat, |i: int| '0'),
        decreases 3 - pad,
    {
        push_char(&mut res, '0');
        assert(res@ =~= Seq::new((pad + 1 - digits@.len()) as nat, |i: int| '0'));
        pad += 1;
    }
    push_chars(&mut res, &digits);
    assert(res@ =~= zero_pad(decimal(t as nat), 3));
    let ghost head = res@;
    res.append(unit);
    let mut width = chars_of(unit).len();
    while width < 2
        invariant
            unit@.len() <= width <= 2 || (width == unit@.len() && width >= 2),
            res@ == head + unit@ + Seq::new((width - unit@.len()) as nat, |i: int| ' '),
        decreases 2 - width,
    {
        push_char(&mut res, ' ');
        assert(res@ =~= head + unit@ + Seq::new((width + 1 - unit@.len()) as nat, |i: int| ' '));
        width += 1;
    }
    assert(res@ =~= head + space_pad(unit@, 2));
    res
}

/// Writes a duration given in microseconds for the request log.
pub fn time_unit(time: u128) -> (res: String)
    ensures
        res@ == time_unit_of(time as nat),
{
    let mut time = time;
    if time < 1000 {
        return timed_exec(time, "\u{3bc}s");
    }
    time = time / 1000;
    if time < 1000 {
        return timed_exec(time, "ms");
    }
    time = time / 1000;
    if time < 1000 {
        return timed_exec(time, "s");
    }
    time = time / 1000;
    timed_exec(time, "s")
}

/// The color code of a path segment in the request log: blue for the album
/// sub-pages, yellow otherwise.
pub open spec fn segment_color(seg: Seq<char>) -> Seq<char> {
    if seg == "photos"@ || seg == "cover"@ || seg == "photo"@ || seg == "thumb"@ {
        "34"@
    } else {
        "33"@
    }
}

/// A colored path segment after the first.
pub open spec fn colored_segment(seg: Seq<char>) -> Seq<char> {
    "\x1b["@ + segment_color(seg) + "m/"@ + seg
}

/// The request path as the log shows it: `%20` turned into spaces, the first
/// segment after the leading `/` in green and the following ones colored;
/// `None` where the path holds no `/`.
pub open spec fn path_str_of(path: Seq<char>) -> Option<Seq<char>> {
    let s = replace_all(path, "%20"@, " "@);
    let ps = split_on(s, '/');
    if ps.len() < 2 {
        None
    } else {
        Some(
            "\x1b[32m/"@ + ps[1] + concat(ps.skip(2).map_values(|g: Seq<char>| colored_segment(g)))
                + "\x1b[0m"@,
        )
    }
}

/// Writes a request path for the request log.
pub fn path_str(path: String) -> (res: Option<String>)
    ensures
        match res {
            Some(r) => path_str_of(path@) == Some(r@),
            None => path_str_of(path@) is None,
        },
{
    let p = chars_of(path.as_str());
    let pat = chars_of("%20");
    let space = chars_of(" ");
    proof {
        reveal_strlit("%20");
    }
    let s = replace_all_exec(&p, &pat, &space);
    let parts = split_on_exec(&s, '/');
    let ghost pv = parts@.map_values(|v: Vec<char>| v@);
    if parts.len() < 2 {
        return None;
    }
    let mut new_path = String::new();
    new_path.append("\x1b[32m/");
    push_chars(&mut new_path, &parts[1]);
    let ghost rest = pv.skip(2).map_values(|g: Seq<char>| colored_segment(g));
    let ghost head = new_path@;
    let mut i: usize = 2;
    assert(rest.take(0) =~= Seq::<Seq<char>>::empty());
    while i < parts.len()
        invariant
            2 <= i <= parts@.len(),
            pv == parts@.map_values(|v: Vec<char>| v@),
            rest == pv.skip(2).map_values(|g: Seq<char>| colored_segment(g)),
            new_path@ == head + concat(rest.take(i - 2)),
        decreases parts@.len() - i,
    {
        let seg = string_of(&parts[i]);
        new_path.append("\x1b[");
        if same_text(seg.as_str(), "photos") || same_text(seg.as_str(), "cover") || same_text(
            seg.as_str(),
            "photo",
        ) || same_text(seg.as_str(), "thumb") {
            new_path.append("34");
        } else {
            new_path.append("33");
        }
        new_path.append("m/");
        new_path.append(seg.as_str());
        proof {
            assert(rest.take(i - 1).drop_last() =~= rest.take(i - 2));
            assert(rest.take(i - 1).last() == colored_segment(pv[i as int]));
            assert(new_path@ =~= head + concat(rest.take(i - 1)));
        }
        i += 1;
    }
    assert(rest.take(i - 2) =~= rest);
    new_path.append("\x1b[0m");
    Some(new_path)
}

/// What a request path asks for: a page of the album at the given position.
#[derive(Clone, Copy, Debug, PartialEq, Eq, Structural)]
pub enum Route {
    Page(usize),
    Photos(usize),
    Cover(usize),
    Photo(usize),
    Preview(usize),
    Thumb(usize),
    NotFound,
}

/// What a lower-cased path asks of one album, if anything: its page, its
/// photo list, its cover, or one of its photos, previews or thumbnails.
pub open spec fn album_route(p: Seq<char>, host: Seq<char>, k: usize) -> Option<Route> {
    if p == host {
        Some(Route::Page(k))
    } else if p == host + "/photos"@ {
        Some(Route::Photos(k))
    } else if p == host + "/cover"@ {
        Some(Route::Cover(k))
    } else if starts_with(p, host + "/photo/"@) {
        Some(Route::Photo(k))
    } else if starts_with(p, host + "/preview/"@) {
        Some(Route::Preview(k))
    } else if starts_with(p, host + "/thumb/"@) {
        Some(Route::Thumb(k))
    } else {
        None
    }
}

/// What a lower-cased path asks for: the first album, from position `k` on,
/// that it asks something of.
pub open spec fn route_from(p: Seq<char>, albums: Seq<Album>, k: int) -> Route
    decreases albums.len() - k,
{
    if k < 0 || k >= albums.len() {
        Route::NotFound
    } else {
        match album_route(p, albums[k].host_path@, k as usize) {
            Some(r) => r,
            None => route_from(p, albums, k + 1),
        }
    }
}

/// What a request asks for: nothing where it is not a GET or the albums are
/// not loaded; otherwise the route of its lower-cased path.
pub open spec fn middleware_of(is_get: bool, path: Seq<char>, albums: Option<Seq<Album>>) -> Option<
    Route,
> {
    if !is_get {
        None
    } else {
        match albums {
            None => None,
            Some(a) => Some(route_from(lowercase(path), a, 0)),
        }
    }
}

/// The characters of `a` followed by those of `b`.
fn cat(a: &Vec<char>, b: &str) -> (res: Vec<char>)
    ensures
        res@ == a@ + b@,
{
    let mut res = a.clone();
    let bs = chars_of(b);
    let mut i: usize = 0;
    while i < bs.len()
        invariant
            i <= bs@.len(),
            res@ == a@ + bs@.take(i as int),
        decreases bs@.len() - i,
    {
        res.push(bs[i]);
        assert(bs@.take(i + 1) =~= bs@.take(i as int).push(bs@[i as int]));
        i += 1;
    }
    assert(bs@.take(bs@.len() as int) =~= bs@);
    res
}

/// What a lower-cased path asks of one album.
fn album_route_exec(p: &Vec<char>, host: &str, k: usize) -> (res: Option<Route>)
    ensures
        res == album_route(p@, host@, k),
{
    let h = chars_of(host);
    if same_chars(p, &h) {
        return Some(Route::Page(k));
    }
    if same_chars(p, &cat(&h, "/photos")) {
        return Some(Route::Photos(k));
    }
    if same_chars(p, &cat(&h, "/cover")) {
        return Some(Route::Cover(k));
    }
    if starts_with_exec(p, &cat(&h, "/photo/")) {
        return Some(Route::Photo(k));
    }
    if starts_with_exec(p, &cat(&h, "/preview/")) {
        return Some(Route::Preview(k));
    }
    if starts_with_exec(p, &cat(&h, "/thumb/")) {
        return Some(Route::Thumb(k));
    }
    None
}

/// What an already lower-cased path asks for.
pub fn route_lower(path: &str, albums: &Vec<Album>) -> (res: Route)
    ensures
        res == route_from(path@, albums@, 0),
{
    let p = chars_of(path);
    let mut k: usize = 0;
    while k < albums.len()
        invariant
            k <= albums@.len(),
            p@ == path@,
            route_from(path@, albums@, 0) == route_from(path@, albums@, k as int),
        decreases albums@.len() - k,
    {
        match album_route_exec(&p, albums[k].host_path.as_str(), k) {
            Some(r) => return r,
            None => {},
        }
        k += 1;
    }
    Route::NotFound
}

/// What a request asks for, given whether it is a GET, its path, and the
/// loaded albums.
pub fn middleware(is_get: bool, path: &str, albums: Option<&Vec<Album>>) -> (res: Option<Route>)
    ensures
        res == middleware_of(
            is_get,
            path@,
            match albums {
                Some(a) => Some(a@),
                None => None,
            },
        ),
{
    if !is_get {
        return None;
    }
    let albums = match albums {
        Some(a) => a,
        None => return None,
    };
    let lower = to_lowercase(path);
    Some(route_lower(lower.as_str(), albums))
}

/// The file a photo, preview or thumbnail request names: what follows the
/// first `marker` in the path (the whole path where it has none), with `%20`
/// turned into spaces.
pub open spec fn request_file_name_of(path: Seq<char>, marker: Seq<char>) -> Seq<char> {
    replace_all(after_first_or_all(path, marker), "%20"@, " "@)
}

/// The file name a request gives reads every `%20` as a space: where the path
/// is some text `a`, the marker, and pieces without `%` joined by `%20`, and
/// the marker first occurs right after `a`, the name is those pieces joined by
/// spaces.
pub proof fn lemma_request_file_name_spaces(
    a: Seq<char>,
    marker: Seq<char>,
    ps: Seq<Seq<char>>,
)
    requires
        ps.len() >= 1,
        forall|i: int| 0 <= i < ps.len() ==> free_of(#[trigger] ps[i], '%'),
        forall|i: int|
            0 <= i < a.len() ==> !occurs_at(a + marker + join(ps, "%20"@), marker, i),
    ensures
        request_file_name_of(a + marker + join(ps, "%20"@), marker) == join(ps, " "@),
{
    reveal_strlit("%20");
    let path = a + marker + join(ps, "%20"@);
    assert(path.subrange(a.len() as int, (a.len() + marker.len()) as int) =~= marker);
    assert(occurs_at(path, marker, a.len() as int));
    lemma_find_from_is(path, marker, 0, a.len() as int);
    assert(path.skip((a.len() + marker.len()) as int) =~= join(ps, "%20"@));
    assert("%20"@[0] == '%');
    lemma_replace_join(ps, "%20"@, " "@);
}

/// Where the marker does not occur in the path, the file name is the whole
/// path with every `%20` read as a space.
pub proof fn lemma_request_file_name_without_marker(marker: Seq<char>, ps: Seq<Seq<char>>)
    requires
        ps.len() >= 1,
        forall|i: int| 0 <= i < ps.len() ==> free_of(#[trigger] ps[i], '%'),
        forall|i: int| !occurs_at(join(ps, "%20"@), marker, i),
    ensures
        request_file_name_of(join(ps, "%20"@), marker) == join(ps, " "@),
{
    reveal_strlit("%20");
    crate::text::lemma_find_from(join(ps, "%20"@), marker, 0);
    assert("%20"@[0] == '%');
    lemma_replace_join(ps, "%20"@, " "@);
}

/// No `%20` is left in the file name a request gives.
pub proof fn lemma_request_file_name_no_escape(path: Seq<char>, marker: Seq<char>)
    ensures
        forall|q: int| !occurs_at(request_file_name_of(path, marker), "%20"@, q),
{
    reveal_strlit("%20");
    reveal_strlit(" ");
    assert forall|i: int| 0 <= i < " "@.len() implies free_of("%20"@, #[trigger] " "@[i]) by {}
    crate::text::lemma_replace_leaves_none(after_first_or_all(path, marker), "%20"@, " "@);
}

/// The file a photo, preview or thumbnail request names.
pub fn request_file_name(path: &str, marker: &str) -> (res: String)
    ensures
        res@ == request_file_name_of(path@, marker@),
{
    let p = chars_of(path);
    let m = chars_of(marker);
    let rest = after_first_or_all_exec(&p, &m);
    let pat = chars_of("%20");
    let space = chars_of(" ");
    proof {
        reveal_strlit("%20");
    }
    let name = replace_all_exec(&rest, &pat, &space);
    string_of(&name)
}

/// A file name is listed as a photo when what follows its last `.` (all of
/// it where it has none), lower-cased, is an image format.
pub open spec fn is_photo_name(name: Seq<char>) -> bool {
    is_image_format(lowercase(split_on(name, '.').last()))
}

/// A name is a photo by what follows its last `.` alone: `n.e`, where `e`
/// holds no `.`, is listed exactly when `e` lower-cased is `png`, `jpg` or
/// `jpeg`, whatever dots `n` holds; a name without a `.` goes by all of it.
pub proof fn lemma_photo_by_last_extension(n: Seq<char>, e: Seq<char>)
    requires
        free_of(e, '.'),
    ensures
        is_photo_name(n + seq!['.'] + e) == (lowercase(e) == "png"@ || lowercase(e) == "jpg"@
            || lowercase(e) == "jpeg"@),
        is_photo_name(e) == (lowercase(e) == "png"@ || lowercase(e) == "jpg"@ || lowercase(e)
            == "jpeg"@),
{
    lemma_last_piece(n, e, '.');
    crate::text::lemma_split_on_free(e, '.');
}

/// The file names that are photos, in order.
pub fn photo_names(names: &Vec<String>) -> (res: Vec<String>)
    ensures
        res@.map_values(|s: String| s@) == names@.map_values(|s: String| s@).filter(
            |n: Seq<char>| is_photo_name(n),
        ),
{
    let ghost nv = names@.map_values(|s: String| s@);
    let ghost keep = |n: Seq<char>| is_photo_name(n);
    let mut res: Vec<String> = Vec::new();
    let mut i: usize = 0;
    assert(nv.take(0) =~= Seq::<Seq<char>>::empty());
    assert(Seq::<Seq<char>>::empty().filter(keep) =~= Seq::<Seq<char>>::empty()) by {
        reveal(Seq::filter);
    }
    while i < names.len()
        invariant
            i <= names@.len(),
            nv == names@.map_values(|s: String| s@),
            keep == (|n: Seq<char>| is_photo_name(n)),
            res@.map_values(|s: String| s@) == nv.take(i as int).filter(keep),
        decreases names@.len() - i,
    {
        let name = &names[i];
        let chars = chars_of(name.as_str());
        let parts = split_on_exec(&chars, '.');
        proof {
            lemma_split_on_nonempty(chars@, '.');
        }
        let last = string_of(&parts[parts.len() - 1]);
        let ext = to_lowercase(last.as_str());
        let take = same_text(ext.as_str(), "png") || same_text(ext.as_str(), "jpg") || same_text(
            ext.as_str(),
            "jpeg",
        );
        let ghost before = res@.map_values(|s: String| s@);
        proof {
            nv.take(i as int).lemma_filter_push(nv[i as int], keep);
            assert(nv.take(i + 1) =~= nv.take(i as int).push(nv[i as int]));
            assert(take == is_photo_name(nv[i as int]));
        }
        if take {
            res.push(name.clone());
            assert(res@.map_values(|s: String| s@) =~= before.push(name@));
        }
        i += 1;
    }
    assert(nv.take(names@.len() as int) =~= nv);
    res
}

/// The photo listing: a JSON array of the photo names, each in double quotes.
pub open spec fn photos_json_of(photos: Seq<Seq<char>>) -> Seq<char> {
    seq!['['] + join(photos.map_values(|n: Seq<char>| seq!['"'] + n + seq!['"']), seq![','])
        + seq![']']
}

/// Writes the photo listing; `[]` where there are no photos.
pub fn photos_json(photos: &Vec<String>) -> (res: String)
    ensures
        res@ == photos_json_of(photos@.map_values(|s: String| s@)),
{
    let ghost quoted = photos@.map_values(|s: String| s@).map_values(
        |n: Seq<char>| seq!['"'] + n + seq!['"'],
    );
    let mut body = String::new();
    let mut i: usize = 0;
    assert(quoted.take(0) =~= Seq::<Seq<char>>::empty());
    while i < photos.len()
        invariant
            i <= photos@.len(),
            quoted == photos@.map_values(|s: String| s@).map_values(
                |n: Seq<char>| seq!['"'] + n + seq!['"'],
            ),
            body@ == join(quoted.take(i as int), seq![',']),
        decreases photos@.len() - i,
    {
        let ghost before = body@;
        if i > 0 {
            push_char(&mut body, ',');
        }
        push_char(&mut body, '"');
        body.append(photos[i].as_str());
        push_char(&mut body, '"');
        proof {
            let t = quoted.take(i + 1);
            assert(t.drop_last() =~= quoted.take(i as int));
            assert(t.last() == seq!['"'] + photos@[i as int]@ + seq!['"']);
            if i > 0 {
                assert(body@ =~= before + seq![','] + t.last());
            } else {
                assert(body@ =~= t.last());
            }
        }
        i += 1;
    }
    assert(quoted.take(photos@.len() as int) =~= quoted);
    let mut res = String::new();
    push_char(&mut res, '[');
    res.append(body.as_str());
    push_char(&mut res, ']');
    assert(res@ =~= photos_json_of(photos@.map_values(|s: String| s@)));
    res
}

/// The item of the index list for one album: a link to it, its name, and
/// its number of images.
pub open spec fn album_item(a: Album) -> Seq<char> {
    "<li><a href=\""@ + a.host_path@ + "\">"@ + a.name@ + " ("@ + decimal(a.images as nat)
        + ")</a></li>"@
}

/// The index list of the albums.
pub open spec fn album_list_of(albums: Seq<Album>) -> Seq<char> {
    "<ul>"@ + concat(albums.map_values(|a: Album| album_item(a))) + "</ul>"@
}

/// Writes the index list of the albums.
pub fn album_list(albums: &Vec<Album>) -> (res: String)
    ensures
        res@ == album_list_of(albums@),
{
    let ghost items = albums@.map_values(|a: Album| album_item(a));
    let mut list = String::new();
    let mut i: usize = 0;
    assert(items.take(0) =~= Seq::<Seq<char>>::empty());
    while i < albums.len()
        invariant
            i <= albums@.len(),
            items == albums@.map_values(|a: Album| album_item(a)),
            list@ == concat(items.take(i as int)),
        decreases albums@.len() - i,
    {
        let a = &albums[i];
        let ghost before = list@;
        list.append("<li><a href=\"");
        list.append(a.host_path.as_str());
        list.append("\">");
        list.append(a.name.as_str());
        list.append(" (");
        let digits = decimal_exec(a.images as u128);
        push_chars(&mut list, &digits);
        list.append(")</a></li>");
        proof {
            let t = items.take(i + 1);
            assert(t.drop_last() =~= items.take(i as int));
            assert(list@ =~= before + album_item(albums@[i as int]));
        }
        i += 1;
    }
    assert(items.take(albums@.len() as int) =~= items);
    let mut res = String::new();
    res.append("<ul>");
    res.append(list.as_str());
    res.append("</ul>");
    res
}

/// The address of an album's cover image.
pub fn cover_url(host_path: &str) -> (res: String)
    ensures
        res@ == host_path@ + "/cover"@,
{
    let mut res = String::new();
    res.append(host_path);
    res.append("/cover");
    res
}

} // verus!
