//! A small Markdown renderer: headings, paragraphs, blank lines, and `*` / `**`
//! emphasis toggles.
use vstd::prelude::*;
use vstd::utf8::encode_utf8;
use vstd::string::StringSliceAdditionalSpecFns;
use crate::text::{
    lemma_after_prefix, free_of, after_first, after_first_exec, chars_of, concat, lines, lines_exec, push_char, push_chars,
    starts_with, starts_with_exec, string_of,
};

verus! {

/// The HTML for one line: `</br>` for an empty line, `<hN>` for a line that
/// starts with N hashes and a space (N from 1 to 6), `<p>` otherwise.
pub open spec fn render_line(l: Seq<char>) -> Seq<char> {
    if l.len() == 0 {
        "</br>"@
    } else if starts_with(l, "# "@) {
        "<h1>"@ + after_first(l, "# "@) + "</h1>"@
    } else if starts_with(l, "## "@) {
        "<h2>"@ + after_first(l, "## "@) + "</h2>"@
    } else if starts_with(l, "### "@) {
        "<h3>"@ + after_first(l, "### "@) + "</h3>"@
    } else if starts_with(l, "#### "@) {
        "<h4>"@ + after_first(l, "#### "@) + "</h4>"@
    } else if starts_with(l, "##### "@) {
        "<h5>"@ + after_first(l, "##### "@) + "</h5>"@
    } else if starts_with(l, "###### "@) {
        "<h6>"@ + after_first(l, "###### "@) + "</h6>"@
    } else {
        "<p>"@ + l + "</p>"@
    }
}

/// The emphasis pass from character position `i` on, with `n` the number of
/// positions it visits, the two toggles, and the output so far.  At a position
/// holding `*`, a following `*` toggles `<strong>`, otherwise it toggles `<em>`;
/// any other character is copied.  A position past the end of `s` (or a `*`
/// in the last position) makes the whole pass fail.
pub open spec fn emphasis_from(
    s: Seq<char>,
    n: int,
    i: int,
    strong: bool,
    italic: bool,
    out: Seq<char>,
) -> Option<Seq<char>>
    decreases n - i,
{
    if i >= n {
        Some(out)
    } else if i < 0 || i >= s.len() {
        None
    } else if s[i] == '*' {
        if i + 1 >= s.len() {
            None
        } else if s[i + 1] == '*' {
            let tag = if strong {
                "</strong>"@
            } else {
                "<strong>"@
            };
            emphasis_from(s, n, i + 1, !strong, italic, out + tag)
        } else {
            let tag = if italic {
                "</em>"@
            } else {
                "<em>"@
            };
            emphasis_from(s, n, i + 1, strong, !italic, out + tag)
        }
    } else {
        emphasis_from(s, n, i + 1, strong, italic, out.push(s[i]))
    }
}

/// The number of positions the emphasis pass visits: the UTF-8 byte length
/// of `s` minus one, wrapping around to the largest `usize` for the empty
/// text.
pub open spec fn emphasis_count(s: Seq<char>) -> int {
    if s.len() == 0 {
        usize::MAX as int
    } else {
        encode_utf8(s).len() - 1
    }
}

/// The emphasis pass over `s`: for ASCII text it visits every character but
/// the last; for the empty text it fails at once.
pub open spec fn emphasis(s: Seq<char>) -> Option<Seq<char>> {
    emphasis_from(s, emphasis_count(s), 0, false, false, Seq::empty())
}

/// The rendered page: the emphasis pass (or the text itself where it fails),
/// then each line rendered and the results concatenated.
pub open spec fn rendered(markdown: Seq<char>) -> Seq<char> {
    let text = match emphasis(markdown) {
        Some(t) => t,
        None => markdown,
    };
    concat(lines(text).map_values(|l: Seq<char>| render_line(l)))
}

/// A heading line is rendered with all of its text after the marker, later
/// `#` and spaces included: a line that starts with N hashes and a space
/// (N from 1 to 6) becomes `<hN>`, the rest of the line, `</hN>`.
pub proof fn lemma_heading_keeps_text(l: Seq<char>)
    ensures
        starts_with(l, "# "@) ==> render_line(l) == "<h1>"@ + l.skip(2) + "</h1>"@,
        starts_with(l, "## "@) ==> render_line(l) == "<h2>"@ + l.skip(3) + "</h2>"@,
        starts_with(l, "### "@) ==> render_line(l) == "<h3>"@ + l.skip(4) + "</h3>"@,
        starts_with(l, "#### "@) ==> render_line(l) == "<h4>"@ + l.skip(5) + "</h4>"@,
        starts_with(l, "##### "@) ==> render_line(l) == "<h5>"@ + l.skip(6) + "</h5>"@,
        starts_with(l, "###### "@) ==> render_line(l) == "<h6>"@ + l.skip(7) + "</h6>"@,
{
    reveal_strlit("# ");
    reveal_strlit("## ");
    reveal_strlit("### ");
    reveal_strlit("#### ");
    reveal_strlit("##### ");
    reveal_strlit("###### ");
    if starts_with(l, "# "@) {
        lemma_after_prefix(l, "# "@);
    }
    if starts_with(l, "## "@) {
        lemma_prefix_chars(l, "## "@);
        assert(l[1] == '#');
        lemma_after_prefix(l, "## "@);
    }
    if starts_with(l, "### "@) {
        lemma_prefix_chars(l, "### "@);
        assert(l[1] == '#' && l[2] == '#');
        lemma_after_prefix(l, "### "@);
    }
    if starts_with(l, "#### "@) {
        lemma_prefix_chars(l, "#### "@);
        assert(l[1] == '#' && l[2] == '#' && l[3] == '#');
        lemma_after_prefix(l, "#### "@);
    }
    if starts_with(l, "##### "@) {
        lemma_prefix_chars(l, "##### "@);
        assert(l[1] == '#' && l[2] == '#' && l[3] == '#' && l[4] == '#');
        lemma_after_prefix(l, "##### "@);
    }
    if starts_with(l, "###### "@) {
        lemma_prefix_chars(l, "###### "@);
        assert(l[1] == '#' && l[2] == '#' && l[3] == '#' && l[4] == '#' && l[5] == '#');
        lemma_after_prefix(l, "###### "@);
    }
}

/// A text that starts with `m` holds the characters of `m` first.
proof fn lemma_prefix_chars(l: Seq<char>, m: Seq<char>)
    requires
        starts_with(l, m),
    ensures
        forall|i: int| 0 <= i < m.len() ==> l[i] == m[i],
{
    assert forall|i: int| 0 <= i < m.len() implies l[i] == m[i] by {
        assert(l.subrange(0, m.len() as int)[i] == l[i]);
    }
}

/// A line that does not start with `#` is a paragraph holding the line as it
/// is, and the empty line is a line break.
pub proof fn lemma_plain_line(l: Seq<char>)
    ensures
        l.len() > 0 && l[0] != '#' ==> render_line(l) == "<p>"@ + l + "</p>"@,
        l.len() == 0 ==> render_line(l) == "</br>"@,
{
    reveal_strlit("# ");
    reveal_strlit("## ");
    reveal_strlit("### ");
    reveal_strlit("#### ");
    reveal_strlit("##### ");
    reveal_strlit("###### ");
    if l.len() > 0 && l[0] != '#' {
        assert(!starts_with(l, "# "@) && !starts_with(l, "## "@) && !starts_with(l, "### "@)) by {
            if starts_with(l, "# "@) {
                assert(l.subrange(0, 2)[0] == l[0]);
            }
            if starts_with(l, "## "@) {
                assert(l.subrange(0, 3)[0] == l[0]);
            }
            if starts_with(l, "### "@) {
                assert(l.subrange(0, 4)[0] == l[0]);
            }
        }
        assert(!starts_with(l, "#### "@) && !starts_with(l, "##### "@) && !starts_with(
            l,
            "###### "@,
        )) by {
            if starts_with(l, "#### "@) {
                assert(l.subrange(0, 5)[0] == l[0]);
            }
            if starts_with(l, "##### "@) {
                assert(l.subrange(0, 6)[0] == l[0]);
            }
            if starts_with(l, "###### "@) {
                assert(l.subrange(0, 7)[0] == l[0]);
            }
        }
    }
}

/// Every character of `s` is ASCII.
pub open spec fn is_ascii_text(s: Seq<char>) -> bool {
    forall|i: int| 0 <= i < s.len() ==> (#[trigger] s[i] as u32) < 128
}

/// An ASCII text takes one byte per character in UTF-8.
proof fn lemma_ascii_utf8_len(s: Seq<char>)
    requires
        is_ascii_text(s),
    ensures
        encode_utf8(s).len() == s.len(),
    decreases s.len(),
{
    if s.len() > 0 {
        let t = s.drop_first();
        assert forall|i: int| 0 <= i < t.len() implies (#[trigger] t[i] as u32) < 128 by {
            assert(t[i] == s[i + 1]);
        }
        lemma_ascii_utf8_len(t);
        assert((s[0] as u32) < 128);
    }
}

/// The emphasis pass copies a run of characters other than `*` as it is.
proof fn lemma_copy_run(
    s: Seq<char>,
    n: int,
    i: int,
    j: int,
    strong: bool,
    italic: bool,
    out: Seq<char>,
)
    requires
        0 <= i <= j <= n,
        j <= s.len(),
        forall|k: int| i <= k < j ==> s[k] != '*',
    ensures
        emphasis_from(s, n, i, strong, italic, out) == emphasis_from(
            s,
            n,
            j,
            strong,
            italic,
            out + s.subrange(i, j),
        ),
    decreases j - i,
{
    if i == j {
        assert(out + s.subrange(i, j) =~= out);
    } else {
        lemma_copy_run(s, n, i + 1, j, strong, italic, out.push(s[i]));
        assert(out.push(s[i]) + s.subrange(i + 1, j) =~= out + s.subrange(i, j));
    }
}

/// On ASCII text without `*` the emphasis pass copies every character but
/// the last.
pub proof fn lemma_emphasis_plain(s: Seq<char>)
    requires
        s.len() > 0,
        is_ascii_text(s),
        free_of(s, '*'),
    ensures
        emphasis(s) == Some(s.drop_last()),
{
    lemma_ascii_utf8_len(s);
    let n = s.len() - 1;
    lemma_copy_run(s, n, 0, n, false, false, Seq::empty());
    assert(Seq::<char>::empty() + s.subrange(0, n) =~= s.drop_last());
}

/// On ASCII text, a single `*` before and after a non-empty run without `*`
/// puts the run in `<em>`; the text around is copied, but for the last
/// character.
pub proof fn lemma_emphasis_italic(a: Seq<char>, b: Seq<char>, z: Seq<char>)
    requires
        b.len() > 0,
        z.len() > 0,
        free_of(a, '*'),
        free_of(b, '*'),
        free_of(z, '*'),
        is_ascii_text(a + seq!['*'] + b + seq!['*'] + z),
    ensures
        emphasis(a + seq!['*'] + b + seq!['*'] + z) == Some(
            a + "<em>"@ + b + "</em>"@ + z.drop_last(),
        ),
{
    let s = a + seq!['*'] + b + seq!['*'] + z;
    lemma_ascii_utf8_len(s);
    let n = s.len() - 1;
    let p1 = a.len() as int;
    let p2 = p1 + 1 + b.len();
    assert(s.subrange(0, p1) =~= a);
    assert(s.subrange(p1 + 1, p2) =~= b);
    assert(s.subrange(p2 + 1, n) =~= z.drop_last());
    assert forall|k: int| 0 <= k < p1 implies s[k] != '*' by {
        assert(s[k] == a[k]);
    }
    assert forall|k: int| p1 + 1 <= k < p2 implies s[k] != '*' by {
        assert(s[k] == b[k - p1 - 1]);
    }
    assert forall|k: int| p2 + 1 <= k < n implies s[k] != '*' by {
        assert(s[k] == z[k - p2 - 1]);
    }
    assert(s[p1] == '*' && s[p1 + 1] == b[0] && s[p2] == '*' && s[p2 + 1] == z[0]);
    lemma_copy_run(s, n, 0, p1, false, false, Seq::empty());
    let o1 = Seq::<char>::empty() + a;
    let o2 = o1 + "<em>"@;
    lemma_copy_run(s, n, p1 + 1, p2, false, true, o2);
    let o3 = o2 + b + "</em>"@;
    lemma_copy_run(s, n, p2 + 1, n, false, false, o3);
    assert(o3 + z.drop_last() =~= a + "<em>"@ + b + "</em>"@ + z.drop_last());
}

/// Each character takes at least one byte in UTF-8.
pub proof fn lemma_utf8_len(s: Seq<char>)
    ensures
        encode_utf8(s).len() >= s.len(),
    decreases s.len(),
{
    if s.len() > 0 {
        lemma_utf8_len(s.drop_first());
    }
}

/// Renders Markdown text to HTML; the empty text gives the empty page.
pub fn render(markdown: String) -> (res: String)
    ensures
        res@ == rendered(markdown@),
        markdown@.len() == 0 ==> res@.len() == 0,
{
    let text = match render_bold_italic(markdown.clone()) {
        Some(i) => i,
        None => markdown,
    };
    let chars = chars_of(text.as_str());
    let ls = lines_exec(&chars);
    let ghost lv = ls@.map_values(|v: Vec<char>| v@);
    let ghost rl = lv.map_values(|l: Seq<char>| render_line(l));
    let mut new = String::new();
    let mut i: usize = 0;
    assert(rl.take(0) =~= Seq::<Seq<char>>::empty());
    while i < ls.len()
        invariant
            i <= ls@.len(),
            lv == ls@.map_values(|v: Vec<char>| v@),
            rl == lv.map_values(|l: Seq<char>| render_line(l)),
            new@ == concat(rl.take(i as int)),
        decreases ls@.len() - i,
    {
        render_line_into(&mut new, &ls[i]);
        assert(rl.take(i + 1).drop_last() =~= rl.take(i as int));
        i += 1;
    }
    assert(rl.take(ls@.len() as int) =~= rl);
    new
}

/// Appends the HTML for one line.
fn render_line_into(out: &mut String, l: &Vec<char>)
    ensures
        final(out)@ == old(out)@ + render_line(l@),
{
    if l.len() == 0 {
        out.append("</br>");
        return ;
    }
    let h1 = chars_of("# ");
    let h2 = chars_of("## ");
    let h3 = chars_of("### ");
    let h4 = chars_of("#### ");
    let h5 = chars_of("##### ");
    let h6 = chars_of("###### ");
    if starts_with_exec(l, &h1) {
        heading_into(out, l, &h1, "<h1>", "</h1>");
    } else if starts_with_exec(l, &h2) {
        heading_into(out, l, &h2, "<h2>", "</h2>");
    } else if starts_with_exec(l, &h3) {
        heading_into(out, l, &h3, "<h3>", "</h3>");
    } else if starts_with_exec(l, &h4) {
        heading_into(out, l, &h4, "<h4>", "</h4>");
    } else if starts_with_exec(l, &h5) {
        heading_into(out, l, &h5, "<h5>", "</h5>");
    } else if starts_with_exec(l, &h6) {
        heading_into(out, l, &h6, "<h6>", "</h6>");
    } else {
        out.append("<p>");
        push_chars(out, l);
        out.append("</p>");
    }
}

/// Appends `open`, what follows `marker` in `l`, and `close`.
fn heading_into(out: &mut String, l: &Vec<char>, marker: &Vec<char>, open: &str, close: &str)
    ensures
        final(out)@ == old(out)@ + open@ + after_first(l@, marker@) + close@,
{
    out.append(open);
    let body = after_first_exec(l, marker);
    push_chars(out, &body);
    out.append(close);
}

/// What follows the first occurrence of `sep` in `content`; empty when `sep`
/// does not occur.
pub fn get_after_sep(sep: &str, content: &str) -> (res: String)
    ensures
        res@ == after_first(content@, sep@),
{
    let s = chars_of(sep);
    let c = chars_of(content);
    let r = after_first_exec(&c, &s);
    string_of(&r)
}

/// The emphasis pass: `**` toggles `<strong>` and `*` toggles `<em>`; `None`
/// where it reads past the end of the text (always for the empty text).
pub fn render_bold_italic(markdown: String) -> (res: Option<String>)
    ensures
        match res {
            Some(r) => emphasis(markdown@) == Some(r@),
            None => emphasis(markdown@) is None,
        },
{
    let ch = chars_of(markdown.as_str());
    let text = markdown.as_str();
    let bytes = text.as_bytes();
    let byte_len = bytes.len();
    proof {
        lemma_utf8_len(markdown@);
        assert(text.spec_bytes() == encode_utf8(text@));
        assert(byte_len == encode_utf8(markdown@).len());
    }
    let n = if ch.len() == 0 {
        usize::MAX
    } else {
        byte_len - 1
    };
    let mut strong = false;
    let mut italic = false;
    let mut new = String::new();
    let mut i: usize = 0;
    while i < n
        invariant
            ch@ == markdown@,
            n == emphasis_count(markdown@),
            i <= n,
            emphasis(markdown@) == emphasis_from(ch@, n as int, i as int, strong, italic, new@),
        decreases n - i,
    {
        if i >= ch.len() {
            return None;
        }
        if ch[i] == '*' {
            if i + 1 >= ch.len() {
                return None;
            }
            if ch[i + 1] == '*' {
                if strong {
                    new.append("</strong>");
                    strong = false;
                } else {
                    new.append("<strong>");
                    strong = true;
                }
                i += 1;
                continue ;
            }
            if italic {
                new.append("</em>");
                italic = false;
            } else {
                new.append("<em>");
                italic = true;
            }
            i += 1;
            continue ;
        }
        push_char(&mut new, ch[i]);
        i += 1;
    }
    Some(new)
}

} // verus!
