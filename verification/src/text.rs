//! Character-sequence helpers shared by the rest of the library: searching,
//! splitting, replacing and line handling, each with a model over `Seq<char>`.
use vstd::prelude::*;
use crate::photos::{digits_value, is_digit};

verus! {

/// `p` is a prefix of `s`.
pub open spec fn starts_with(s: Seq<char>, p: Seq<char>) -> bool {
    p.len() <= s.len() && s.subrange(0, p.len() as int) == p
}

/// `p` occurs in `s` at position `k`.
pub open spec fn occurs_at(s: Seq<char>, p: Seq<char>, k: int) -> bool {
    0 <= k && k + p.len() <= s.len() && s.subrange(k, k + p.len()) == p
}

/// The first position at or after `k` where `p` occurs in `s`.
pub open spec fn find_from(s: Seq<char>, p: Seq<char>, k: int) -> Option<int>
    decreases s.len() + 1 - k,
{
    if k < 0 || k + p.len() > s.len() {
        None
    } else if occurs_at(s, p, k) {
        Some(k)
    } else {
        find_from(s, p, k + 1)
    }
}

/// The first position where `p` occurs in `s`.
pub open spec fn find(s: Seq<char>, p: Seq<char>) -> Option<int> {
    find_from(s, p, 0)
}

/// What follows the first occurrence of `p` in `s`; empty when `p` does not occur.
pub open spec fn after_first(s: Seq<char>, p: Seq<char>) -> Seq<char> {
    match find(s, p) {
        Some(k) => s.skip(k + p.len()),
        None => Seq::empty(),
    }
}

/// What follows the first occurrence of `p` in `s`; all of `s` when `p` does not occur.
pub open spec fn after_first_or_all(s: Seq<char>, p: Seq<char>) -> Seq<char> {
    match find(s, p) {
        Some(k) => s.skip(k + p.len()),
        None => s,
    }
}

/// `s` with every occurrence of the non-empty `p`, taken left to right without
/// overlap, replaced by `r`.
pub open spec fn replace_all(s: Seq<char>, p: Seq<char>, r: Seq<char>) -> Seq<char>
    decreases s.len(),
{
    if s.len() == 0 || p.len() == 0 {
        s
    } else if starts_with(s, p) {
        r + replace_all(s.skip(p.len() as int), p, r)
    } else {
        seq![s[0]] + replace_all(s.skip(1), p, r)
    }
}

/// The pieces of `s` between the occurrences of `c`; there is always at least one.
pub open spec fn split_on(s: Seq<char>, c: char) -> Seq<Seq<char>>
    decreases s.len(),
{
    if s.len() == 0 {
        seq![Seq::empty()]
    } else {
        let parts = split_on(s.drop_last(), c);
        if s.last() == c {
            parts.push(Seq::empty())
        } else {
            parts.update(parts.len() - 1, parts.last().push(s.last()))
        }
    }
}

/// `l` without one trailing carriage return.
pub open spec fn strip_cr(l: Seq<char>) -> Seq<char> {
    if l.len() > 0 && l.last() == '\r' {
        l.drop_last()
    } else {
        l
    }
}

/// The lines of `s`: the pieces between line feeds, each ended by a line feed
/// losing one carriage return before it, and no empty last line after a final
/// line feed.
pub open spec fn lines(s: Seq<char>) -> Seq<Seq<char>> {
    let parts = split_on(s, '\n');
    let ended = parts.drop_last().map_values(|l: Seq<char>| strip_cr(l));
    if parts.last().len() == 0 {
        ended
    } else {
        ended.push(parts.last())
    }
}

/// The concatenation of the pieces, in order.
pub open spec fn concat(pieces: Seq<Seq<char>>) -> Seq<char>
    decreases pieces.len(),
{
    if pieces.len() == 0 {
        Seq::empty()
    } else {
        concat(pieces.drop_last()) + pieces.last()
    }
}

/// The pieces joined with `sep` between neighbours.
pub open spec fn join(pieces: Seq<Seq<char>>, sep: Seq<char>) -> Seq<char>
    decreases pieces.len(),
{
    if pieces.len() == 0 {
        Seq::empty()
    } else if pieces.len() == 1 {
        pieces[0]
    } else {
        join(pieces.drop_last(), sep) + sep + pieces.last()
    }
}

pub proof fn lemma_split_on_nonempty(s: Seq<char>, c: char)
    ensures
        split_on(s, c).len() >= 1,
    decreases s.len(),
{
    if s.len() > 0 {
        lemma_split_on_nonempty(s.drop_last(), c);
    }
}

/// What `find_from` gives is the first occurrence at or after `k`.
pub proof fn lemma_find_from(s: Seq<char>, p: Seq<char>, k: int)
    requires
        0 <= k,
    ensures
        match find_from(s, p, k) {
            Some(j) => k <= j && occurs_at(s, p, j) && forall|i: int|
                k <= i < j ==> !occurs_at(s, p, i),
            None => forall|i: int| k <= i ==> !occurs_at(s, p, i),
        },
    decreases s.len() + 1 - k,
{
    if k + p.len() > s.len() {
    } else if occurs_at(s, p, k) {
    } else {
        lemma_find_from(s, p, k + 1);
    }
}

/// `find_from` gives `j` when `p` occurs at `j` and nowhere from `k` up to `j`.
pub proof fn lemma_find_from_is(s: Seq<char>, p: Seq<char>, k: int, j: int)
    requires
        0 <= k <= j,
        occurs_at(s, p, j),
        forall|i: int| k <= i < j ==> !occurs_at(s, p, i),
    ensures
        find_from(s, p, k) == Some(j),
    decreases j - k,
{
    if k < j {
        lemma_find_from_is(s, p, k + 1, j);
    }
}

/// `c` does not occur in `s`.
pub open spec fn free_of(s: Seq<char>, c: char) -> bool {
    forall|i: int| 0 <= i < s.len() ==> s[i] != c
}

/// A text without `c` is one piece.
pub proof fn lemma_split_on_free(s: Seq<char>, c: char)
    requires
        free_of(s, c),
    ensures
        split_on(s, c) == seq![s],
    decreases s.len(),
{
    if s.len() > 0 {
        lemma_split_on_free(s.drop_last(), c);
        assert(s.drop_last().push(s.last()) =~= s);
        assert(seq![s.drop_last()].update(0, s.drop_last().push(s.last())) =~= seq![s]);
    } else {
        assert(s =~= Seq::<char>::empty());
    }
}

/// Splitting `a`, `c`, `b` where `b` holds no `c` gives the pieces of `a` and then `b`.
pub proof fn lemma_split_on_append(a: Seq<char>, b: Seq<char>, c: char)
    requires
        free_of(b, c),
    ensures
        split_on(a + seq![c] + b, c) == split_on(a, c).push(b),
    decreases b.len(),
{
    let s = a + seq![c] + b;
    if b.len() == 0 {
        assert(s.drop_last() =~= a);
        assert(b =~= Seq::<char>::empty());
    } else {
        let b2 = b.drop_last();
        assert(s.drop_last() =~= a + seq![c] + b2);
        lemma_split_on_append(a, b2, c);
        let prev = split_on(a, c).push(b2);
        assert(prev.update(prev.len() - 1, prev.last().push(b.last())) =~= split_on(a, c).push(
            b,
        )) by {
            assert(b2.push(b.last()) =~= b);
        }
    }
}

/// Joining pieces free of `c` with `c` and splitting again on `c` gives the pieces back.
pub proof fn lemma_split_join(ps: Seq<Seq<char>>, c: char)
    requires
        ps.len() >= 1,
        forall|i: int| 0 <= i < ps.len() ==> free_of(#[trigger] ps[i], c),
    ensures
        split_on(join(ps, seq![c]), c) == ps,
    decreases ps.len(),
{
    if ps.len() == 1 {
        lemma_split_on_free(ps[0], c);
        assert(seq![ps[0]] =~= ps);
    } else {
        let init = ps.drop_last();
        lemma_split_join(init, c);
        assert(free_of(ps.last(), c));
        lemma_split_on_append(join(init, seq![c]), ps.last(), c);
        assert(init.push(ps.last()) =~= ps);
    }
}

/// Joining lines free of line feeds, none but possibly the last ending in a
/// carriage return and the last not empty, gives a text whose lines are those.
pub proof fn lemma_lines_join(ps: Seq<Seq<char>>)
    requires
        forall|i: int| 0 <= i < ps.len() ==> free_of(#[trigger] ps[i], '\n'),
        forall|i: int| 0 <= i < ps.len() ==> strip_cr(#[trigger] ps[i]) == ps[i],
        forall|i: int| 0 <= i < ps.len() ==> (#[trigger] ps[i]).len() > 0,
    ensures
        lines(join(ps, seq!['\n'])) == ps,
{
    if ps.len() == 0 {
        assert(split_on(Seq::<char>::empty(), '\n') =~= seq![Seq::<char>::empty()]);
        assert(lines(join(ps, seq!['\n'])) =~= ps);
    } else {
        lemma_split_join(ps, '\n');
        let ended = ps.drop_last().map_values(|l: Seq<char>| strip_cr(l));
        assert(ended.push(ps.last()) =~= ps);
    }
}

/// What follows the last `c` in `a`, `c`, `b`, where `b` holds no `c`, is `b`.
pub proof fn lemma_last_piece(a: Seq<char>, b: Seq<char>, c: char)
    requires
        free_of(b, c),
    ensures
        split_on(a + seq![c] + b, c).last() == b,
{
    lemma_split_on_append(a, b, c);
}

/// What follows the first occurrence of a prefix `m` is the rest of the text.
pub proof fn lemma_after_prefix(l: Seq<char>, m: Seq<char>)
    requires
        starts_with(l, m),
    ensures
        find(l, m) == Some(0int),
        after_first(l, m) == l.skip(m.len() as int),
        after_first_or_all(l, m) == l.skip(m.len() as int),
{
    assert(occurs_at(l, m, 0));
    lemma_find_from_is(l, m, 0, 0);
}

/// Joined pieces are the first piece, the separator, and the rest joined.
pub proof fn lemma_join_front(ps: Seq<Seq<char>>, sep: Seq<char>)
    requires
        ps.len() >= 2,
    ensures
        join(ps, sep) == ps[0] + sep + join(ps.drop_first(), sep),
    decreases ps.len(),
{
    if ps.len() == 2 {
        assert(ps.drop_last() =~= seq![ps[0]]);
        assert(ps.drop_first() =~= seq![ps[1]]);
        assert(join(ps.drop_last(), sep) == ps[0]);
        assert(join(ps.drop_first(), sep) == ps[1]);
        assert(ps.last() == ps[1]);
    } else {
        let init = ps.drop_last();
        lemma_join_front(init, sep);
        assert(init.drop_first() =~= ps.drop_first().drop_last());
        assert(ps.drop_first().last() == ps.last());
        assert(join(ps, sep) =~= ps[0] + sep + join(ps.drop_first(), sep));
    }
}

/// A text that does not hold the first character of `p` is copied as it is.
pub proof fn lemma_replace_free_prefix(a: Seq<char>, t: Seq<char>, p: Seq<char>, r: Seq<char>)
    requires
        p.len() > 0,
        free_of(a, p[0]),
    ensures
        replace_all(a + t, p, r) == a + replace_all(t, p, r),
    decreases a.len(),
{
    if a.len() == 0 {
        assert(a + t =~= t);
        assert(a + replace_all(t, p, r) =~= replace_all(t, p, r));
    } else {
        let s = a + t;
        assert(s[0] == a[0]);
        assert(!starts_with(s, p)) by {
            if starts_with(s, p) {
                assert(s.subrange(0, p.len() as int)[0] == s[0]);
            }
        }
        let a1 = a.skip(1);
        assert(free_of(a1, p[0]));
        assert(s.skip(1) =~= a1 + t);
        lemma_replace_free_prefix(a1, t, p, r);
        assert(seq![a[0]] + (a1 + replace_all(t, p, r)) =~= a + replace_all(t, p, r));
    }
}

/// An occurrence of `p` at the start is replaced by `r`.
pub proof fn lemma_replace_at_pattern(t: Seq<char>, p: Seq<char>, r: Seq<char>)
    requires
        p.len() > 0,
    ensures
        replace_all(p + t, p, r) == r + replace_all(t, p, r),
{
    let s = p + t;
    assert(s.subrange(0, p.len() as int) =~= p);
    assert(s.skip(p.len() as int) =~= t);
}

/// Replacing `p` in pieces joined by `p`, where no piece holds the first
/// character of `p`, gives the pieces joined by the replacement: every
/// occurrence is replaced.
pub proof fn lemma_replace_join(ps: Seq<Seq<char>>, p: Seq<char>, r: Seq<char>)
    requires
        p.len() > 0,
        ps.len() >= 1,
        forall|i: int| 0 <= i < ps.len() ==> free_of(#[trigger] ps[i], p[0]),
    ensures
        replace_all(join(ps, p), p, r) == join(ps, r),
    decreases ps.len(),
{
    if ps.len() == 1 {
        assert(free_of(ps[0], p[0]));
        lemma_replace_free_prefix(ps[0], Seq::empty(), p, r);
        assert(ps[0] + Seq::<char>::empty() =~= ps[0]);
    } else {
        let rest = ps.drop_first();
        lemma_join_front(ps, p);
        lemma_join_front(ps, r);
        assert forall|i: int| 0 <= i < rest.len() implies free_of(#[trigger] rest[i], p[0]) by {
            assert(rest[i] == ps[i + 1]);
        }
        lemma_replace_join(rest, p, r);
        assert(free_of(ps[0], p[0]));
        assert(ps[0] + p + join(rest, p) =~= ps[0] + (p + join(rest, p)));
        lemma_replace_free_prefix(ps[0], p + join(rest, p), p, r);
        lemma_replace_at_pattern(join(rest, p), p, r);
        assert(ps[0] + (r + join(rest, r)) =~= ps[0] + r + join(rest, r));
    }
}

/// Where the replacement is not empty and holds no character of `p`, a text
/// whose replaced form starts with `w`, a text made of characters of `p`,
/// itself starts with `w`.
proof fn lemma_replaced_prefix(t: Seq<char>, w: Seq<char>, p: Seq<char>, r: Seq<char>)
    requires
        p.len() > 0,
        r.len() > 0,
        forall|i: int| 0 <= i < r.len() ==> free_of(p, #[trigger] r[i]),
        forall|i: int| 0 <= i < w.len() ==> p.contains(#[trigger] w[i]),
        starts_with(replace_all(t, p, r), w),
    ensures
        starts_with(t, w),
    decreases t.len(),
{
    if w.len() == 0 {
        assert(t.subrange(0, 0) =~= w);
    } else {
        let out = replace_all(t, p, r);
        assert(out.subrange(0, w.len() as int)[0] == out[0]);
        if t.len() == 0 {
        } else if starts_with(t, p) {
            assert(out[0] == r[0]);
            let k = choose|k: int| 0 <= k < p.len() && p[k] == w[0];
            assert(free_of(p, r[0]));
        } else {
            let t1 = t.skip(1);
            let w1 = w.skip(1);
            let o1 = replace_all(t1, p, r);
            assert(out == seq![t[0]] + o1);
            assert(o1.subrange(0, w1.len() as int) =~= out.subrange(0, w.len() as int).skip(1));
            assert forall|i: int| 0 <= i < w1.len() implies p.contains(#[trigger] w1[i]) by {
                assert(w1[i] == w[i + 1]);
            }
            lemma_replaced_prefix(t1, w1, p, r);
            assert(t.subrange(0, w.len() as int) =~= seq![t[0]] + t1.subrange(0, w1.len() as int));
            assert(w =~= seq![w[0]] + w1);
        }
    }
}

/// Where the replacement is not empty and holds no character of `p`, no
/// occurrence of `p` is left after replacing them all.
pub proof fn lemma_replace_leaves_none(s: Seq<char>, p: Seq<char>, r: Seq<char>)
    requires
        p.len() > 0,
        r.len() > 0,
        forall|i: int| 0 <= i < r.len() ==> free_of(p, #[trigger] r[i]),
    ensures
        forall|q: int| !occurs_at(replace_all(s, p, r), p, q),
    decreases s.len(),
{
    let out = replace_all(s, p, r);
    if s.len() == 0 {
    } else if starts_with(s, p) {
        let rest = s.skip(p.len() as int);
        lemma_replace_leaves_none(rest, p, r);
        let o1 = replace_all(rest, p, r);
        assert(out == r + o1);
        assert forall|q: int| !occurs_at(out, p, q) by {
            if occurs_at(out, p, q) {
                if q < r.len() {
                    assert(out.subrange(q, q + p.len())[0] == out[q]);
                    assert(out[q] == r[q]);
                    assert(free_of(p, r[q]));
                } else {
                    assert(o1.subrange(q - r.len(), q - r.len() + p.len()) =~= out.subrange(
                        q,
                        q + p.len(),
                    ));
                    assert(occurs_at(o1, p, q - r.len()));
                }
            }
        }
    } else {
        let t1 = s.skip(1);
        lemma_replace_leaves_none(t1, p, r);
        let o1 = replace_all(t1, p, r);
        assert(out == seq![s[0]] + o1);
        assert forall|q: int| !occurs_at(out, p, q) by {
            if occurs_at(out, p, q) {
                if q == 0 {
                    let w1 = p.skip(1);
                    assert(o1.subrange(0, w1.len() as int) =~= out.subrange(0, p.len() as int).skip(
                        1,
                    ));
                    assert forall|i: int| 0 <= i < w1.len() implies p.contains(#[trigger] w1[i]) by {
                        assert(w1[i] == p[i + 1]);
                    }
                    lemma_replaced_prefix(t1, w1, p, r);
                    assert(out.subrange(0, p.len() as int)[0] == out[0]);
                    assert(s.subrange(0, p.len() as int) =~= seq![s[0]] + t1.subrange(
                        0,
                        w1.len() as int,
                    ));
                    assert(p =~= seq![p[0]] + w1);
                } else {
                    assert(o1.subrange(q - 1, q - 1 + p.len()) =~= out.subrange(q, q + p.len()));
                    assert(occurs_at(o1, p, q - 1));
                }
            }
        }
    }
}

/// The lower-case form of a text, as std's `str::to_lowercase` gives it.
pub uninterp spec fn lowercase(s: Seq<char>) -> Seq<char>;

/// std's `str::to_lowercase`: the lower-case form of `s`.
#[verifier::external_body]
pub fn to_lowercase(s: &str) -> (res: String)
    ensures
        res@ == lowercase(s@),
{
    s.to_lowercase()
}

/// Whether two character sequences are the same.
pub fn same_chars(a: &Vec<char>, b: &Vec<char>) -> (res: bool)
    ensures
        res == (a@ == b@),
{
    if a.len() != b.len() {
        return false;
    }
    let r = starts_with_exec(a, b);
    proof {
        if r {
            assert(a@ =~= b@);
        }
        if a@ == b@ {
            assert(a@.subrange(0, b@.len() as int) =~= a@);
        }
    }
    r
}

/// Whether two texts hold the same characters.
pub fn same_text(a: &str, b: &str) -> (res: bool)
    ensures
        res == (a@ == b@),
{
    same_chars(&chars_of(a), &chars_of(b))
}

/// Whether `c` occurs in `s`.
pub fn contains_char(s: &Vec<char>, c: char) -> (res: bool)
    ensures
        res == !free_of(s@, c),
{
    let mut i: usize = 0;
    while i < s.len()
        invariant
            i <= s@.len(),
            forall|j: int| 0 <= j < i ==> s@[j] != c,
        decreases s@.len() - i,
    {
        if s[i] == c {
            return true;
        }
        i += 1;
    }
    false
}

/// The decimal digit for a value below ten.
pub open spec fn digit_char(d: nat) -> char {
    if d == 0 {
        '0'
    } else if d == 1 {
        '1'
    } else if d == 2 {
        '2'
    } else if d == 3 {
        '3'
    } else if d == 4 {
        '4'
    } else if d == 5 {
        '5'
    } else if d == 6 {
        '6'
    } else if d == 7 {
        '7'
    } else if d == 8 {
        '8'
    } else {
        '9'
    }
}

/// The decimal digit for a value below ten.
fn digit_char_exec(d: u128) -> (c: char)
    requires
        d < 10,
    ensures
        c == digit_char(d as nat),
{
    if d == 0 {
        '0'
    } else if d == 1 {
        '1'
    } else if d == 2 {
        '2'
    } else if d == 3 {
        '3'
    } else if d == 4 {
        '4'
    } else if d == 5 {
        '5'
    } else if d == 6 {
        '6'
    } else if d == 7 {
        '7'
    } else if d == 8 {
        '8'
    } else {
        '9'
    }
}

/// The decimal representation of `n`, without leading zeros.
pub open spec fn decimal(n: nat) -> Seq<char>
    decreases n,
{
    if n < 10 {
        seq![digit_char(n)]
    } else {
        decimal(n / 10).push(digit_char(n % 10))
    }
}

/// The decimal text of `n` is made of digits, has no leading zero, and reads
/// back as `n`.
pub proof fn lemma_decimal_reads_back(n: nat)
    ensures
        decimal(n).len() > 0,
        forall|i: int| 0 <= i < decimal(n).len() ==> is_digit(#[trigger] decimal(n)[i]),
        n > 0 ==> decimal(n)[0] != '0',
        digits_value(decimal(n)) == n,
    decreases n,
{
    if n < 10 {
        let d = decimal(n);
        assert(d.drop_last() =~= Seq::<char>::empty());
        assert(digits_value(d) == digits_value(d.drop_last()) * 10 + (d.last() as int - '0' as int));
    } else {
        lemma_decimal_reads_back(n / 10);
        let h = decimal(n / 10);
        let d = decimal(n);
        assert(d == h.push(digit_char(n % 10)));
        assert(d.drop_last() =~= h);
        assert(d[0] == h[0]);
        assert forall|i: int| 0 <= i < d.len() implies is_digit(#[trigger] d[i]) by {
            if i < h.len() {
                assert(d[i] == h[i]);
            }
        }
        assert(digits_value(d) == n / 10 * 10 + n % 10);
    }
}

/// The decimal representation of `n`.
pub fn decimal_exec(n: u128) -> (res: Vec<char>)
    ensures
        res@ == decimal(n as nat),
    decreases n,
{
    let c = digit_char_exec(n % 10);
    if n < 10 {
        let mut v = Vec::new();
        v.push(c);
        v
    } else {
        let mut v = decimal_exec(n / 10);
        v.push(c);
        v
    }
}

/// The characters of `s`, in order.
pub fn chars_of(s: &str) -> (res: Vec<char>)
    ensures
        res@ == s@,
{
    let mut res: Vec<char> = Vec::new();
    for c in it: s.chars()
        invariant
            res@ == it.seq().take(it.index() as int),
    {
        res.push(c);
    }
    res
}

/// A `String` holding the given characters (std's `FromIterator<&char>` for `String`).
#[verifier::external_body]
pub fn string_of(chars: &Vec<char>) -> (res: String)
    ensures
        res@ == chars@,
{
    String::from_iter(chars.iter())
}

/// Appends one character (std's `String::push`).
#[verifier::external_body]
pub fn push_char(s: &mut String, c: char)
    ensures
        final(s)@ == old(s)@.push(c),
{
    s.push(c)
}

/// Appends the characters of `v`.
pub fn push_chars(s: &mut String, v: &Vec<char>)
    ensures
        final(s)@ == old(s)@ + v@,
{
    let t = string_of(v);
    s.append(t.as_str());
}

/// Whether `p` occurs in `s` at position `k`.
pub fn occurs_at_exec(s: &Vec<char>, p: &Vec<char>, k: usize) -> (res: bool)
    ensures
        res == occurs_at(s@, p@, k as int),
{
    if k > s.len() || p.len() > s.len() - k {
        return false;
    }
    let n = s.len();
    let mut i: usize = 0;
    while i < p.len()
        invariant
            n == s@.len(),
            k + p@.len() <= s@.len(),
            i <= p@.len(),
            forall|j: int| 0 <= j < i ==> s@[k + j] == p@[j],
        decreases p@.len() - i,
    {
        assert(k + i < s@.len());
        if s[k + i] != p[i] {
            assert(s@.subrange(k as int, k + p@.len())[i as int] != p@[i as int]);
            return false;
        }
        i += 1;
    }
    assert(s@.subrange(k as int, k + p@.len()) =~= p@);
    true
}

/// Whether `p` is a prefix of `s`.
pub fn starts_with_exec(s: &Vec<char>, p: &Vec<char>) -> (res: bool)
    ensures
        res == starts_with(s@, p@),
{
    occurs_at_exec(s, p, 0)
}

/// The first position at or after `start` where `p` occurs in `s`.
pub fn find_from_exec(s: &Vec<char>, p: &Vec<char>, start: usize) -> (res: Option<usize>)
    ensures
        match res {
            Some(j) => find_from(s@, p@, start as int) == Some(j as int),
            None => find_from(s@, p@, start as int) is None,
        },
{
    let mut k = start;
    while k <= s.len() && p.len() <= s.len() - k
        invariant
            find_from(s@, p@, start as int) == find_from(s@, p@, k as int),
        decreases s@.len() + 1 - k,
    {
        if occurs_at_exec(s, p, k) {
            return Some(k);
        }
        assert(k < s@.len()) by {
            if p@.len() == 0 {
                assert(s@.subrange(k as int, k as int) =~= p@);
            }
        }
        k += 1;
    }
    None
}

/// What follows the first occurrence of `p` in `s` (empty when `p` does not occur).
pub fn after_first_exec(s: &Vec<char>, p: &Vec<char>) -> (res: Vec<char>)
    ensures
        res@ == after_first(s@, p@),
{
    match find_from_exec(s, p, 0) {
        Some(k) => {
            let n = s.len();
            proof {
                lemma_find_from(s@, p@, 0);
                assert(occurs_at(s@, p@, k as int));
            }
            slice_from(s, k + p.len())
        },
        None => Vec::new(),
    }
}

/// What follows the first occurrence of `p` in `s` (all of `s` when `p` does not occur).
pub fn after_first_or_all_exec(s: &Vec<char>, p: &Vec<char>) -> (res: Vec<char>)
    ensures
        res@ == after_first_or_all(s@, p@),
{
    match find_from_exec(s, p, 0) {
        Some(k) => {
            let n = s.len();
            proof {
                lemma_find_from(s@, p@, 0);
                assert(occurs_at(s@, p@, k as int));
            }
            slice_from(s, k + p.len())
        },
        None => s.clone(),
    }
}

/// The characters of `s` from position `k` on.
pub fn slice_from(s: &Vec<char>, k: usize) -> (res: Vec<char>)
    requires
        k <= s@.len(),
    ensures
        res@ == s@.skip(k as int),
{
    slice(s, k, s.len())
}

/// The characters of `s` in positions `from` up to, not including, `to`.
pub fn slice(s: &Vec<char>, from: usize, to: usize) -> (res: Vec<char>)
    requires
        from <= to <= s@.len(),
    ensures
        res@ == s@.subrange(from as int, to as int),
{
    let mut res: Vec<char> = Vec::new();
    let mut i = from;
    while i < to
        invariant
            from <= i <= to <= s@.len(),
            res@ == s@.subrange(from as int, i as int),
        decreases to - i,
    {
        res.push(s[i]);
        assert(s@.subrange(from as int, i + 1) =~= s@.subrange(from as int, i as int).push(
            s@[i as int],
        ));
        i += 1;
    }
    res
}

/// `s` with every occurrence of the non-empty `p` replaced by `r`, left to right.
pub fn replace_all_exec(s: &Vec<char>, p: &Vec<char>, r: &Vec<char>) -> (res: Vec<char>)
    requires
        p@.len() > 0,
    ensures
        res@ == replace_all(s@, p@, r@),
{
    let mut out: Vec<char> = Vec::new();
    let mut i: usize = 0;
    assert(s@.skip(0) =~= s@);
    assert(out@ + s@ =~= s@);
    while i < s.len()
        invariant
            p@.len() > 0,
            i <= s@.len(),
            out@ + replace_all(s@.skip(i as int), p@, r@) == replace_all(s@, p@, r@),
        decreases s@.len() - i,
    {
        let ghost rest = s@.skip(i as int);
        if occurs_at_exec(s, p, i) {
            assert(rest.subrange(0, p@.len() as int) =~= s@.subrange(i as int, i + p@.len()));
            assert(rest.skip(p@.len() as int) =~= s@.skip(i + p@.len()));
            let mut j: usize = 0;
            let ghost out0 = out@;
            while j < r.len()
                invariant
                    j <= r@.len(),
                    out@ == out0 + r@.subrange(0, j as int),
                decreases r@.len() - j,
            {
                out.push(r[j]);
                assert(r@.subrange(0, j + 1) =~= r@.subrange(0, j as int).push(r@[j as int]));
                j += 1;
            }
            assert(r@.subrange(0, r@.len() as int) =~= r@);
            assert(out0 + (r@ + replace_all(rest.skip(p@.len() as int), p@, r@)) =~= out@
                + replace_all(rest.skip(p@.len() as int), p@, r@));
            i = i + p.len();
        } else {
            assert(!starts_with(rest, p@)) by {
                if p@.len() <= rest.len() {
                    assert(rest.subrange(0, p@.len() as int) =~= s@.subrange(
                        i as int,
                        i + p@.len(),
                    ));
                }
            }
            assert(rest.skip(1) =~= s@.skip(i + 1));
            assert(out@ + (seq![s@[i as int]] + replace_all(rest.skip(1), p@, r@)) =~= out@.push(
                s@[i as int],
            ) + replace_all(rest.skip(1), p@, r@));
            out.push(s[i]);
            i = i + 1;
        }
    }
    assert(s@.skip(i as int) =~= Seq::<char>::empty());
    assert(out@ + Seq::<char>::empty() =~= out@);
    out
}

/// The pieces of `s` between the occurrences of `c`.
pub fn split_on_exec(s: &Vec<char>, c: char) -> (res: Vec<Vec<char>>)
    ensures
        res@.map_values(|v: Vec<char>| v@) == split_on(s@, c),
{
    let mut done: Vec<Vec<char>> = Vec::new();
    let mut cur: Vec<char> = Vec::new();
    let mut i: usize = 0;
    assert(s@.take(0) =~= Seq::<char>::empty());
    while i < s.len()
        invariant
            i <= s@.len(),
            done@.map_values(|v: Vec<char>| v@).push(cur@) == split_on(s@.take(i as int), c),
        decreases s@.len() - i,
    {
        let ghost prev = done@.map_values(|v: Vec<char>| v@).push(cur@);
        assert(s@.take(i + 1).drop_last() =~= s@.take(i as int));
        if s[i] == c {
            let piece = cur;
            done.push(piece);
            cur = Vec::new();
            assert(done@.map_values(|v: Vec<char>| v@).push(cur@) =~= prev.push(Seq::empty()));
        } else {
            cur.push(s[i]);
            assert(done@.map_values(|v: Vec<char>| v@).push(cur@) =~= prev.update(
                prev.len() - 1,
                prev.last().push(s@[i as int]),
            ));
        }
        i += 1;
    }
    assert(s@.take(s@.len() as int) =~= s@);
    done.push(cur);
    assert(done@.map_values(|v: Vec<char>| v@) =~= split_on(s@, c));
    done
}

/// The lines of `s`, as `lines` describes them.
pub fn lines_exec(s: &Vec<char>) -> (res: Vec<Vec<char>>)
    ensures
        res@.map_values(|v: Vec<char>| v@) == lines(s@),
{
    let parts = split_on_exec(s, '\n');
    let ghost parts_v = parts@.map_values(|v: Vec<char>| v@);
    proof {
        lemma_split_on_nonempty(s@, '\n');
    }
    let n = parts.len();
    let mut res: Vec<Vec<char>> = Vec::new();
    let mut i: usize = 0;
    while i + 1 < n
        invariant
            n == parts@.len(),
            parts_v == parts@.map_values(|v: Vec<char>| v@),
            n >= 1,
            i + 1 <= n,
            parts_v.len() == n,
            res@.len() == i,
            res@.map_values(|v: Vec<char>| v@) == parts_v.take(i as int).map_values(
                |l: Seq<char>| strip_cr(l),
            ),
        decreases n - i,
    {
        let l = &parts[i];
        let stripped = if l.len() > 0 && l[l.len() - 1] == '\r' {
            slice(l, 0, l.len() - 1)
        } else {
            l.clone()
        };
        assert(stripped@ == strip_cr(parts_v[i as int])) by {
            if l@.len() > 0 && l@.last() == '\r' {
                assert(l@.subrange(0, l@.len() - 1) =~= l@.drop_last());
            }
        }
        let ghost before = res@.map_values(|v: Vec<char>| v@);
        let ghost target = parts_v.take(i + 1).map_values(|l: Seq<char>| strip_cr(l));
        let ghost target0 = parts_v.take(i as int).map_values(|l: Seq<char>| strip_cr(l));
        res.push(stripped);
        let ghost after = res@.map_values(|v: Vec<char>| v@);
        assert forall|j: int| 0 <= j < i + 1 implies #[trigger] after[j] == target[j] by {
            if j < i {
                assert(before[j] == target0[j]);
            }
        }
        assert(after =~= target);
        i += 1;
    }
    assert(parts_v.take(i as int) =~= parts_v.drop_last());
    if parts[n - 1].len() > 0 {
        res.push(parts[n - 1].clone());
        assert(res@.map_values(|v: Vec<char>| v@) =~= lines(s@));
    }
    res
}

} // verus!
