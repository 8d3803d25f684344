//! Ordering of photo paths: by the number before the extension where both
//! names are of the form `<NAME><NUM>.<EXT>` (e.g. `dog-10.png`), by text
//! otherwise.
use vstd::prelude::*;
use crate::text::chars_of;
use vstd::multiset::Multiset;

verus! {

/// The outcome of comparing two photo paths.
#[derive(PartialEq, Eq, Structural, Clone, Copy, Debug)]
pub enum PhotoOrder {
    Less,
    Equal,
    Greater,
}

pub open spec fn is_digit(c: char) -> bool {
    '0' <= c && c <= '9'
}

pub open spec fn digit_value(c: char) -> nat {
    (c as int - '0' as int) as nat
}

/// The decimal value of a run of digits.
pub open spec fn digits_value(ds: Seq<char>) -> nat
    decreases ds.len(),
{
    if ds.len() == 0 {
        0
    } else {
        digits_value(ds.drop_last()) * 10 + digit_value(ds.last())
    }
}

/// The end of the run of digits that starts at `d`.
pub open spec fn run_end(s: Seq<char>, d: int) -> int
    decreases s.len() - d,
{
    if d < 0 || d >= s.len() || !is_digit(s[d]) {
        d
    } else {
        run_end(s, d + 1)
    }
}

/// At `d` starts a number match: digits, a dot, and at least one more
/// character on the same line.
pub open spec fn number_match_at(s: Seq<char>, d: int) -> bool {
    let e = run_end(s, d);
    &&& 0 <= d < s.len()
    &&& is_digit(s[d])
    &&& e + 1 < s.len()
    &&& s[e] == '.'
    &&& s[e + 1] != '\n'
}

/// The leftmost position at or after `d` where a number match starts.
pub open spec fn first_number_match(s: Seq<char>, d: int) -> Option<int>
    decreases s.len() - d,
{
    if d < 0 || d >= s.len() {
        None
    } else if number_match_at(s, d) {
        Some(d)
    } else {
        first_number_match(s, d + 1)
    }
}

/// No line feed in `s` from position `k` on.
pub open spec fn no_line_feed_from(s: Seq<char>, k: int) -> bool {
    forall|j: int| k <= j < s.len() ==> s[j] != '\n'
}

/// The number of a name of the form `<NAME><NUM>.<EXT>`: the leftmost match of
/// digits, a dot and at least one character (the match running on to the end
/// of its line) must reach the end of the name; the number is then the value
/// of those digits.  `None` for any other name.
pub open spec fn numbered_name(s: Seq<char>) -> Option<nat> {
    match first_number_match(s, 0) {
        Some(d) => {
            let e = run_end(s, d);
            if no_line_feed_from(s, e + 1) {
                Some(digits_value(s.subrange(d, e)))
            } else {
                None
            }
        },
        None => None,
    }
}

/// Lexicographic order by character (the order of `str`).
pub open spec fn lex_order(a: Seq<char>, b: Seq<char>) -> PhotoOrder
    decreases a.len(),
{
    if a.len() == 0 && b.len() == 0 {
        PhotoOrder::Equal
    } else if a.len() == 0 {
        PhotoOrder::Less
    } else if b.len() == 0 {
        PhotoOrder::Greater
    } else if a[0] < b[0] {
        PhotoOrder::Less
    } else if a[0] > b[0] {
        PhotoOrder::Greater
    } else {
        lex_order(a.drop_first(), b.drop_first())
    }
}

pub open spec fn int_order(a: nat, b: nat) -> PhotoOrder {
    if a < b {
        PhotoOrder::Less
    } else if a > b {
        PhotoOrder::Greater
    } else {
        PhotoOrder::Equal
    }
}

/// How two photo paths compare: by number when both are numbered names, by
/// text otherwise.
#[verifier::opaque]
pub open spec fn photo_order(x: Seq<char>, y: Seq<char>) -> PhotoOrder {
    match (numbered_name(x), numbered_name(y)) {
        (Some(a), Some(b)) => int_order(a, b),
        _ => lex_order(x, y),
    }
}

/// The numbers of two numbered names fit in a `u32`.
#[verifier::opaque]
pub open spec fn numbers_fit(x: Seq<char>, y: Seq<char>) -> bool {
    (numbered_name(x) is Some && numbered_name(y) is Some) ==> (numbered_name(x).unwrap()
        <= u32::MAX && numbered_name(y).unwrap() <= u32::MAX)
}

/// The number of a numbered name fits in a `u32`.
pub open spec fn number_fits(x: Seq<char>) -> bool {
    numbered_name(x) is Some ==> numbered_name(x).unwrap() <= u32::MAX
}

/// Any two paths at different positions that are both numbered names have
/// numbers that fit in a `u32`.
pub open spec fn pairwise_numbers_fit(paths: Seq<String>) -> bool {
    forall|i: int, j: int|
        0 <= i < paths.len() && 0 <= j < paths.len() && i != j ==> #[trigger] numbers_fit(
            paths[i]@,
            paths[j]@,
        )
}

/// Each path is ordered no later than the next one.
pub open spec fn adjacent_ordered(paths: Seq<String>) -> bool {
    forall|i: int|
        0 <= i < paths.len() - 1 ==> #[trigger] photo_order(paths[i]@, paths[i + 1]@)
            != PhotoOrder::Greater
}

pub proof fn lemma_lex_antisymmetric(a: Seq<char>, b: Seq<char>)
    ensures
        (lex_order(a, b) == PhotoOrder::Less) == (lex_order(b, a) == PhotoOrder::Greater),
        (lex_order(a, b) == PhotoOrder::Equal) == (lex_order(b, a) == PhotoOrder::Equal),
    decreases a.len(),
{
    if a.len() > 0 && b.len() > 0 && a[0] == b[0] {
        lemma_lex_antisymmetric(a.drop_first(), b.drop_first());
    }
}

/// Swapping the arguments turns `Less` into `Greater` and keeps `Equal`.
pub proof fn lemma_photo_order_antisymmetric(x: Seq<char>, y: Seq<char>)
    ensures
        (photo_order(x, y) == PhotoOrder::Less) == (photo_order(y, x) == PhotoOrder::Greater),
        (photo_order(x, y) == PhotoOrder::Equal) == (photo_order(y, x) == PhotoOrder::Equal),
{
    reveal(photo_order);
    lemma_lex_antisymmetric(x, y);
}


proof fn lemma_numbers_ascend(paths: Seq<String>, i: int, j: int)
    requires
        adjacent_ordered(paths),
        forall|k: int| 0 <= k < paths.len() ==> (#[trigger] numbered_name(paths[k]@)) is Some,
        0 <= i <= j < paths.len(),
    ensures
        numbered_name(paths[i]@).unwrap() <= numbered_name(paths[j]@).unwrap(),
    decreases j - i,
{
    if i < j {
        let k = j - 1;
        lemma_numbers_ascend(paths, i, k);
        assert(photo_order(paths[k]@, paths[k + 1]@) != PhotoOrder::Greater);
        assert(numbered_name(paths[k]@) is Some && numbered_name(paths[j]@) is Some);
        reveal(photo_order);
    }
}

/// Where every path is a numbered name, paths ordered this way are in
/// ascending order of their numbers.
pub proof fn lemma_sorted_by_number(paths: Seq<String>)
    requires
        adjacent_ordered(paths),
        forall|k: int| 0 <= k < paths.len() ==> (#[trigger] numbered_name(paths[k]@)) is Some,
    ensures
        forall|i: int, j: int|
            0 <= i <= j < paths.len() ==> numbered_name((#[trigger] paths[i])@).unwrap()
                <= numbered_name((#[trigger] paths[j])@).unwrap(),
{
    assert forall|i: int, j: int| 0 <= i <= j < paths.len() implies numbered_name(
        (#[trigger] paths[i])@,
    ).unwrap() <= numbered_name((#[trigger] paths[j])@).unwrap() by {
        lemma_numbers_ascend(paths, i, j);
    }
}

proof fn lemma_digits_prefix(ds: Seq<char>, k: int)
    requires
        0 <= k <= ds.len(),
    ensures
        digits_value(ds.take(k)) <= digits_value(ds),
    decreases ds.len(),
{
    if k < ds.len() {
        lemma_digits_prefix(ds.drop_last(), k);
        assert(ds.drop_last().take(k) =~= ds.take(k));
    } else {
        assert(ds.take(k) =~= ds);
    }
}

proof fn lemma_run_end(s: Seq<char>, d: int)
    requires
        0 <= d <= s.len(),
    ensures
        d <= run_end(s, d) <= s.len(),
        forall|j: int| d <= j < run_end(s, d) ==> is_digit(#[trigger] s[j]),
        run_end(s, d) < s.len() ==> !is_digit(s[run_end(s, d)]),
    decreases s.len() - d,
{
    if d < s.len() && is_digit(s[d]) {
        lemma_run_end(s, d + 1);
    }
}

proof fn lemma_first_number_match(s: Seq<char>, d: int)
    requires
        0 <= d,
    ensures
        match first_number_match(s, d) {
            Some(m) => d <= m < s.len() && number_match_at(s, m),
            None => true,
        },
    decreases s.len() - d,
{
    if d < s.len() && !number_match_at(s, d) {
        lemma_first_number_match(s, d + 1);
    }
}

/// The end of the run of digits that starts at `d`.
fn run_end_exec(s: &Vec<char>, d: usize) -> (res: usize)
    requires
        d <= s@.len(),
    ensures
        res == run_end(s@, d as int),
{
    let mut e = d;
    while e < s.len() && '0' <= s[e] && s[e] <= '9'
        invariant
            d <= e <= s@.len(),
            run_end(s@, d as int) == run_end(s@, e as int),
        decreases s@.len() - e,
    {
        e += 1;
    }
    e
}

/// The digits of a numbered name, as the positions where they start and end.
fn number_span(s: &Vec<char>) -> (res: Option<(usize, usize)>)
    ensures
        match res {
            Some((d, e)) => first_number_match(s@, 0) == Some(d as int) && e == run_end(
                s@,
                d as int,
            ) && no_line_feed_from(s@, e + 1) && d <= e <= s@.len(),
            None => numbered_name(s@) is None,
        },
{
    let mut d: usize = 0;
    while d < s.len()
        invariant
            d <= s@.len(),
            first_number_match(s@, 0) == first_number_match(s@, d as int),
        decreases s@.len() - d,
    {
        let e = run_end_exec(s, d);
        proof {
            lemma_run_end(s@, d as int);
        }
        if '0' <= s[d] && s[d] <= '9' && e < s.len() && s[e] == '.' && e + 1 < s.len() && s[e
            + 1] != '\n' {
            assert(number_match_at(s@, d as int));
            let mut j = e + 1;
            while j < s.len()
                invariant
                    d < s@.len(),
                    first_number_match(s@, 0) == first_number_match(s@, d as int),
                    number_match_at(s@, d as int),
                    e == run_end(s@, d as int),
                    e + 1 <= j <= s@.len(),
                    no_line_feed_from(s@, e + 1) == no_line_feed_from(s@, j as int),
                decreases s@.len() - j,
            {
                if s[j] == '\n' {
                    assert(!no_line_feed_from(s@, j as int));
                    assert(first_number_match(s@, d as int) == Some(d as int));
                    assert(numbered_name(s@) is None);
                    return None;
                }
                j += 1;
            }
            return Some((d, e));
        }
        d += 1;
    }
    None
}

/// The value of the digits of `s` in positions `from` up to `to`, where it
/// fits in a `u32`; `None` where it does not.
fn parse_number(s: &Vec<char>, from: usize, to: usize) -> (res: Option<u32>)
    requires
        from <= to <= s@.len(),
        forall|j: int| from <= j < to ==> is_digit(#[trigger] s@[j]),
    ensures
        match res {
            Some(n) => n == digits_value(s@.subrange(from as int, to as int)),
            None => digits_value(s@.subrange(from as int, to as int)) > u32::MAX,
        },
{
    let ghost ds = s@.subrange(from as int, to as int);
    let mut acc: u64 = 0;
    let mut i = from;
    assert(s@.subrange(from as int, from as int) =~= Seq::<char>::empty());
    while i < to
        invariant
            from <= i <= to <= s@.len(),
            ds == s@.subrange(from as int, to as int),
            forall|j: int| from <= j < to ==> is_digit(#[trigger] s@[j]),
            acc == digits_value(s@.subrange(from as int, i as int)),
            acc <= u32::MAX,
        decreases to - i,
    {
        proof {
            assert(ds.take(i + 1 - from) =~= s@.subrange(from as int, i + 1));
            lemma_digits_prefix(ds, i + 1 - from);
            assert(s@.subrange(from as int, i + 1).drop_last() =~= s@.subrange(
                from as int,
                i as int,
            ));
            assert(is_digit(s@[i as int]));
        }
        let digit = (s[i] as u32 - '0' as u32) as u64;
        acc = acc * 10 + digit;
        if acc > 0xffff_ffff {
            return None;
        }
        i += 1;
    }
    Some(acc as u32)
}

/// Whether any two of the paths that are both numbered names have numbers
/// that fit in a `u32`, as sorting them asks.
pub fn sortable(photos: &Vec<String>) -> (res: bool)
    ensures
        res == pairwise_numbers_fit(photos@),
{
    let mut seen_numbered = false;
    let mut seen_too_big = false;
    let mut i: usize = 0;
    assert(pairwise_numbers_fit(photos@.take(0)));
    while i < photos.len()
        invariant
            i <= photos@.len(),
            pairwise_numbers_fit(photos@.take(i as int)),
            seen_numbered == exists|k: int|
                0 <= k < i && (#[trigger] numbered_name(photos@[k]@)) is Some,
            seen_too_big == exists|k: int| 0 <= k < i && !number_fits(#[trigger] photos@[k]@),
        decreases photos@.len() - i,
    {
        let ghost x = photos@[i as int]@;
        let s = chars_of(photos[i].as_str());
        let (numbered, fits) = match number_span(&s) {
            Some((d, e)) => {
                proof {
                    lemma_first_number_match(s@, 0);
                    lemma_run_end(s@, d as int);
                }
                (true, parse_number(&s, d, e).is_some())
            },
            None => (false, true),
        };
        assert(numbered == (numbered_name(x) is Some));
        assert(fits == number_fits(x));
        if numbered && seen_numbered && (seen_too_big || !fits) {
            proof {
                reveal(numbers_fit);
                let k = if seen_too_big {
                    choose|k: int| 0 <= k < i && !number_fits(#[trigger] photos@[k]@)
                } else {
                    choose|k: int| 0 <= k < i && (#[trigger] numbered_name(photos@[k]@)) is Some
                };
                assert(!numbers_fit(photos@[k]@, photos@[i as int]@));
            }
            return false;
        }
        proof {
            reveal(numbers_fit);
            assert forall|k: int| 0 <= k < i implies numbers_fit(
                #[trigger] photos@[k]@,
                photos@[i as int]@,
            ) by {
                if numbered_name(photos@[k]@) is Some && numbered {
                    assert(!number_fits(photos@[k]@) ==> seen_too_big);
                }
            }
            lemma_pairwise_extend(photos@, i as int);
        }
        seen_too_big = seen_too_big || !fits;
        seen_numbered = seen_numbered || numbered;
        i += 1;
    }
    assert(photos@.take(photos@.len() as int) =~= photos@);
    true
}

/// Adding a path that fits with each earlier one keeps every pair fitting.
proof fn lemma_pairwise_extend(paths: Seq<String>, i: int)
    requires
        0 <= i < paths.len(),
        pairwise_numbers_fit(paths.take(i)),
        forall|k: int| 0 <= k < i ==> numbers_fit(#[trigger] paths[k]@, paths[i]@),
    ensures
        pairwise_numbers_fit(paths.take(i + 1)),
{
    reveal(numbers_fit);
    let t = paths.take(i + 1);
    let u = paths.take(i);
    assert forall|a: int, b: int| 0 <= a < t.len() && 0 <= b < t.len() && a != b implies #[trigger] numbers_fit(
        t[a]@,
        t[b]@,
    ) by {
        if a < i && b < i {
            assert(t[a] == u[a] && t[b] == u[b]);
            assert(numbers_fit(u[a]@, u[b]@));
        } else if a < i {
            assert(numbers_fit(paths[a]@, paths[i]@));
        } else {
            assert(numbers_fit(paths[b]@, paths[i]@));
        }
    }
}

/// Lexicographic comparison by character.
fn lex_compare(a: &Vec<char>, b: &Vec<char>) -> (res: PhotoOrder)
    ensures
        res == lex_order(a@, b@),
{
    let mut i: usize = 0;
    assert(a@.skip(0) =~= a@);
    assert(b@.skip(0) =~= b@);
    while i < a.len() && i < b.len()
        invariant
            i <= a@.len(),
            i <= b@.len(),
            lex_order(a@, b@) == lex_order(a@.skip(i as int), b@.skip(i as int)),
        decreases a@.len() - i,
    {
        if a[i] < b[i] {
            return PhotoOrder::Less;
        }
        if a[i] > b[i] {
            return PhotoOrder::Greater;
        }
        assert(a@.skip(i as int).drop_first() =~= a@.skip(i + 1));
        assert(b@.skip(i as int).drop_first() =~= b@.skip(i + 1));
        i += 1;
    }
    if i == a.len() && i == b.len() {
        PhotoOrder::Equal
    } else if i == a.len() {
        PhotoOrder::Less
    } else {
        PhotoOrder::Greater
    }
}

/// Compares two photo paths: by number when both are numbered names, by text
/// otherwise.
pub fn compare_photos(x: &str, y: &str) -> (res: PhotoOrder)
    requires
        numbers_fit(x@, y@),
    ensures
        res == photo_order(x@, y@),
{
    reveal(photo_order);
    reveal(numbers_fit);
    let xs = chars_of(x);
    let ys = chars_of(y);
    match (number_span(&xs), number_span(&ys)) {
        (Some((xd, xe)), Some((yd, ye))) => {
            proof {
                lemma_first_number_match(xs@, 0);
                lemma_first_number_match(ys@, 0);
                lemma_run_end(xs@, xd as int);
                lemma_run_end(ys@, yd as int);
            }
            let a = parse_number(&xs, xd, xe).unwrap();
            let b = parse_number(&ys, yd, ye).unwrap();
            if a < b {
                PhotoOrder::Less
            } else if a > b {
                PhotoOrder::Greater
            } else {
                PhotoOrder::Equal
            }
        },
        _ => lex_compare(&xs, &ys),
    }
}

/// `perm` lists, for each position of `out`, the position of `input` it came
/// from, each once; and wherever two paths come out in the other order than
/// they went in, the first is ordered strictly before the second.  So no
/// paths that compare equal change their order.
pub open spec fn stable_reorder(out: Seq<String>, input: Seq<String>, perm: Seq<int>) -> bool {
    &&& out.len() == input.len()
    &&& perm.len() == input.len()
    &&& forall|i: int| 0 <= i < perm.len() ==> 0 <= #[trigger] perm[i] < input.len()
    &&& forall|i: int, j: int| 0 <= i < j < perm.len() ==> #[trigger] perm[i] != #[trigger] perm[j]
    &&& forall|i: int| 0 <= i < out.len() ==> #[trigger] out[i] == input[perm[i]]
    &&& forall|i: int, j: int|
        0 <= i < j < out.len() && #[trigger] perm[i] > #[trigger] perm[j] ==> photo_order(
            out[i]@,
            out[j]@,
        ) == PhotoOrder::Less
}

/// Sorts photo paths so that each is ordered no later than the next (by
/// number for numbered names such as `dog-10.png`, by text otherwise).  The
/// sort is stable: it keeps exactly the given paths, and moves a path ahead of
/// an earlier one only where it is ordered strictly before it.
pub fn sort_photos(photos: &mut Vec<String>)
    requires
        pairwise_numbers_fit(old(photos)@),
    ensures
        final(photos)@.to_multiset() == old(photos)@.to_multiset(),
        adjacent_ordered(final(photos)@),
        exists|perm: Seq<int>| #[trigger] stable_reorder(final(photos)@, old(photos)@, perm),
{
    let ghost input = photos@;
    let mut sorted: Vec<String> = Vec::new();
    let ghost mut perm: Seq<int> = Seq::empty();
    proof {
        broadcast use vstd::seq_lib::group_to_multiset_ensures;

        assert(sorted@.to_multiset() =~= Multiset::empty());
        assert(sorted@.to_multiset().add(photos@.to_multiset()) =~= input.to_multiset());
        assert(input.skip(0) =~= input);
    }
    while photos.len() > 0
        invariant
            sorted@.to_multiset().add(photos@.to_multiset()) == input.to_multiset(),
            pairwise_numbers_fit(input),
            adjacent_ordered(sorted@),
            sorted@.len() + photos@.len() == input.len(),
            photos@ == input.skip(sorted@.len() as int),
            stable_reorder(sorted@, input.take(sorted@.len() as int), perm),
        decreases photos@.len(),
    {
        let ghost before = photos@;
        let ghost k = sorted@.len() as int;
        let ghost s = sorted@;
        let x = photos.remove(0);
        proof {
            broadcast use vstd::seq_lib::group_to_multiset_ensures;

            assert(before.remove(0).to_multiset() == before.to_multiset().remove(before[0]));
            assert(forall|i: int| 0 <= i < photos@.len() ==> photos@[i] == before[i + 1]);
            assert(photos@ =~= input.skip(k + 1));
            assert(x == input[k]);
            assert forall|m: int| 0 <= m < s.len() implies numbers_fit(
                x@,
                #[trigger] s[m]@,
            ) by {
                assert(s[m] == input.take(k)[perm[m]]);
                assert(numbers_fit(input[k]@, input[perm[m]]@));
            }
        }
        let j = insert_ordered(&mut sorted, x);
        proof {
            broadcast use vstd::seq_lib::group_to_multiset_ensures;

            assert(sorted@.to_multiset().add(photos@.to_multiset()) =~= input.to_multiset());
            lemma_stable_insert(s, input, perm, k, j as int);
            perm = perm.insert(j as int, k);
        }
    }
    proof {
        broadcast use vstd::seq_lib::group_to_multiset_ensures;

        assert(photos@.to_multiset() =~= Multiset::empty());
        assert(sorted@.to_multiset() =~= input.to_multiset());
        assert(input.take(input.len() as int) =~= input);
        assert(stable_reorder(sorted@, input, perm));
    }
    *photos = sorted;
}

proof fn lemma_stable_insert(s: Seq<String>, input: Seq<String>, perm: Seq<int>, k: int, j: int)
    requires
        0 <= k < input.len(),
        s.len() == k,
        0 <= j <= k,
        stable_reorder(s, input.take(k), perm),
        forall|b: int| j <= b < s.len() ==> photo_order(input[k]@, #[trigger] s[b]@) == PhotoOrder::Less,
    ensures
        stable_reorder(s.insert(j, input[k]), input.take(k + 1), perm.insert(j, k)),
{
    let x = input[k];
    let t = s.insert(j, x);
    let q = perm.insert(j, k);
    let inp = input.take(k + 1);
    lemma_insert_index(s, x, j);
    lemma_insert_index(perm, k, j);
    assert forall|i: int| 0 <= i < q.len() implies 0 <= #[trigger] q[i] < inp.len() by {
        if i < j {
            assert(q[i] == perm[i]);
        } else if i > j {
            assert(q[i] == perm[i - 1]);
        }
    }
    assert forall|a: int, b: int| 0 <= a < b < q.len() implies #[trigger] q[a] != #[trigger] q[b] by {
        if a < j && b < j {
            assert(q[a] == perm[a] && q[b] == perm[b]);
        } else if a < j && b == j {
            assert(q[a] == perm[a]);
        } else if a < j && b > j {
            assert(q[a] == perm[a] && q[b] == perm[b - 1]);
        } else if a == j {
            assert(q[b] == perm[b - 1]);
        } else {
            assert(q[a] == perm[a - 1] && q[b] == perm[b - 1]);
        }
    }
    assert forall|i: int| 0 <= i < t.len() implies #[trigger] t[i] == inp[q[i]] by {
        if i < j {
            assert(t[i] == s[i] && q[i] == perm[i]);
            assert(s[i] == input.take(k)[perm[i]]);
        } else if i > j {
            assert(t[i] == s[i - 1] && q[i] == perm[i - 1]);
            assert(s[i - 1] == input.take(k)[perm[i - 1]]);
        }
    }
    assert forall|a: int, b: int|
        0 <= a < b < t.len() && #[trigger] q[a] > #[trigger] q[b] implies photo_order(
        t[a]@,
        t[b]@,
    ) == PhotoOrder::Less by {
        if a < j && b < j {
            assert(q[a] == perm[a] && q[b] == perm[b]);
            assert(t[a] == s[a] && t[b] == s[b]);
        } else if a < j && b == j {
            assert(q[a] == perm[a]);
        } else if a < j && b > j {
            assert(q[a] == perm[a] && q[b] == perm[b - 1]);
            assert(t[a] == s[a] && t[b] == s[b - 1]);
        } else if a == j {
            assert(t[a] == x && t[b] == s[b - 1]);
            assert(photo_order(x@, s[b - 1]@) == PhotoOrder::Less);
        } else {
            assert(q[a] == perm[a - 1] && q[b] == perm[b - 1]);
            assert(t[a] == s[a - 1] && t[b] == s[b - 1]);
        }
    }
}

/// Inserts `x` after every element that is not ordered after it, and tells where.
fn insert_ordered(sorted: &mut Vec<String>, x: String) -> (j: usize)
    requires
        forall|k: int| 0 <= k < old(sorted)@.len() ==> numbers_fit(x@, #[trigger] old(sorted)@[k]@),
        adjacent_ordered(old(sorted)@),
    ensures
        j <= old(sorted)@.len(),
        final(sorted)@ == old(sorted)@.insert(j as int, x),
        forall|b: int|
            j <= b < old(sorted)@.len() ==> photo_order(x@, #[trigger] old(sorted)@[b]@)
                == PhotoOrder::Less,
        final(sorted)@.to_multiset() == old(sorted)@.to_multiset().insert(x),
        adjacent_ordered(final(sorted)@),
{
    let ghost s = sorted@;
    let mut j = sorted.len();
    while j > 0 && compare_photos(x.as_str(), sorted[j - 1].as_str()) == PhotoOrder::Less
        invariant
            j <= s.len(),
            sorted@ == s,
            forall|k: int| 0 <= k < s.len() ==> numbers_fit(x@, #[trigger] s[k]@),
            forall|k: int| j <= k < s.len() ==> photo_order(x@, #[trigger] s[k]@) == PhotoOrder::Less,
        decreases j,
    {
        j -= 1;
    }
    let ghost at = j as int;
    sorted.insert(j, x);
    proof {
        vstd::seq_lib::to_multiset_insert(s, at, x);
        lemma_insert_keeps_order(s, x, at);
    }
    j
}

proof fn lemma_insert_index<A>(s: Seq<A>, x: A, j: int)
    requires
        0 <= j <= s.len(),
    ensures
        s.insert(j, x).len() == s.len() + 1,
        forall|i: int| 0 <= i < j ==> #[trigger] s.insert(j, x)[i] == s[i],
        s.insert(j, x)[j] == x,
        forall|i: int| j < i <= s.len() ==> #[trigger] s.insert(j, x)[i] == s[i - 1],
{
}

proof fn lemma_insert_keeps_order(s: Seq<String>, x: String, j: int)
    requires
        0 <= j <= s.len(),
        adjacent_ordered(s),
        j > 0 ==> photo_order(x@, s[j - 1]@) != PhotoOrder::Less,
        forall|k: int| j <= k < s.len() ==> photo_order(x@, #[trigger] s[k]@) == PhotoOrder::Less,
    ensures
        adjacent_ordered(s.insert(j, x)),
{
    let t = s.insert(j, x);
    lemma_insert_index(s, x, j);
    if j > 0 {
        lemma_photo_order_antisymmetric(x@, s[j - 1]@);
    }
    assert forall|i: int| 0 <= i < t.len() - 1 implies #[trigger] photo_order(
        t[i]@,
        t[i + 1]@,
    ) != PhotoOrder::Greater by {
        if i + 1 < j {
            assert(t[i] == s[i] && t[i + 1] == s[i + 1]);
            assert(photo_order(s[i]@, s[i + 1]@) != PhotoOrder::Greater);
        } else if i + 1 == j {
            assert(t[i] == s[i] && t[i + 1] == x);
        } else if i == j {
            assert(t[i] == x && t[i + 1] == s[i]);
            assert(photo_order(x@, s[i]@) == PhotoOrder::Less);
        } else {
            assert(t[i] == s[i - 1] && t[i + 1] == s[i]);
            let k = i - 1;
            assert(photo_order(s[k]@, s[k + 1]@) != PhotoOrder::Greater);
            assert(s[k + 1] == s[i]);
        }
    }
}

} // verus!
