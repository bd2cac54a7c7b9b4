//! Update check: the latest GitHub release tag comes from the redirect
//! `Location` of /releases/latest; tags "vX.Y.Z" are compared numerically.
use vstd::prelude::*;
use crate::text::{
    find_class, first_in, in_class, lemma_first_in, lemma_stop_at_unique, matches_at, occurs_at,
    stop_at, to_chars, CharClass,
};

verus! {

/// The number a string of ASCII digits spells, in base ten.
pub open spec fn digits_value(s: Seq<char>) -> int
    decreases s.len(),
{
    if s.len() == 0 {
        0
    } else {
        digits_value(s.drop_last()) * 10 + (s.last() as int - '0' as int)
    }
}

pub open spec fn is_digit(c: char) -> bool {
    '0' <= c <= '9'
}

/// A release-tag number: one or more ASCII digits whose value fits in a
/// `u32` (leading zeros allowed).
pub open spec fn parse_u32_spec(s: Seq<char>) -> Option<u32> {
    if s.len() > 0 && all_digits(s) && digits_value(s) <= u32::MAX {
        Some(digits_value(s) as u32)
    } else {
        None
    }
}

pub open spec fn all_digits(d: Seq<char>) -> bool {
    forall|i: int| 0 <= i < d.len() ==> is_digit(#[trigger] d[i])
}

/// `s` split at every `.`, as `str::split('.')` does: one more part than
/// there are dots, parts possibly empty.
pub open spec fn split_dots(s: Seq<char>) -> Seq<Seq<char>>
    decreases s.len(),
{
    proof {
        lemma_first_in(s, CharClass::Is('.'));
    }
    match first_in(s, CharClass::Is('.')) {
        None => seq![s],
        Some(i) => seq![s.take(i)].add(split_dots(s.skip(i + 1))),
    }
}

/// "vX.Y.Z" → (X, Y, Z): a `v`, then exactly three dot-separated `u32`
/// numbers.
pub open spec fn parse_tag_spec(tag: Seq<char>) -> Option<(u32, u32, u32)> {
    if tag.len() > 0 && tag[0] == 'v' {
        let parts = split_dots(tag.drop_first());
        if parts.len() == 3 {
            match (parse_u32_spec(parts[0]), parse_u32_spec(parts[1]), parse_u32_spec(parts[2])) {
                (Some(x), Some(y), Some(z)) => Some((x, y, z)),
                _ => None,
            }
        } else {
            None
        }
    } else {
        None
    }
}

proof fn lemma_digits_value_grows(s: Seq<char>, c: char)
    requires
        forall|i: int| 0 <= i < s.len() ==> is_digit(#[trigger] s[i]),
        is_digit(c),
    ensures
        digits_value(s.push(c)) >= digits_value(s) * 10,
        digits_value(s.push(c)) == digits_value(s) * 10 + (c as int - '0' as int),
        digits_value(s) >= 0,
    decreases s.len(),
{
    assert(s.push(c).drop_last() =~= s);
    if s.len() > 0 {
        lemma_digits_value_grows(s.drop_last(), s.last());
        assert(s.drop_last().push(s.last()) =~= s);
    }
}

/// The release-tag number spelled by the window `v[from..to]`, if any.
fn parse_u32(v: &Vec<char>, from: usize, to: usize) -> (r: Option<u32>)
    requires
        from <= to <= v@.len(),
    ensures
        r == parse_u32_spec(v@.subrange(from as int, to as int)),
{
    let ghost s = v@.subrange(from as int, to as int);
    if from == to {
        return None;
    }
    let mut value: u64 = 0;
    let mut over = false;
    let mut k = from;
    while k < to
        invariant
            from <= k <= to <= v@.len(),
            s == v@.subrange(from as int, to as int),
            forall|i: int| from <= i < k ==> is_digit(#[trigger] v@[i]),
            over ==> digits_value(v@.subrange(from as int, k as int)) > u32::MAX,
            !over ==> value == digits_value(v@.subrange(from as int, k as int)),
            value <= u32::MAX,
        decreases to - k,
    {
        let c = v[k];
        let ghost prefix = v@.subrange(from as int, k as int);
        assert(v@.subrange(from as int, k + 1) =~= prefix.push(c));
        if !('0' <= c && c <= '9') {
            assert(!is_digit(s[k - from]));
            return None;
        }
        proof {
            assert forall|i: int| 0 <= i < prefix.len() implies is_digit(#[trigger] prefix[i]) by {
                assert(prefix[i] == v@[from + i]);
            }
            lemma_digits_value_grows(prefix, c);
        }
        if !over {
            let next = value * 10 + (c as u64 - '0' as u64);
            if next > 0xFFFF_FFFF {
                over = true;
            } else {
                value = next;
            }
        }
        k += 1;
    }
    assert(v@.subrange(from as int, to as int) == s);
    assert forall|i: int| 0 <= i < s.len() implies is_digit(#[trigger] s[i]) by {
        assert(s[i] == v@[from + i]);
    }
    if over {
        None
    } else {
        Some(value as u32)
    }
}

/// "vX.Y.Z" → (X, Y, Z). None for anything else (dev hashes, rc suffixes).
pub fn parse_tag(tag: &str) -> (r: Option<(u32, u32, u32)>)
    ensures
        r == parse_tag_spec(tag@),
{
    let t = to_chars(tag);
    let len = t.len();
    if len == 0 || t[0] != 'v' {
        return None;
    }
    let ghost body = t@.drop_first();
    assert(body =~= t@.subrange(1, len as int));
    // Up to four parts: a fourth means too many.
    let a_end = find_class(&t, 1, len, CharClass::Is('.'));
    proof {
        lemma_first_in(t@.subrange(1, len as int), CharClass::Is('.'));
    }
    if a_end == len {
        assert(split_dots(body) == seq![body]);
        return None;
    }
    assert(first_in(body, CharClass::Is('.')) == Some(a_end - 1));
    let ghost rest1 = body.skip(a_end - 1 + 1);
    assert(rest1 =~= t@.subrange(a_end + 1, len as int));
    assert(body.take(a_end - 1) =~= t@.subrange(1, a_end as int));
    let b_end = find_class(&t, a_end + 1, len, CharClass::Is('.'));
    proof {
        lemma_first_in(rest1, CharClass::Is('.'));
    }
    if b_end == len {
        assert(split_dots(rest1) == seq![rest1]);
        assert(split_dots(body).len() == 2);
        return None;
    }
    assert(first_in(rest1, CharClass::Is('.')) == Some(b_end - (a_end + 1)));
    let ghost rest2 = rest1.skip(b_end - (a_end + 1) + 1);
    assert(rest2 =~= t@.subrange(b_end + 1, len as int));
    assert(rest1.take(b_end - (a_end + 1)) =~= t@.subrange(a_end + 1, b_end as int));
    let c_end = find_class(&t, b_end + 1, len, CharClass::Is('.'));
    proof {
        lemma_first_in(rest2, CharClass::Is('.'));
    }
    if c_end != len {
        assert(first_in(rest2, CharClass::Is('.')) == Some(c_end - (b_end + 1)));
        let ghost rest3 = rest2.skip(c_end - (b_end + 1) + 1);
        assert(split_dots(rest2).len() >= 2) by {
            assert(split_dots(rest2) == seq![rest2.take(c_end - (b_end + 1))].add(split_dots(rest3)));
            lemma_first_in(rest3, CharClass::Is('.'));
        }
        assert(split_dots(rest1).len() >= 3);
        assert(split_dots(body).len() > 3);
        return None;
    }
    assert(first_in(rest2, CharClass::Is('.')) is None);
    assert(split_dots(rest2) == seq![rest2]);
    assert(split_dots(rest1) =~= seq![rest1.take(b_end - (a_end + 1)), rest2]);
    assert(split_dots(body) =~= seq![
        t@.subrange(1, a_end as int),
        t@.subrange(a_end + 1, b_end as int),
        t@.subrange(b_end + 1, len as int),
    ]);
    let x = parse_u32(&t, 1, a_end);
    let y = parse_u32(&t, a_end + 1, b_end);
    let z = parse_u32(&t, b_end + 1, len);
    match (x, y, z) {
        (Some(x), Some(y), Some(z)) => Some((x, y, z)),
        _ => None,
    }
}

/// Strict lexicographic order on version triples.
pub open spec fn version_gt(a: (u32, u32, u32), b: (u32, u32, u32)) -> bool {
    a.0 > b.0 || (a.0 == b.0 && (a.1 > b.1 || (a.1 == b.1 && a.2 > b.2)))
}

/// True only when both tags parse and remote is strictly newer.
pub open spec fn is_newer_spec(remote: Seq<char>, local: Seq<char>) -> bool {
    match (parse_tag_spec(remote), parse_tag_spec(local)) {
        (Some(r), Some(l)) => version_gt(r, l),
        _ => false,
    }
}

/// True only when both tags parse and remote is strictly newer: a local
/// dev build or a re-tag must not nag.
pub fn is_newer(remote: &str, local: &str) -> (r: bool)
    ensures
        r == is_newer_spec(remote@, local@),
{
    match (parse_tag(remote), parse_tag(local)) {
        (Some(r), Some(l)) => r.0 > l.0 || (r.0 == l.0 && (r.1 > l.1 || (r.1 == l.1 && r.2 > l.2))),
        _ => false,
    }
}

/// "Newer" is a strict order on release tags: a tag is never newer than
/// itself (a re-tag does not nag), never both newer and older than another,
/// and newer-than chains; a tag that does not parse (a dev build) is never
/// newer nor older than anything.
pub proof fn lemma_is_newer_strict_order(a: Seq<char>, b: Seq<char>, c: Seq<char>)
    ensures
        !is_newer_spec(a, a),
        is_newer_spec(a, b) ==> !is_newer_spec(b, a),
        is_newer_spec(a, b) && is_newer_spec(b, c) ==> is_newer_spec(a, c),
        parse_tag_spec(a) is None ==> !is_newer_spec(a, b) && !is_newer_spec(b, a),
{
}

/// The ASCII digit for `d` (0 to 9).
pub open spec fn digit_char(d: nat) -> char {
    if d == 0 {
        '0'
    } else if d == 1 {
        '1'
    } else if d == 2 {
        '2'
    } else if d == 3 {
        '3'
    } else if d == 4 {
        '4'
    } else if d == 5 {
        '5'
    } else if d == 6 {
        '6'
    } else if d == 7 {
        '7'
    } else if d == 8 {
        '8'
    } else {
        '9'
    }
}

/// The decimal digits of `n`, as `format!("{n}")` writes them: no leading
/// zeros, "0" for zero.
pub open spec fn decimal(n: nat) -> Seq<char>
    decreases n,
{
    if n < 10 {
        seq![digit_char(n)]
    } else {
        decimal(n / 10).push(digit_char(n % 10))
    }
}

/// The tag text `v{x}.{y}.{z}`.
pub open spec fn tag_text(x: u32, y: u32, z: u32) -> Seq<char> {
    seq!['v'] + decimal(x as nat) + seq!['.'] + decimal(y as nat) + seq!['.'] + decimal(z as nat)
}

proof fn lemma_digit_char(d: nat)
    requires
        d < 10,
    ensures
        is_digit(digit_char(d)),
        digit_char(d) as int - '0' as int == d,
        digit_char(d) != '.',
{
}

proof fn lemma_decimal(n: nat)
    ensures
        decimal(n).len() > 0,
        all_digits(decimal(n)),
        digits_value(decimal(n)) == n,
        forall|i: int| 0 <= i < decimal(n).len() ==> !in_class(CharClass::Is('.'), #[trigger] decimal(n)[i]),
    decreases n,
{
    if n < 10 {
        lemma_digit_char(n);
        assert(seq![digit_char(n)].drop_last() =~= Seq::<char>::empty());
        assert(digits_value(decimal(n)) == digits_value(Seq::<char>::empty()) * 10 + (digit_char(n) as int - '0' as int));
    } else {
        lemma_decimal(n / 10);
        lemma_digit_char(n % 10);
        assert(n == (n / 10) * 10 + n % 10);
        let s = decimal(n / 10);
        let c = digit_char(n % 10);
        assert(s.push(c).drop_last() =~= s);
        assert(forall|i: int| 0 <= i < s.len() ==> #[trigger] s.push(c)[i] == s[i]);
        assert(decimal(n) == s.push(c));
        assert(digits_value(s.push(c)) == digits_value(s) * 10 + (c as int - '0' as int));
    }
}

/// A dot-free `a`, a dot, then `rest` splits into `a` and the parts of
/// `rest`.
proof fn lemma_split_after(a: Seq<char>, rest: Seq<char>)
    requires
        forall|i: int| 0 <= i < a.len() ==> !in_class(CharClass::Is('.'), #[trigger] a[i]),
    ensures
        split_dots(a + seq!['.'] + rest) == seq![a] + split_dots(rest),
{
    let s = a + seq!['.'] + rest;
    assert forall|j: int| 0 <= j < a.len() implies !in_class(CharClass::Is('.'), #[trigger] s[j]) by {
        assert(s[j] == a[j]);
    }
    assert(s[a.len() as int] == '.');
    lemma_stop_at_unique(s, CharClass::Is('.'), a.len() as int);
    lemma_first_in(s, CharClass::Is('.'));
    assert(s.take(a.len() as int) =~= a);
    assert(s.skip(a.len() as int + 1) =~= rest);
}

/// Every tag written as `v{x}.{y}.{z}` reads back as `(x, y, z)`.
pub proof fn lemma_parse_tag_reads_back(x: u32, y: u32, z: u32)
    ensures
        parse_tag_spec(tag_text(x, y, z)) == Some((x, y, z)),
{
    let (dx, dy, dz) = (decimal(x as nat), decimal(y as nat), decimal(z as nat));
    lemma_decimal(x as nat);
    lemma_decimal(y as nat);
    lemma_decimal(z as nat);
    let t = tag_text(x, y, z);
    assert(t.drop_first() =~= dx + seq!['.'] + (dy + seq!['.'] + dz));
    lemma_split_after(dx, dy + seq!['.'] + dz);
    lemma_split_after(dy, dz);
    lemma_first_in(dz, CharClass::Is('.'));
    assert(split_dots(dz) == seq![dz]);
    let parts = split_dots(t.drop_first());
    assert(parts =~= seq![dx, dy, dz]);
}

/// The index of the last occurrence of `pat` in `s`, if any.
pub open spec fn rfind_seq(s: Seq<char>, pat: Seq<char>) -> Option<int>
    decreases s.len(),
{
    if s.len() < pat.len() {
        None
    } else if occurs_at(s, pat, s.len() - pat.len()) {
        Some(s.len() - pat.len())
    } else if s.len() == 0 {
        None
    } else {
        rfind_seq(s.drop_last(), pat)
    }
}

proof fn lemma_rfind_seq(s: Seq<char>, pat: Seq<char>)
    ensures
        match rfind_seq(s, pat) {
            Some(i) => occurs_at(s, pat, i) && forall|j: int| i < j ==> !#[trigger] occurs_at(s, pat, j),
            None => forall|j: int| !#[trigger] occurs_at(s, pat, j),
        },
    decreases s.len(),
{
    if s.len() < pat.len() {
    } else if occurs_at(s, pat, s.len() - pat.len()) {
    } else if s.len() == 0 {
    } else {
        let init = s.drop_last();
        lemma_rfind_seq(init, pat);
        assert forall|j: int| j + pat.len() < s.len() implies occurs_at(s, pat, j) == occurs_at(init, pat, j) by {
            if 0 <= j {
                assert(s.subrange(j, j + pat.len()) =~= init.subrange(j, j + pat.len()));
            }
        }
    }
}

/// The release tag at the end of a `Location` header: everything after its
/// last "/tag/", or nothing when it has none.
pub open spec fn tag_from_location_spec(location: Seq<char>) -> Option<Seq<char>> {
    match rfind_seq(location, "/tag/"@) {
        Some(i) => Some(location.skip(i + "/tag/"@.len())),
        None => None,
    }
}

/// The part of a `Location` header after its last "/tag/"
/// (`…/releases/tag/vX.Y.Z` → `vX.Y.Z`).
pub fn tag_from_location(location: &str) -> (r: Option<String>)
    ensures
        match r {
            Some(t) => tag_from_location_spec(location@) == Some(t@),
            None => tag_from_location_spec(location@) is None,
        },
{
    let l = to_chars(location);
    let pat = to_chars("/tag/");
    let len = l.len();
    if len < pat.len() {
        proof {
            lemma_rfind_seq(l@, pat@);
        }
        return None;
    }
    let mut k = len - pat.len();
    loop
        invariant
            0 <= k <= len - pat@.len(),
            len == l@.len(),
            l@ == location@,
            pat@ == "/tag/"@,
            pat@.len() <= len,
            forall|j: int| k < j ==> !#[trigger] occurs_at(l@, pat@, j),
        ensures
            occurs_at(l@, pat@, k as int),
        decreases k,
    {
        let found = matches_at(&l, k, len, &pat);
        proof {
            assert(l@.subrange(k as int, len as int).subrange(0, pat@.len() as int) =~= l@.subrange(
                k as int,
                k + pat@.len(),
            ));
        }
        if found {
            break;
        }
        if k == 0 {
            proof {
                assert(!occurs_at(l@, pat@, 0));
                lemma_rfind_seq(l@, pat@);
            }
            return None;
        }
        k -= 1;
    }
    let at = k;
    proof {
        assert(occurs_at(l@, pat@, at as int));
        lemma_rfind_seq(l@, pat@);
    }
    let start = at + pat.len();
    Some(location.substring_char(start, len).to_owned())
}

} // verus!
