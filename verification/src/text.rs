//! Character-level scanning primitives shared by the parsers: whitespace as
//! Rust's `char::is_whitespace` defines it (the Unicode White_Space
//! property), first-match searches and slice comparison, each over a window
//! `[from, to)` of a character vector.
use vstd::prelude::*;

verus! {

/// The Unicode White_Space property, which `char::is_whitespace` tests.
pub open spec fn is_ws(c: char) -> bool {
    let u = c as u32;
    (0x09 <= u <= 0x0D) || u == 0x20 || u == 0x85 || u == 0xA0 || u == 0x1680 || (0x2000 <= u
        <= 0x200A) || u == 0x2028 || u == 0x2029 || u == 0x202F || u == 0x205F || u == 0x3000
}

/// Whether `c` is whitespace (Unicode White_Space).
pub fn is_whitespace(c: char) -> (r: bool)
    ensures
        r == is_ws(c),
{
    let u = c as u32;
    (0x09 <= u && u <= 0x0D) || u == 0x20 || u == 0x85 || u == 0xA0 || u == 0x1680 || (0x2000 <= u
        && u <= 0x200A) || u == 0x2028 || u == 0x2029 || u == 0x202F || u == 0x205F || u == 0x3000
}

/// Classes of characters a scan can stop at.
pub enum CharClass {
    /// Whitespace.
    Space,
    /// Anything but whitespace.
    NonSpace,
    /// Whitespace, `=` or `>`: the end of an attribute key.
    KeyEnd,
    /// Whitespace or `>`: the end of an unquoted attribute value.
    ValueEnd,
    /// One given character.
    Is(char),
}

pub open spec fn in_class(cls: CharClass, c: char) -> bool {
    match cls {
        CharClass::Space => is_ws(c),
        CharClass::NonSpace => !is_ws(c),
        CharClass::KeyEnd => is_ws(c) || c == '=' || c == '>',
        CharClass::ValueEnd => is_ws(c) || c == '>',
        CharClass::Is(d) => c == d,
    }
}

/// Index of the first character of `s` in `cls`, if any.
pub open spec fn first_in(s: Seq<char>, cls: CharClass) -> Option<int>
    decreases s.len(),
{
    if s.len() == 0 {
        None
    } else if in_class(cls, s[0]) {
        Some(0)
    } else {
        match first_in(s.drop_first(), cls) {
            Some(i) => Some(i + 1),
            None => None,
        }
    }
}

/// Index of the first character of `s` in `cls`, or the length of `s`.
pub open spec fn stop_at(s: Seq<char>, cls: CharClass) -> int {
    match first_in(s, cls) {
        Some(i) => i,
        None => s.len() as int,
    }
}

/// `s` without its leading whitespace.
pub open spec fn trim_start(s: Seq<char>) -> Seq<char> {
    s.skip(stop_at(s, CharClass::NonSpace))
}

pub proof fn lemma_first_in(s: Seq<char>, cls: CharClass)
    ensures
        match first_in(s, cls) {
            Some(i) => 0 <= i < s.len() && in_class(cls, s[i]) && forall|j: int|
                0 <= j < i ==> !in_class(cls, #[trigger] s[j]),
            None => forall|j: int| 0 <= j < s.len() ==> !in_class(cls, #[trigger] s[j]),
        },
        0 <= stop_at(s, cls) <= s.len(),
    decreases s.len(),
{
    if s.len() > 0 {
        let rest = s.drop_first();
        lemma_first_in(rest, cls);
        assert forall|j: int| 0 <= j < rest.len() implies rest[j] == s[j + 1] by {}
        if !in_class(cls, s[0]) {
            match first_in(rest, cls) {
                Some(i) => {
                    assert forall|j: int| 0 <= j < i + 1 implies !in_class(cls, #[trigger] s[j]) by {
                        if j > 0 {
                            assert(s[j] == rest[j - 1]);
                        }
                    }
                },
                None => {
                    assert forall|j: int| 0 <= j < s.len() implies !in_class(cls, #[trigger] s[j]) by {
                        if j > 0 {
                            assert(s[j] == rest[j - 1]);
                        }
                    }
                },
            }
        }
    }
}

/// `stop_at` is the first index in the class, or the length when none is.
pub proof fn lemma_stop_at_unique(s: Seq<char>, cls: CharClass, i: int)
    requires
        0 <= i <= s.len(),
        i < s.len() ==> in_class(cls, s[i]),
        forall|j: int| 0 <= j < i ==> !in_class(cls, #[trigger] s[j]),
    ensures
        stop_at(s, cls) == i,
        i < s.len() <==> first_in(s, cls) is Some,
{
    lemma_first_in(s, cls);
}

fn class_matches(cls: &CharClass, c: char) -> (r: bool)
    ensures
        r == in_class(*cls, c),
{
    match cls {
        CharClass::Space => is_whitespace(c),
        CharClass::NonSpace => !is_whitespace(c),
        CharClass::KeyEnd => is_whitespace(c) || c == '=' || c == '>',
        CharClass::ValueEnd => is_whitespace(c) || c == '>',
        CharClass::Is(d) => c == *d,
    }
}

/// The first index in `[from, to)` whose character is in `cls`, or `to`.
pub fn find_class(v: &Vec<char>, from: usize, to: usize, cls: CharClass) -> (r: usize)
    requires
        from <= to <= v@.len(),
    ensures
        from <= r <= to,
        r == from + stop_at(v@.subrange(from as int, to as int), cls),
{
    let mut k = from;
    while k < to && !class_matches(&cls, v[k])
        invariant
            from <= k <= to,
            to <= v@.len(),
            forall|j: int| from <= j < k ==> !in_class(cls, #[trigger] v@[j]),
        decreases to - k,
    {
        k += 1;
    }
    proof {
        let s = v@.subrange(from as int, to as int);
        assert forall|j: int| 0 <= j < k - from implies !in_class(cls, #[trigger] s[j]) by {
            assert(s[j] == v@[from + j]);
        }
        lemma_stop_at_unique(s, cls, k - from);
    }
    k
}

/// `s` holds `pat` starting at index `i`.
pub open spec fn occurs_at(s: Seq<char>, pat: Seq<char>, i: int) -> bool {
    0 <= i && i + pat.len() <= s.len() && s.subrange(i, i + pat.len()) == pat
}

/// Index of the first occurrence of `pat` in `s`, if any.
pub open spec fn find_seq(s: Seq<char>, pat: Seq<char>) -> Option<int>
    decreases s.len(),
{
    if s.len() < pat.len() {
        None
    } else if s.take(pat.len() as int) == pat {
        Some(0)
    } else if s.len() == 0 {
        None
    } else {
        match find_seq(s.drop_first(), pat) {
            Some(i) => Some(i + 1),
            None => None,
        }
    }
}

pub proof fn lemma_find_seq(s: Seq<char>, pat: Seq<char>)
    ensures
        match find_seq(s, pat) {
            Some(i) => occurs_at(s, pat, i) && forall|j: int| 0 <= j < i ==> !#[trigger] occurs_at(s, pat, j),
            None => forall|j: int| !#[trigger] occurs_at(s, pat, j),
        },
    decreases s.len(),
{
    if s.len() < pat.len() {
    } else if s.take(pat.len() as int) == pat {
        assert(s.subrange(0, pat.len() as int) == s.take(pat.len() as int));
    } else if s.len() == 0 {
        assert(pat.len() == 0);
        assert(s.take(0) =~= pat);
    } else {
        let rest = s.drop_first();
        lemma_find_seq(rest, pat);
        assert forall|j: int| 0 <= j implies occurs_at(s, pat, j + 1) == occurs_at(rest, pat, j) by {
            if j + 1 + pat.len() <= s.len() {
                assert(s.subrange(j + 1, j + 1 + pat.len()) =~= rest.subrange(j, j + pat.len()));
            }
        }
        assert(!occurs_at(s, pat, 0)) by {
            if occurs_at(s, pat, 0) {
                assert(s.subrange(0, pat.len() as int) =~= s.take(pat.len() as int));
            }
        }
        match find_seq(rest, pat) {
            Some(i) => {
                assert(occurs_at(s, pat, i + 1));
                assert forall|j: int| 0 <= j < i + 1 implies !#[trigger] occurs_at(s, pat, j) by {
                    if j > 0 {
                        assert(occurs_at(s, pat, (j - 1) + 1) == occurs_at(rest, pat, j - 1));
                    }
                }
            },
            None => {
                assert forall|j: int| !#[trigger] occurs_at(s, pat, j) by {
                    if j > 0 {
                        assert(occurs_at(s, pat, (j - 1) + 1) == occurs_at(rest, pat, j - 1));
                    }
                }
            },
        }
    }
}

/// `find_seq` is the first occurrence.
pub proof fn lemma_find_seq_unique(s: Seq<char>, pat: Seq<char>, i: int)
    requires
        occurs_at(s, pat, i),
        forall|j: int| 0 <= j < i ==> !#[trigger] occurs_at(s, pat, j),
    ensures
        find_seq(s, pat) == Some(i),
{
    lemma_find_seq(s, pat);
}

/// Whether `v[from..from + w.len()]` equals `w`.
pub fn matches_at(v: &Vec<char>, from: usize, to: usize, w: &Vec<char>) -> (r: bool)
    requires
        from <= to <= v@.len(),
    ensures
        r == occurs_at(v@.subrange(from as int, to as int), w@, 0),
{
    if w.len() > to - from {
        return false;
    }
    let mut k: usize = 0;
    while k < w.len()
        invariant
            from + w@.len() <= to <= v@.len(),
            k <= w.len(),
            forall|j: int| 0 <= j < k ==> v@[from + j] == w@[j],
        decreases w.len() - k,
    {
        if v[from + k] != w[k] {
            proof {
                let s = v@.subrange(from as int, to as int);
                assert(s.subrange(0, w@.len() as int)[k as int] != w@[k as int]);
            }
            return false;
        }
        k += 1;
    }
    proof {
        let s = v@.subrange(from as int, to as int);
        assert(s.subrange(0, w@.len() as int) =~= w@);
    }
    true
}

/// The first index in `[from, to)` where `w` occurs inside the window, if any.
pub fn find_chars(v: &Vec<char>, from: usize, to: usize, w: &Vec<char>) -> (r: Option<usize>)
    requires
        from <= to <= v@.len(),
    ensures
        r matches Some(i) ==> from <= i <= to,
        r == (match find_seq(v@.subrange(from as int, to as int), w@) {
            Some(i) => Some((from + i) as usize),
            None => None::<usize>,
        }),
{
    let ghost s = v@.subrange(from as int, to as int);
    let mut k = from;
    while k < to && !matches_at(v, k, to, w)
        invariant
            from <= k <= to,
            to <= v@.len(),
            s == v@.subrange(from as int, to as int),
            forall|j: int| 0 <= j < k - from ==> !#[trigger] occurs_at(s, w@, j),
        decreases to - k,
    {
        proof {
            let t = v@.subrange(k as int, to as int);
            if occurs_at(s, w@, k - from) {
                assert(t.subrange(0, w@.len() as int) =~= s.subrange(k - from, k - from + w@.len()));
            }
        }
        k += 1;
    }
    proof {
        lemma_find_seq(s, w@);
    }
    if k < to {
        proof {
            let t = v@.subrange(k as int, to as int);
            assert(t.subrange(0, w@.len() as int) =~= s.subrange(k - from, k - from + w@.len()));
            lemma_find_seq_unique(s, w@, k - from);
        }
        Some(k)
    } else if w.len() == 0 {
        // The empty pattern occurs at the end of the window.
        proof {
            assert(s.subrange(k - from, k - from) =~= w@);
            lemma_find_seq_unique(s, w@, k - from);
        }
        Some(k)
    } else {
        None
    }
}

/// The characters `s[from..to]` as a string.
pub fn substring(s: &str, from: usize, to: usize) -> (r: String)
    requires
        from <= to <= s@.len(),
    ensures
        r@ == s@.subrange(from as int, to as int),
{
    s.substring_char(from, to).to_owned()
}

/// `s` without its trailing whitespace.
pub open spec fn trim_end(s: Seq<char>) -> Seq<char>
    decreases s.len(),
{
    if s.len() > 0 && is_ws(s.last()) {
        trim_end(s.drop_last())
    } else {
        s
    }
}

/// The characters of `s`, in order.
pub fn to_chars(s: &str) -> (v: Vec<char>)
    ensures
        v@ == s@,
{
    broadcast use vstd::string::axiom_spec_iter;
    let mut v: Vec<char> = Vec::new();
    for c in it: s.chars()
        invariant
            it.seq() == s@,
            v@ == it.seq().take(it.index() as int),
    {
        v.push(c);
        assert(v@ =~= it.seq().take(it.index() + 1));
    }
    assert(v@ =~= s@);
    v
}

} // verus!
