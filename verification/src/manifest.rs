//! Reading a packaged app's logo path out of its `AppxManifest.xml`.
//!
//! The XML is not parsed in full: the manifest is searched for the
//! `<Application …>` element whose `Id` names the app, and one attribute is
//! read out of its `VisualElements` tag.
use vstd::prelude::*;
use crate::text::{
    find_chars, find_class, find_seq, first_in, lemma_find_seq, lemma_first_in, matches_at, occurs_at, stop_at, substring, to_chars, trim_start, is_ws, is_whitespace, CharClass,
};

verus! {

/// The attribute scan over the rest of a start tag, attribute by attribute:
/// every value is consumed as part of the scan, so text inside a value can
/// never be mistaken for an attribute, and a key must match `name` whole. A
/// malformed attribute (a stray `=`, a key without a value) is skipped; only
/// an unterminated quote gives up.
pub open spec fn scan_attrs(rest: Seq<char>, name: Seq<char>) -> Option<Seq<char>>
    decreases rest.len(),
{
    let r = trim_start(rest);
    proof {
        lemma_first_in(rest, CharClass::NonSpace);
    }
    if r.len() == 0 || r[0] == '>' || (r.len() >= 2 && r[0] == '/' && r[1] == '>') {
        None
    } else {
        let ke = stop_at(r, CharClass::KeyEnd);
        proof {
            lemma_first_in(r, CharClass::KeyEnd);
        }
        if ke == 0 {
            // A stray `=` with no key: drop it so the scan keeps advancing.
            scan_attrs(r.drop_first(), name)
        } else {
            let key = r.take(ke);
            let r2 = trim_start(r.skip(ke));
            proof {
                lemma_first_in(r.skip(ke), CharClass::NonSpace);
            }
            if r2.len() == 0 || r2[0] != '=' {
                // A key without a value.
                scan_attrs(r2, name)
            } else {
                let value = trim_start(r2.drop_first());
                proof {
                    lemma_first_in(r2.drop_first(), CharClass::NonSpace);
                }
                if value.len() > 0 && (value[0] == '"' || value[0] == '\'') {
                    let body = value.drop_first();
                    let e = stop_at(body, CharClass::Is(value[0]));
                    proof {
                        lemma_first_in(body, CharClass::Is(value[0]));
                    }
                    if e == body.len() {
                        None
                    } else if key == name {
                        Some(body.take(e))
                    } else {
                        scan_attrs(body.skip(e + 1), name)
                    }
                } else {
                    let e = stop_at(value, CharClass::ValueEnd);
                    proof {
                        lemma_first_in(value, CharClass::ValueEnd);
                    }
                    if key == name {
                        Some(value.take(e))
                    } else {
                        scan_attrs(value.skip(e), name)
                    }
                }
            }
        }
    }
}

/// One attribute of a single XML start tag, with or without its leading
/// `<`: the attributes start after the first whitespace of the tag.
pub open spec fn xml_attr_spec(tag: Seq<char>, name: Seq<char>) -> Option<Seq<char>> {
    let t = if tag.len() > 0 && tag[0] == '<' {
        tag.drop_first()
    } else {
        tag
    };
    let w = stop_at(t, CharClass::Space);
    if w == t.len() {
        None
    } else {
        scan_attrs(t.skip(w), name)
    }
}

/// Where in `t` the value of attribute `name` of the start tag `t[from..to]`
/// lies.
fn attr_value_range(t: &Vec<char>, from: usize, to: usize, name: &Vec<char>) -> (r: Option<
    (usize, usize),
>)
    requires
        from <= to <= t@.len(),
    ensures
        match r {
            Some((a, b)) => from <= a <= b <= to && xml_attr_spec(
                t@.subrange(from as int, to as int),
                name@,
            ) == Some(t@.subrange(a as int, b as int)),
            None => xml_attr_spec(t@.subrange(from as int, to as int), name@) is None,
        },
{
    let ghost tag = t@.subrange(from as int, to as int);
    let start = if from < to && t[from] == '<' {
        from + 1
    } else {
        from
    };
    let ghost ts = if tag.len() > 0 && tag[0] == '<' {
        tag.drop_first()
    } else {
        tag
    };
    assert(ts =~= t@.subrange(start as int, to as int));
    let w = find_class(t, start, to, CharClass::Space);
    if w == to {
        return None;
    }
    assert(ts.skip(w - start) =~= t@.subrange(w as int, to as int));
    let mut i = w;
    loop
        invariant
            from <= i <= to <= t@.len(),
            xml_attr_spec(tag, name@) == scan_attrs(t@.subrange(i as int, to as int), name@),
            tag == t@.subrange(from as int, to as int),
        decreases to - i,
    {
        match attr_step(t, i, to, name) {
            ScanStep::Found(a, b) => {
                return Some((a, b));
            },
            ScanStep::Absent => {
                return None;
            },
            ScanStep::Continue(next) => {
                i = next;
            },
        }
    }
}

/// One step of the attribute scan.
enum ScanStep {
    /// The value lies at `[a, b)`.
    Found(usize, usize),
    /// The tag holds no such attribute.
    Absent,
    /// The scan goes on from here.
    Continue(usize),
}

/// One attribute of the scan over `t[i..to]`: its value when its key is
/// `name`, else where the scan continues.
#[verifier::rlimit(60)]
fn attr_step(t: &Vec<char>, i: usize, to: usize, name: &Vec<char>) -> (r: ScanStep)
    requires
        i <= to <= t@.len(),
    ensures
        match r {
            ScanStep::Found(a, b) => i <= a <= b <= to && scan_attrs(t@.subrange(i as int, to as int), name@)
                == Some(t@.subrange(a as int, b as int)),
            ScanStep::Absent => scan_attrs(t@.subrange(i as int, to as int), name@) is None,
            ScanStep::Continue(next) => i < next <= to && scan_attrs(
                t@.subrange(i as int, to as int),
                name@,
            ) == scan_attrs(t@.subrange(next as int, to as int), name@),
        },
{
    let ghost rest = t@.subrange(i as int, to as int);
    let j = find_class(t, i, to, CharClass::NonSpace);
    let ghost r = trim_start(rest);
    assert(r =~= t@.subrange(j as int, to as int));
    if j == to || t[j] == '>' || (j + 1 < to && t[j] == '/' && t[j + 1] == '>') {
        return ScanStep::Absent;
    }
    let ke = find_class(t, j, to, CharClass::KeyEnd);
    if ke == j {
        assert(r.drop_first() =~= t@.subrange(j + 1, to as int));
        return ScanStep::Continue(j + 1);
    }
    let ghost key = r.take(ke - j);
    assert(key =~= t@.subrange(j as int, ke as int));
    assert(r.skip(ke - j) =~= t@.subrange(ke as int, to as int));
    let k = find_class(t, ke, to, CharClass::NonSpace);
    let ghost r2 = trim_start(r.skip(ke - j));
    assert(r2 =~= t@.subrange(k as int, to as int));
    if k == to || t[k] != '=' {
        return ScanStep::Continue(k);
    }
    assert(r2.drop_first() =~= t@.subrange(k + 1, to as int));
    let v = find_class(t, k + 1, to, CharClass::NonSpace);
    let ghost value = trim_start(r2.drop_first());
    assert(value =~= t@.subrange(v as int, to as int));
    let is_name = ke - j == name.len() && matches_at(t, j, ke, name);
    assert(is_name == (key == name@)) by {
        if ke - j == name@.len() && occurs_at(t@.subrange(j as int, ke as int), name@, 0) {
            assert(t@.subrange(j as int, ke as int).subrange(0, name@.len() as int) =~= t@.subrange(
                j as int,
                ke as int,
            ));
        }
        if key == name@ {
            assert(t@.subrange(j as int, ke as int).subrange(0, name@.len() as int) =~= t@.subrange(
                j as int,
                ke as int,
            ));
        }
    }
    if v < to && (t[v] == '"' || t[v] == '\'') {
        let quote = t[v];
        let e = find_class(t, v + 1, to, CharClass::Is(quote));
        let ghost body = value.drop_first();
        assert(body =~= t@.subrange(v + 1, to as int));
        if e == to {
            return ScanStep::Absent;
        }
        if is_name {
            assert(body.take(e - (v + 1)) =~= t@.subrange(v + 1, e as int));
            return ScanStep::Found(v + 1, e);
        }
        assert(body.skip(e - (v + 1) + 1) =~= t@.subrange(e + 1, to as int));
        ScanStep::Continue(e + 1)
    } else {
        let e = find_class(t, v, to, CharClass::ValueEnd);
        if is_name {
            assert(value.take(e - v) =~= t@.subrange(v as int, e as int));
            return ScanStep::Found(v, e);
        }
        assert(value.skip(e - v) =~= t@.subrange(e as int, to as int));
        ScanStep::Continue(e)
    }
}

/// Read one attribute out of a single XML start tag, with or without its
/// leading `<`.
///
/// The tag is walked attribute by attribute instead of searched for `name`:
/// every value is consumed as part of the scan, so text inside a value
/// (`Other="foo Id=bar"`) can never be mistaken for the attribute itself, and
/// a namespaced key (`uap10:HostId`) never matches a bare `Id`. A malformed
/// attribute is skipped and the scan continues; only an unterminated quote
/// gives up, because the remainder of the tag is unparseable after it.
pub fn xml_attr(tag: &str, name: &str) -> (r: Option<String>)
    ensures
        match r {
            Some(v) => xml_attr_spec(tag@, name@) == Some(v@),
            None => xml_attr_spec(tag@, name@) is None,
        },
{
    let t = to_chars(tag);
    let n = to_chars(name);
    assert(t@.subrange(0, t@.len() as int) =~= t@);
    match attr_value_range(&t, 0, t.len(), &n) {
        Some((a, b)) => Some(substring(tag, a, b)),
        None => None,
    }
}


/// Whether `s`, with its trailing whitespace removed, ends in `/`.
pub open spec fn trimmed_ends_with_slash(s: Seq<char>) -> bool
    decreases s.len(),
{
    if s.len() == 0 {
        false
    } else if is_ws(s.last()) {
        trimmed_ends_with_slash(s.drop_last())
    } else {
        s.last() == '/'
    }
}

/// The scan over `<Application …>` elements from `rest` on: the first one,
/// not self-closing and closed by `</Application>`, whose `Id` is `app_id`
/// gives the `Square150x150Logo` of its `VisualElements` tag. A missing `>`,
/// closing tag, `VisualElements` or its `>` ends the search with nothing.
pub open spec fn scan_applications(rest: Seq<char>, app_id: Seq<char>) -> Option<Seq<char>>
    decreases rest.len(),
{
    let open = "<Application "@;
    let close_tag = "</Application>"@;
    proof {
        lemma_find_seq(rest, open);
    }
    match find_seq(rest, open) {
        None => None,
        Some(s) => {
            let r = rest.skip(s);
            proof {
                lemma_first_in(r, CharClass::Is('>'));
            }
            match first_in(r, CharClass::Is('>')) {
                None => None,
                Some(te) => {
                    if trimmed_ends_with_slash(r.take(te)) {
                        scan_applications(r.skip(te + 1), app_id)
                    } else {
                        proof {
                            lemma_find_seq(r.skip(te + 1), close_tag);
                        }
                        match find_seq(r.skip(te + 1), close_tag) {
                            None => None,
                            Some(c) => {
                                let close = c + te + 1;
                                let body = r.subrange(te + 1, close);
                                if xml_attr_spec(r.take(te + 1), "Id"@) == Some(app_id) {
                                    match find_seq(body, "VisualElements"@) {
                                        None => None,
                                        Some(vs) => {
                                            let visual = body.skip(vs);
                                            match first_in(visual, CharClass::Is('>')) {
                                                None => None,
                                                Some(ve) => xml_attr_spec(
                                                    visual.take(ve + 1),
                                                    "Square150x150Logo"@,
                                                ),
                                            }
                                        },
                                    }
                                } else {
                                    scan_applications(r.skip(close + close_tag.len()), app_id)
                                }
                            },
                        }
                    }
                },
            }
        },
    }
}

/// The logo path a manifest gives the packaged app `aumid`
/// (`PackageFamily!AppId`); nothing for an AUMID without `!`.
pub open spec fn manifest_logo_spec(manifest: Seq<char>, aumid: Seq<char>) -> Option<Seq<char>> {
    match first_in(aumid, CharClass::Is('!')) {
        None => None,
        Some(b) => scan_applications(manifest, aumid.skip(b + 1)),
    }
}

/// Whether `t[from..to]`, with its trailing whitespace removed, ends in `/`.
fn ends_with_slash_trimmed(t: &Vec<char>, from: usize, to: usize) -> (r: bool)
    requires
        from <= to <= t@.len(),
    ensures
        r == trimmed_ends_with_slash(t@.subrange(from as int, to as int)),
    decreases to - from,
{
    if to == from {
        return false;
    }
    assert(t@.subrange(from as int, to as int).drop_last() =~= t@.subrange(from as int, to - 1));
    if is_whitespace(t[to - 1]) {
        ends_with_slash_trimmed(t, from, to - 1)
    } else {
        t[to - 1] == '/'
    }
}

/// Whether `t[a..b]` equals `w`.
fn range_equals(t: &Vec<char>, a: usize, b: usize, w: &Vec<char>) -> (r: bool)
    requires
        a <= b <= t@.len(),
    ensures
        r == (t@.subrange(a as int, b as int) == w@),
{
    let r = b - a == w.len() && matches_at(t, a, b, w);
    proof {
        if b - a == w@.len() {
            assert(t@.subrange(a as int, b as int).subrange(0, w@.len() as int) =~= t@.subrange(
                a as int,
                b as int,
            ));
        }
    }
    r
}

/// The patterns the manifest scan looks for.
struct ManifestPatterns {
    open: Vec<char>,
    close: Vec<char>,
    visual: Vec<char>,
    id: Vec<char>,
    logo: Vec<char>,
}

impl ManifestPatterns {
    spec fn wf(&self) -> bool {
        &&& self.open@ == "<Application "@
        &&& self.close@ == "</Application>"@
        &&& self.visual@ == "VisualElements"@
        &&& self.id@ == "Id"@
        &&& self.logo@ == "Square150x150Logo"@
    }
}

/// One step of the scan over `m[p..]`.
#[verifier::rlimit(60)]
fn application_step(m: &Vec<char>, p: usize, app_id: &Vec<char>, pats: &ManifestPatterns) -> (r:
    ScanStep)
    requires
        p <= m@.len(),
        pats.wf(),
    ensures
        match r {
            ScanStep::Found(a, b) => a <= b <= m@.len() && scan_applications(
                m@.subrange(p as int, m@.len() as int),
                app_id@,
            ) == Some(m@.subrange(a as int, b as int)),
            ScanStep::Absent => scan_applications(m@.subrange(p as int, m@.len() as int), app_id@) is None,
            ScanStep::Continue(next) => p < next <= m@.len() && scan_applications(
                m@.subrange(p as int, m@.len() as int),
                app_id@,
            ) == scan_applications(m@.subrange(next as int, m@.len() as int), app_id@),
        },
{
    let len = m.len();
    let ghost rest = m@.subrange(p as int, len as int);
    let start = match find_chars(m, p, len, &pats.open) {
        Some(s) => s,
        None => {
            return ScanStep::Absent;
        },
    };
    proof {
        lemma_find_seq(rest, pats.open@);
    }
    let ghost r = rest.skip(start - p);
    assert(r =~= m@.subrange(start as int, len as int));
    assert(find_seq(rest, "<Application "@) == Some(start - p));
    let tag_end = find_class(m, start, len, CharClass::Is('>'));
    proof {
        lemma_first_in(r, CharClass::Is('>'));
    }
    if tag_end == len {
        return ScanStep::Absent;
    }
    assert(r.take(tag_end - start) =~= m@.subrange(start as int, tag_end as int));
    assert(r.skip(tag_end - start + 1) =~= m@.subrange(tag_end + 1, len as int));
    assert(first_in(r, CharClass::Is('>')) == Some(tag_end - start));
    if ends_with_slash_trimmed(m, start, tag_end) {
        return ScanStep::Continue(tag_end + 1);
    }
    let close = match find_chars(m, tag_end + 1, len, &pats.close) {
        Some(c) => c,
        None => {
            return ScanStep::Absent;
        },
    };
    proof {
        lemma_find_seq(m@.subrange(tag_end + 1, len as int), pats.close@);
    }
    assert(find_seq(r.skip(tag_end - start + 1), "</Application>"@) == Some(close - (tag_end + 1)));
    let ghost body = r.subrange(tag_end - start + 1, close - start);
    assert(body =~= m@.subrange(tag_end + 1, close as int));
    assert(r.take(tag_end - start + 1) =~= m@.subrange(start as int, tag_end + 1));
    let id_matches = match attr_value_range(m, start, tag_end + 1, &pats.id) {
        Some((a, b)) => range_equals(m, a, b, app_id),
        None => false,
    };
    if id_matches {
        assert(xml_attr_spec(r.take(tag_end - start + 1), "Id"@) == Some(app_id@));
        let visual = match find_chars(m, tag_end + 1, close, &pats.visual) {
            Some(v) => v,
            None => {
                return ScanStep::Absent;
            },
        };
        proof {
            lemma_find_seq(body, pats.visual@);
        }
        assert(find_seq(body, "VisualElements"@) == Some(visual - (tag_end + 1)));
        let ghost vis = body.skip(visual - (tag_end + 1));
        assert(vis =~= m@.subrange(visual as int, close as int));
        let visual_end = find_class(m, visual, close, CharClass::Is('>'));
        proof {
            lemma_first_in(vis, CharClass::Is('>'));
        }
        if visual_end == close {
            assert(first_in(vis, CharClass::Is('>')) is None);
            return ScanStep::Absent;
        }
        assert(first_in(vis, CharClass::Is('>')) == Some(visual_end - visual));
        assert(vis.take(visual_end - visual + 1) =~= m@.subrange(visual as int, visual_end + 1));
        match attr_value_range(m, visual, visual_end + 1, &pats.logo) {
            Some((a, b)) => ScanStep::Found(a, b),
            None => ScanStep::Absent,
        }
    } else {
        assert(r.skip(close - start + pats.close@.len()) =~= m@.subrange(
            close + pats.close@.len(),
            len as int,
        ));
        ScanStep::Continue(close + pats.close.len())
    }
}

/// The `Square150x150Logo` path a manifest declares for the packaged app
/// `aumid` (`PackageFamily!AppId`): the first `<Application>` element whose
/// `Id` is the AUMID's app id names it in its `VisualElements` tag.
pub fn manifest_logo_path(manifest: &str, aumid: &str) -> (r: Option<String>)
    ensures
        match r {
            Some(v) => manifest_logo_spec(manifest@, aumid@) == Some(v@),
            None => manifest_logo_spec(manifest@, aumid@) is None,
        },
{
    let id = to_chars(aumid);
    let bang = find_class(&id, 0, id.len(), CharClass::Is('!'));
    assert(id@.subrange(0, id@.len() as int) =~= id@);
    proof {
        lemma_first_in(id@, CharClass::Is('!'));
    }
    if bang == id.len() {
        return None;
    }
    let mut app_id: Vec<char> = Vec::new();
    let mut k = bang + 1;
    while k < id.len()
        invariant
            bang < k <= id@.len(),
            app_id@ == id@.subrange(bang + 1, k as int),
        decreases id.len() - k,
    {
        app_id.push(id[k]);
        assert(app_id@ =~= id@.subrange(bang + 1, k + 1));
        k += 1;
    }
    assert(app_id@ =~= id@.skip(bang + 1));
    let m = to_chars(manifest);
    let pats = ManifestPatterns {
        open: to_chars("<Application "),
        close: to_chars("</Application>"),
        visual: to_chars("VisualElements"),
        id: to_chars("Id"),
        logo: to_chars("Square150x150Logo"),
    };
    let mut p: usize = 0;
    assert(m@.subrange(0, m@.len() as int) =~= m@);
    loop
        invariant
            p <= m@.len(),
            pats.wf(),
            m@ == manifest@,
            manifest_logo_spec(manifest@, aumid@) == scan_applications(
                m@.subrange(p as int, m@.len() as int),
                app_id@,
            ),
        decreases m@.len() - p,
    {
        match application_step(&m, p, &app_id, &pats) {
            ScanStep::Found(a, b) => {
                return Some(substring(manifest, a, b));
            },
            ScanStep::Absent => {
                return None;
            },
            ScanStep::Continue(next) => {
                p = next;
            },
        }
    }
}

} // verus!
