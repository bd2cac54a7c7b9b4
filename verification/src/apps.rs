//! Grouping of windows into applications, selection stepping, and the pixel
//! fixes applied to application icons.
use vstd::prelude::*;
use vstd::std_specs::cmp::PartialEqSpec;
use vstd::std_specs::cmp::PartialEqSpecImpl;
use vstd::string::StringExecFns;
use crate::filter::{ascii_lower, codes, lower_equals};
use crate::text::{
    find_class, is_whitespace, matches_at, stop_at, substring, to_chars, trim_end, trim_start, CharClass,
};

verus! {

/// The index of the first group whose key equals `key` (group key on the
/// left of the comparison), if any.
pub open spec fn first_match<K: PartialEq, T>(groups: Seq<(K, Seq<T>)>, key: K) -> Option<int>
    decreases groups.len(),
{
    if groups.len() == 0 {
        None
    } else {
        match first_match(groups.drop_last(), key) {
            Some(i) => Some(i),
            None => if groups.last().0.eq_spec(&key) {
                Some(groups.len() - 1)
            } else {
                None
            },
        }
    }
}

/// Groups after one more item: it joins the first group with an equal key,
/// or opens a new group at the end.
pub open spec fn add_to_groups<K: PartialEq, T>(groups: Seq<(K, Seq<T>)>, item: T, key: K) -> Seq<
    (K, Seq<T>),
> {
    match first_match(groups, key) {
        Some(i) => groups.update(i, (groups[i].0, groups[i].1.push(item))),
        None => groups.push((key, seq![item])),
    }
}

/// The grouping of `items`, taken in order.
pub open spec fn grouped<K: PartialEq, T>(items: Seq<(T, K)>) -> Seq<(K, Seq<T>)>
    decreases items.len(),
{
    if items.len() == 0 {
        seq![]
    } else {
        add_to_groups(grouped(items.drop_last()), items.last().0, items.last().1)
    }
}

pub open spec fn groups_view<K, T>(groups: Seq<(K, Vec<T>)>) -> Seq<(K, Seq<T>)> {
    groups.map_values(|g: (K, Vec<T>)| (g.0, g.1@))
}

pub proof fn lemma_first_match<K: PartialEq, T>(groups: Seq<(K, Seq<T>)>, key: K)
    ensures
        match first_match(groups, key) {
            Some(i) => 0 <= i < groups.len() && groups[i].0.eq_spec(&key) && forall|j: int|
                0 <= j < i ==> !(#[trigger] groups[j].0.eq_spec(&key)),
            None => forall|j: int| 0 <= j < groups.len() ==> !(#[trigger] groups[j].0.eq_spec(&key)),
        },
    decreases groups.len(),
{
    if groups.len() > 0 {
        let init = groups.drop_last();
        lemma_first_match(init, key);
        match first_match(init, key) {
            Some(i) => {
                assert(init[i] == groups[i]);
                assert forall|j: int| 0 <= j < i implies !(#[trigger] groups[j].0.eq_spec(&key)) by {
                    assert(init[j] == groups[j]);
                }
            },
            None => {
                assert forall|j: int| 0 <= j < init.len() implies !(#[trigger] groups[j].0.eq_spec(
                    &key,
                )) by {
                    assert(init[j] == groups[j]);
                }
            },
        }
    }
}

/// `first_match` only depends on which group keys equal `key`.
pub proof fn lemma_first_match_unique<K: PartialEq, T>(groups: Seq<(K, Seq<T>)>, key: K, i: int)
    requires
        0 <= i < groups.len(),
        groups[i].0.eq_spec(&key),
        forall|j: int| 0 <= j < i ==> !(#[trigger] groups[j].0.eq_spec(&key)),
    ensures
        first_match(groups, key) == Some(i),
{
    lemma_first_match(groups, key);
}


/// Key equality behaves as an equivalence (reflexive, symmetric, transitive).
pub open spec fn eq_is_equivalence<K: PartialEq>() -> bool {
    &&& forall|a: K| #[trigger] a.eq_spec(&a)
    &&& forall|a: K, b: K| #[trigger] a.eq_spec(&b) ==> b.eq_spec(&a)
    &&& forall|a: K, b: K, c: K| #[trigger] a.eq_spec(&b) && #[trigger] b.eq_spec(&c) ==> a.eq_spec(&c)
}

/// The items whose key equals `key`, in input order.
pub open spec fn members<K: PartialEq, T>(items: Seq<(T, K)>, key: K) -> Seq<T>
    decreases items.len(),
{
    if items.len() == 0 {
        seq![]
    } else if key.eq_spec(&items.last().1) {
        members(items.drop_last(), key).push(items.last().0)
    } else {
        members(items.drop_last(), key)
    }
}

/// Index of the first item whose key equals `key`.
pub open spec fn first_seen<K: PartialEq, T>(items: Seq<(T, K)>, key: K) -> Option<int>
    decreases items.len(),
{
    if items.len() == 0 {
        None
    } else {
        match first_seen(items.drop_last(), key) {
            Some(i) => Some(i),
            None => if key.eq_spec(&items.last().1) {
                Some(items.len() - 1)
            } else {
                None
            },
        }
    }
}

/// Some group's key equals `key`.
pub open spec fn has_group<K: PartialEq, T>(g: Seq<(K, Seq<T>)>, key: K) -> bool {
    exists|j: int| 0 <= j < g.len() && #[trigger] g[j].0.eq_spec(&key)
}

pub open spec fn grouping_laws_hold<K: PartialEq, T>(items: Seq<(T, K)>, g: Seq<(K, Seq<T>)>) -> bool {
    // Each group holds exactly the items with its key, in input order.
    &&& forall|j: int| 0 <= j < g.len() ==> #[trigger] g[j].1 == members(items, g[j].0)
    // No two groups share a key.
    &&& forall|i: int, j: int|
        0 <= i < g.len() && 0 <= j < g.len() && i != j ==> !(#[trigger] g[i].0.eq_spec(
            &#[trigger] g[j].0,
        ))
    // Every item belongs to some group.
    &&& forall|n: int| 0 <= n < items.len() ==> has_group(g, #[trigger] items[n].1)
    // Groups come in first-seen order and are keyed by the first item seen.
    &&& forall|j: int|
        0 <= j < g.len() ==> (#[trigger] first_seen(items, g[j].0) matches Some(f) && 0 <= f
            < items.len() && items[f].1 == g[j].0)
    &&& forall|i: int, j: int|
        0 <= i < j < g.len() ==> #[trigger] first_seen(items, g[i].0)->0 < #[trigger] first_seen(
            items,
            g[j].0,
        )->0
}

proof fn lemma_first_seen<K: PartialEq, T>(items: Seq<(T, K)>, key: K)
    ensures
        match first_seen(items, key) {
            Some(i) => 0 <= i < items.len() && key.eq_spec(&items[i].1) && forall|n: int|
                0 <= n < i ==> !key.eq_spec(&#[trigger] items[n].1),
            None => forall|n: int| 0 <= n < items.len() ==> !key.eq_spec(&#[trigger] items[n].1),
        },
    decreases items.len(),
{
    if items.len() > 0 {
        let init = items.drop_last();
        lemma_first_seen(init, key);
        match first_seen(init, key) {
            Some(i) => {
                assert(init[i] == items[i]);
                assert forall|n: int| 0 <= n < i implies !key.eq_spec(&#[trigger] items[n].1) by {
                    assert(init[n] == items[n]);
                }
            },
            None => {
                assert forall|n: int| 0 <= n < init.len() implies !key.eq_spec(
                    &#[trigger] items[n].1,
                ) by {
                    assert(init[n] == items[n]);
                }
            },
        }
    }
}

proof fn lemma_members_empty<K: PartialEq, T>(items: Seq<(T, K)>, key: K)
    requires
        forall|n: int| 0 <= n < items.len() ==> !key.eq_spec(&#[trigger] items[n].1),
    ensures
        members(items, key) == Seq::<T>::empty(),
    decreases items.len(),
{
    if items.len() > 0 {
        let init = items.drop_last();
        assert forall|n: int| 0 <= n < init.len() implies !key.eq_spec(&#[trigger] init[n].1) by {
            assert(init[n] == items[n]);
        }
        lemma_members_empty(init, key);
    }
}

/// The grouping laws: with an equivalence for key equality, each group holds
/// exactly the items of its key in input order, no two groups share a key,
/// every item lands in a group, and groups appear in the order their keys
/// were first seen, keyed by that first item's key.
pub proof fn lemma_grouping_laws<K: PartialEq, T>(items: Seq<(T, K)>)
    requires
        eq_is_equivalence::<K>(),
    ensures
        grouping_laws_hold(items, grouped(items)),
    decreases items.len(),
{
    if items.len() == 0 {
        return;
    }
    let init = items.drop_last();
    let x = items.last();
    let g0 = grouped(init);
    let g = grouped(items);
    lemma_grouping_laws(init);
    lemma_first_match(g0, x.1);
    assert(g == add_to_groups(g0, x.0, x.1));
    assert forall|n: int| 0 <= n < init.len() implies init[n] == items[n] by {}
    // Keys already seen keep their first index.
    assert forall|k: K| first_seen(init, k) is Some implies first_seen(items, k) == first_seen(init, k) by {}
    // Members of a key gain the new item exactly when it matches.
    assert forall|k: K| #[trigger] members(items, k) == if k.eq_spec(&x.1) {
        members(init, k).push(x.0)
    } else {
        members(init, k)
    } by {}
    match first_match(g0, x.1) {
        Some(i) => {
            // Any other group matching x would match group i too.
            assert forall|j: int| 0 <= j < g0.len() && j != i implies !(#[trigger] g0[j].0.eq_spec(&x.1)) by {
                if g0[j].0.eq_spec(&x.1) {
                    assert(x.1.eq_spec(&g0[i].0));
                    assert(g0[j].0.eq_spec(&g0[i].0));
                }
            }
            assert forall|j: int| 0 <= j < g.len() implies #[trigger] g[j].1 == members(items, g[j].0) by {
                if j == i {
                    assert(g[j].0 == g0[j].0);
                } else {
                    assert(g[j] == g0[j]);
                }
            }
            assert forall|n: int| 0 <= n < items.len() implies has_group(g, #[trigger] items[n].1) by {
                if n == items.len() - 1 {
                    assert(g[i].0.eq_spec(&items[n].1));
                } else {
                    assert(has_group(g0, init[n].1));
                    let j = choose|j: int| 0 <= j < g0.len() && #[trigger] g0[j].0.eq_spec(&init[n].1);
                    assert(g[j].0 == g0[j].0);
                }
            }
            assert forall|j: int| 0 <= j < g.len() implies (#[trigger] first_seen(items, g[j].0) matches Some(f) && 0 <= f < items.len() && items[f].1 == g[j].0) by {
                assert(g[j].0 == g0[j].0);
            }
            assert forall|a: int, b: int| 0 <= a < b < g.len() implies #[trigger] first_seen(items, g[a].0)->0 < #[trigger] first_seen(items, g[b].0)->0 by {
                assert(g[a].0 == g0[a].0);
                assert(g[b].0 == g0[b].0);
            }
            assert forall|a: int, b: int| 0 <= a < g.len() && 0 <= b < g.len() && a != b implies !(#[trigger] g[a].0.eq_spec(&#[trigger] g[b].0)) by {
                assert(g[a].0 == g0[a].0);
                assert(g[b].0 == g0[b].0);
            }
        },
        None => {
            let last = g0.len() as int;
            assert(g == g0.push((x.1, seq![x.0])));
            // No earlier item has x's key: it would be covered by an old group.
            assert forall|n: int| 0 <= n < init.len() implies !x.1.eq_spec(&#[trigger] init[n].1) by {
                assert(has_group(g0, init[n].1));
                    assert(has_group(g0, init[n].1));
                let j = choose|j: int| 0 <= j < g0.len() && #[trigger] g0[j].0.eq_spec(&init[n].1);
                if x.1.eq_spec(&init[n].1) {
                    assert(init[n].1.eq_spec(&x.1));
                    assert(g0[j].0.eq_spec(&x.1));
                }
            }
            lemma_members_empty(init, x.1);
            lemma_first_seen(init, x.1);
            assert(first_seen(items, x.1) == Some(init.len() as int));
            assert forall|j: int| 0 <= j < g.len() implies #[trigger] g[j].1 == members(items, g[j].0) by {
                if j < last {
                    assert(g[j] == g0[j]);
                } else {
                    assert(members(init, x.1) =~= Seq::<T>::empty());
                    assert(x.1.eq_spec(&x.1));
                }
            }
            assert forall|n: int| 0 <= n < items.len() implies has_group(g, #[trigger] items[n].1) by {
                if n == items.len() - 1 {
                    assert(g[last].0.eq_spec(&items[n].1));
                } else {
                    assert(has_group(g0, init[n].1));
                    let j = choose|j: int| 0 <= j < g0.len() && #[trigger] g0[j].0.eq_spec(&init[n].1);
                    assert(g[j].0 == g0[j].0);
                }
            }
            assert forall|j: int| 0 <= j < g.len() implies (#[trigger] first_seen(items, g[j].0) matches Some(f) && 0 <= f < items.len() && items[f].1 == g[j].0) by {
                if j < last {
                    assert(g[j].0 == g0[j].0);
                }
            }
            assert forall|a: int, b: int| 0 <= a < b < g.len() implies #[trigger] first_seen(items, g[a].0)->0 < #[trigger] first_seen(items, g[b].0)->0 by {
                assert(g[a].0 == g0[a].0);
                if b < last {
                    assert(g[b].0 == g0[b].0);
                }
            }
            assert forall|a: int, b: int| 0 <= a < g.len() && 0 <= b < g.len() && a != b implies !(#[trigger] g[a].0.eq_spec(&#[trigger] g[b].0)) by {
                if a < last && b < last {
                    assert(g[a].0 == g0[a].0);
                    assert(g[b].0 == g0[b].0);
                } else if a == last {
                    assert(g[b].0 == g0[b].0);
                    if x.1.eq_spec(&g0[b].0) {
                        assert(g0[b].0.eq_spec(&x.1));
                    }
                } else {
                    assert(g[a].0 == g0[a].0);
                }
            }
        },
    }
}

/// Group items by key, preserving first-seen order of groups and members.
/// Fed with windows in z-order this yields apps most-recently-used first,
/// each group's first member being the app's topmost window.
pub fn group_by_key<T, K: PartialEq>(items: Vec<(T, K)>) -> (groups: Vec<(K, Vec<T>)>)
    requires
        K::obeys_eq_spec(),
    ensures
        groups_view(groups@) == grouped(items@),
{
    let mut groups: Vec<(K, Vec<T>)> = Vec::new();
    let ghost all = items@;
    let mut n: usize = 0;
    for pair in it: items
        invariant
            K::obeys_eq_spec(),
            all == it.seq(),
            groups_view(groups@) == grouped(all.take(it.index() as int)),
    {
        let (item, key) = pair;
        let ghost before = groups_view(groups@);
        let ghost k = it.index() as int;
        let mut j: usize = 0;
        while j < groups.len() && !(groups[j].0 == key)
            invariant
                K::obeys_eq_spec(),
                j <= groups.len(),
                before == groups_view(groups@),
                forall|jj: int| 0 <= jj < j ==> !(#[trigger] groups@[jj].0.eq_spec(&key)),
            decreases groups.len() - j,
        {
            j += 1;
        }
        proof {
            lemma_first_match(before, key);
            assert(all.take(k + 1).drop_last() == all.take(k));
        }
        if j < groups.len() {
            proof {
                lemma_first_match_unique(before, key, j as int);
            }
            groups[j].1.push(item);
            assert(groups_view(groups@) =~= before.update(
                j as int,
                (before[j as int].0, before[j as int].1.push(item)),
            ));
        } else {
            let mut members = Vec::new();
            members.push(item);
            assert(members@ =~= seq![item]);
            groups.push((key, members));
            assert(groups_view(groups@) =~= before.push((key, seq![item])));
        }
        assert(groups_view(groups@) == add_to_groups(before, item, key));
    }
    assert(all.take(all.len() as int) == all);
    groups
}


/// Every group holds at least one item.
pub proof fn lemma_groups_nonempty<K: PartialEq, T>(items: Seq<(T, K)>)
    ensures
        forall|j: int| 0 <= j < grouped(items).len() ==> #[trigger] grouped(items)[j].1.len() > 0,
        grouped(items).len() <= items.len(),
    decreases items.len(),
{
    if items.len() > 0 {
        let g0 = grouped(items.drop_last());
        lemma_groups_nonempty(items.drop_last());
        lemma_first_match(g0, items.last().1);
    }
}

/// Identity of one app for grouping. A Chrome/Edge PWA tags each of its
/// windows with a per-window AppUserModelID; keying on that AUMID (when
/// present) splits the PWA into its own switcher entry instead of folding it
/// into the browser's `chrome.exe` group. Ordinary windows carry no AUMID and
/// key on the exe path, so a browser's own windows still share one group.
#[derive(Clone)]
pub struct AppKey {
    /// The exe path, always present: the display-name and icon fallback, and
    /// the grouping key when there is no AUMID.
    pub exe: String,
    /// The window's AUMID, set for PWA and packaged (UWP) windows.
    pub aumid: Option<String>,
}

impl AppKey {
    /// The grouping identity: the AUMID when the window carries one, else the
    /// exe path.
    pub open spec fn id_view(&self) -> Seq<char> {
        match self.aumid {
            Some(a) => a@,
            None => self.exe@,
        }
    }

    /// The grouping/identity string: the AUMID when the window carries one,
    /// else the exe path.
    pub fn id(&self) -> (r: &str)
        ensures
            r@ == self.id_view(),
    {
        match &self.aumid {
            Some(a) => a.as_str(),
            None => self.exe.as_str(),
        }
    }

    /// Whether two keys name the same app: the same AUMID, or both without
    /// one and the same exe.
    pub open spec fn same_app(&self, other: &AppKey) -> bool {
        match (self.aumid, other.aumid) {
            (Some(a), Some(b)) => a@ == b@,
            (None, None) => self.exe@ == other.exe@,
            _ => false,
        }
    }
}

/// Two windows group together iff they share an identity — same AUMID, or
/// (both browser-plain) same exe. The exe field is carried for display only
/// and is ignored once both keys carry an AUMID.
impl PartialEq for AppKey {
    fn eq(&self, other: &Self) -> (r: bool) {
        match (&self.aumid, &other.aumid) {
            (Some(a), Some(b)) => *a == *b,
            (None, None) => self.exe == other.exe,
            _ => false,
        }
    }
}

impl PartialEqSpecImpl for AppKey {
    open spec fn obeys_eq_spec() -> bool {
        true
    }

    open spec fn eq_spec(&self, other: &AppKey) -> bool {
        self.same_app(other)
    }
}

/// App-key equality is an equivalence, so the grouping laws apply to it.
pub proof fn lemma_app_key_eq_is_equivalence()
    ensures
        eq_is_equivalence::<AppKey>(),
{
}

/// One running application for the app switcher: its identity and all its
/// windows in z-order (`windows[0]` is the app's topmost).
pub struct AppGroup {
    pub key: AppKey,
    /// Window handles, as plain numbers.
    pub windows: Vec<usize>,
}

pub open spec fn app_groups_view(groups: Seq<AppGroup>) -> Seq<(AppKey, Seq<usize>)> {
    groups.map_values(|g: AppGroup| (g.key, g.windows@))
}

/// One group per running app, most-recently-used first, from the eligible
/// windows in z-order each with its key.
pub fn app_groups(windows: Vec<(usize, AppKey)>) -> (groups: Vec<AppGroup>)
    ensures
        app_groups_view(groups@) == grouped(windows@),
        forall|j: int| 0 <= j < groups.len() ==> #[trigger] groups@[j].windows.len() > 0,
{
    let grouped_windows = group_by_key(windows);
    proof {
        lemma_groups_nonempty(windows@);
    }
    let mut groups: Vec<AppGroup> = Vec::new();
    for pair in it: grouped_windows
        invariant
            groups_view(it.seq()) == grouped(windows@),
            app_groups_view(groups@) == groups_view(it.seq()).take(it.index() as int),
            forall|j: int| 0 <= j < grouped(windows@).len() ==> #[trigger] grouped(windows@)[j].1.len() > 0,
    {
        let (key, members) = pair;
        let ghost k = it.index() as int;
        let ghost prev = groups@;
        assert(groups_view(it.seq())[k] == (key, members@));
        groups.push(AppGroup { key, windows: members });
        assert(groups_view(it.seq()).take(k + 1) =~= groups_view(it.seq()).take(k).push(
            groups_view(it.seq())[k],
        ));
        assert(app_groups_view(groups@) =~= app_groups_view(prev).push((key, members@)));
    }
    assert(groups_view(grouped_windows@) == grouped(windows@));
    assert(groups_view(grouped_windows@).take(grouped_windows@.len() as int) =~= groups_view(grouped_windows@));
    assert forall|j: int| 0 <= j < groups.len() implies #[trigger] groups@[j].windows.len() > 0 by {
        assert(app_groups_view(groups@)[j] == (groups@[j].key, groups@[j].windows@));
        assert(grouped(windows@)[j].1.len() > 0);
    }
    groups
}

/// The windows of the app `key` among the eligible windows in z-order, each
/// given with its key and whether it is minimized: those with the same
/// identity, skipping minimized ones unless `include_minimized` (without
/// restore-on-activate a minimized window cannot visibly take focus).
pub open spec fn app_windows_spec(windows: Seq<(usize, AppKey, bool)>, key: AppKey, include_minimized: bool) -> Seq<usize>
    decreases windows.len(),
{
    if windows.len() == 0 {
        Seq::empty()
    } else {
        let rest = app_windows_spec(windows.drop_last(), key, include_minimized);
        let (w, k, minimized) = windows.last();
        if k.same_app(&key) && (include_minimized || !minimized) {
            rest.push(w)
        } else {
            rest
        }
    }
}

/// The foreground app's windows in z-order (foreground first).
pub fn app_windows(key: &AppKey, windows: Vec<(usize, AppKey, bool)>, include_minimized: bool) -> (r: Vec<usize>)
    ensures
        r@ == app_windows_spec(windows@, *key, include_minimized),
{
    let mut r: Vec<usize> = Vec::new();
    let mut i: usize = 0;
    while i < windows.len()
        invariant
            i <= windows@.len(),
            r@ == app_windows_spec(windows@.take(i as int), *key, include_minimized),
        decreases windows.len() - i,
    {
        let (w, k, minimized) = &windows[i];
        assert(windows@.take(i + 1).drop_last() =~= windows@.take(i as int));
        if *k == *key && (include_minimized || !*minimized) {
            r.push(*w);
        }
        i += 1;
    }
    assert(windows@.take(windows@.len() as int) =~= windows@);
    r
}

/// A string value read out of an exe's version resource: the text before
/// its first NUL (some resources report a length that runs past the value's
/// own terminator into the next key), without surrounding whitespace; none
/// when nothing is left.
pub open spec fn resource_text_spec(raw: Seq<char>) -> Option<Seq<char>> {
    let t = trim_end(trim_start(raw.take(stop_at(raw, CharClass::Is('\0')))));
    if t.len() == 0 {
        None
    } else {
        Some(t)
    }
}

/// The usable text of a version-resource string value.
pub fn resource_text(raw: &str) -> (r: Option<String>)
    ensures
        match r {
            Some(t) => resource_text_spec(raw@) == Some(t@),
            None => resource_text_spec(raw@) is None,
        },
{
    let v = to_chars(raw);
    let n = v.len();
    let end = find_class(&v, 0, n, CharClass::Is('\0'));
    let start = find_class(&v, 0, end, CharClass::NonSpace);
    let ghost head = raw@.take(end as int);
    proof {
        assert(v@.subrange(0, n as int) =~= raw@);
        assert(v@.subrange(0, end as int) =~= head);
        assert(trim_start(head) =~= raw@.subrange(start as int, end as int));
    }
    let mut e = end;
    while e > start && is_whitespace(v[e - 1])
        invariant
            start <= e <= end <= v@.len(),
            v@ == raw@,
            trim_end(raw@.subrange(start as int, end as int)) == trim_end(raw@.subrange(start as int, e as int)),
        decreases e,
    {
        assert(raw@.subrange(start as int, e as int).drop_last() =~= raw@.subrange(start as int, e - 1));
        e -= 1;
    }
    if e == start {
        assert(raw@.subrange(start as int, e as int).len() == 0);
        None
    } else {
        Some(substring(raw, start, e))
    }
}

/// The two shell parsing names whose artwork could represent one app: the
/// `primary` the shell itself picks, and an `alternate` the app ships in its
/// package. Which one is drawn is decided from the pixels, not from the
/// app's identity.
#[derive(Clone, PartialEq, Eq, Debug)]
pub struct IconSource {
    pub primary: String,
    pub alternate: Option<String>,
}

/// The shell's parsing name for an AUMID's AppsFolder entry.
pub open spec fn apps_folder_name(aumid: Seq<char>) -> Seq<char> {
    "shell:AppsFolder\\"@ + aumid
}

/// The icon candidates for an app identity: a PWA or packaged app is drawn
/// from its `shell:AppsFolder\{aumid}` entry, with the package's own logo
/// (`packaged_logo`, when the caller found one) as the alternate; a plain
/// window from its exe's embedded icon, with no alternate.
pub fn load_icon_source(key: &AppKey, packaged_logo: Option<String>) -> (s: IconSource)
    ensures
        match key.aumid {
            Some(a) => s.primary@ == apps_folder_name(a@) && s.alternate == packaged_logo,
            None => s.primary@ == key.exe@ && s.alternate is None,
        },
{
    match &key.aumid {
        None => IconSource { primary: key.exe.clone(), alternate: None },
        Some(aumid) => {
            let mut primary = <String as StringExecFns>::from_str("shell:AppsFolder\\");
            primary.append(aumid.as_str());
            IconSource { primary, alternate: packaged_logo }
        },
    }
}

/// Whether an image source with this file extension is rendered as a
/// thumbnail (a `.png` file, the extension matched ASCII
/// case-insensitively) rather than as an icon.
pub fn wants_thumbnail(extension: Option<&str>) -> (r: bool)
    ensures
        r == match extension {
            Some(e) => e@.map_values(|c: char| ascii_lower(c)) == codes("png"@),
            None => false,
        },
{
    match extension {
        Some(e) => {
            let v = to_chars(e);
            let png = to_chars("png");
            let r = lower_equals(&v, 0, &png);
            assert(v@.skip(0) =~= v@);
            r
        },
        None => false,
    }
}

/// Whether an icon is drawn from a `shell:AppsFolder` entry, the only
/// source the taskbar plate and the corner rounding are applied to: a
/// package image chosen for its sharpness is the app's own artwork, drawn as
/// shipped.
pub fn uses_shell_styling(source: &IconSource) -> (r: bool)
    ensures
        r == (source.primary@.len() >= "shell:AppsFolder\\"@.len() && source.primary@.subrange(
            0,
            "shell:AppsFolder\\"@.len() as int,
        ) == "shell:AppsFolder\\"@),
{
    let name = to_chars(source.primary.as_str());
    let prefix = to_chars("shell:AppsFolder\\");
    let r = matches_at(&name, 0, name.len(), &prefix);
    assert(name@.subrange(0, name@.len() as int) =~= name@);
    r
}

/// Selection index moved one step forward or backward, wrapping at the ends.
pub open spec fn step_index_spec(len: nat, index: nat, forward: bool) -> nat {
    if len == 0 {
        0
    } else {
        ((index + if forward { 1 } else { len - 1 }) % (len as int)) as nat
    }
}

/// Selection index moved one step forward or backward, wrapping at the ends.
pub fn step_index(len: usize, index: usize, forward: bool) -> (r: usize)
    requires
        len == 0 || index + (if forward { 1 } else { len - 1 }) <= usize::MAX,
    ensures
        r == step_index_spec(len as nat, index as nat, forward),
{
    if len == 0 {
        return 0;
    }
    (index + if forward { 1 } else { len - 1 }) % len
}

/// A step forward moves to the next index and from the last back to the
/// first; a step back moves to the previous index and from the first to
/// the last.
pub proof fn lemma_step_index_moves(len: nat, index: nat)
    requires
        index < len,
    ensures
        step_index_spec(len, index, true) == if index + 1 < len {
            index + 1
        } else {
            0
        },
        step_index_spec(len, index, false) == if index > 0 {
            index - 1
        } else {
            len - 1
        },
{
    let l = len as int;
    let i = index as int;
    if i + 1 < l {
        vstd::arithmetic::div_mod::lemma_small_mod((i + 1) as nat, len);
    } else {
        vstd::arithmetic::div_mod::lemma_mod_self_0(l);
    }
    if i > 0 {
        assert(i + l - 1 == l + (i - 1));
        vstd::arithmetic::div_mod::lemma_mod_add_multiples_vanish(i - 1, l);
        vstd::arithmetic::div_mod::lemma_small_mod((i - 1) as nat, len);
    } else {
        vstd::arithmetic::div_mod::lemma_small_mod((l - 1) as nat, len);
    }
}

/// Stepping keeps a selection inside the list, and a step back undoes a step
/// forward (and the other way round).
pub proof fn lemma_step_index_wraps(len: nat, index: nat, forward: bool)
    requires
        index < len,
    ensures
        step_index_spec(len, index, forward) < len,
        step_index_spec(len, step_index_spec(len, index, forward), !forward) == index,
{
    let l = len as int;
    let i = index as int;
    if forward {
        let n = step_index_spec(len, index, forward) as int;
        if i + 1 < l {
            assert(n == i + 1) by {
                vstd::arithmetic::div_mod::lemma_small_mod((i + 1) as nat, len);
            }
            assert((n + l - 1) % l == i) by {
                assert(n + l - 1 == l + i);
                vstd::arithmetic::div_mod::lemma_mod_add_multiples_vanish(i, l);
                vstd::arithmetic::div_mod::lemma_small_mod(index, len);
            }
        } else {
            assert(n == 0) by {
                vstd::arithmetic::div_mod::lemma_mod_self_0(l);
            }
            assert((l - 1) % l == l - 1) by {
                vstd::arithmetic::div_mod::lemma_small_mod((l - 1) as nat, len);
            }
        }
    } else {
        let n = step_index_spec(len, index, forward) as int;
        if i == 0 {
            assert(n == l - 1) by {
                vstd::arithmetic::div_mod::lemma_small_mod((l - 1) as nat, len);
            }
            assert((n + 1) % l == 0) by {
                vstd::arithmetic::div_mod::lemma_mod_self_0(l);
            }
        } else {
            assert(n == i - 1) by {
                vstd::arithmetic::div_mod::lemma_mod_add_multiples_vanish(i - 1, l);
                vstd::arithmetic::div_mod::lemma_small_mod((i - 1) as nat, len);
            }
            assert((n + 1) % l == i) by {
                vstd::arithmetic::div_mod::lemma_small_mod(i as nat, len);
            }
        }
    }
}

} // verus!
