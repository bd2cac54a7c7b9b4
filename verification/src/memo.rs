//! Process-lifetime memo tables for slow shell lookups, keyed by an app's
//! identity string. A successful lookup is remembered for good (nothing it
//! resolves can change while the app runs); a failed one only for a retry
//! window, so an app installed while the switcher runs is picked up without
//! a restart. Times are milliseconds on a monotonic clock.
use vstd::prelude::*;

verus! {

/// What a memo remembers for one identity.
pub enum Entry<V> {
    /// The lookup succeeded with this value.
    Found(V),
    /// The lookup last came up empty at this time.
    FailedAt(u64),
}

/// Answer of a memo lookup.
pub enum Lookup<'a, V> {
    /// A remembered value.
    Hit(&'a V),
    /// The lookup failed less than the retry window ago: do not retry yet.
    RecentFailure,
    /// Nothing usable is remembered: look it up.
    Miss,
}

/// A lookup's answer as a mathematical value.
pub enum Outcome<V> {
    Hit(V),
    RecentFailure,
    Miss,
}

impl<'a, V> Lookup<'a, V> {
    pub open spec fn outcome(&self) -> Outcome<V> {
        match self {
            Lookup::Hit(v) => Outcome::Hit(**v),
            Lookup::RecentFailure => Outcome::RecentFailure,
            Lookup::Miss => Outcome::Miss,
        }
    }
}

/// Time since `at`, zero when the clock reads earlier than `at`.
pub open spec fn elapsed(at: u64, now: u64) -> int {
    if now >= at {
        now - at
    } else {
        0
    }
}

/// What a lookup of `id` at time `now` answers, given the remembered
/// entries and the retry window for failures.
pub open spec fn outcome_spec<V>(m: Map<Seq<char>, Entry<V>>, id: Seq<char>, now: u64, retry: u64) -> Outcome<V> {
    if m.contains_key(id) {
        match m[id] {
            Entry::Found(v) => Outcome::Hit(v),
            Entry::FailedAt(t) => if elapsed(t, now) < retry {
                Outcome::RecentFailure
            } else {
                Outcome::Miss
            },
        }
    } else {
        Outcome::Miss
    }
}

/// A memo table: at most one entry per identity. The entries are kept as a
/// list of (identity, entry) pairs with distinct identities rather than in a
/// `HashMap<String, _>`: vstd's `HashMap` contracts hold only for key types
/// known to obey its key model (`obeys_key_model`), which vstd establishes
/// for primitive types and boxes of them but not for `String`, and which
/// could only be assumed here. A map keyed by the identity string would
/// leave `lookup` and `record` unprovable. The tables hold about one entry
/// per running app, so a linear scan costs little.
pub struct Memo<V> {
    entries: Vec<(String, Entry<V>)>,
}

impl<V> Memo<V> {
    #[verifier::type_invariant]
    spec fn ids_distinct(self) -> bool {
        forall|i: int, j: int|
            0 <= i < j < self.entries@.len() ==> #[trigger] self.entries@[i].0@
                != #[trigger] self.entries@[j].0@
    }

    spec fn holds(&self, id: Seq<char>) -> bool {
        exists|i: int| 0 <= i < self.entries@.len() && #[trigger] self.entries@[i].0@ == id
    }

    spec fn slot(&self, id: Seq<char>) -> int {
        choose|i: int| 0 <= i < self.entries@.len() && #[trigger] self.entries@[i].0@ == id
    }

    /// The remembered entry of each identity.
    pub closed spec fn view(&self) -> Map<Seq<char>, Entry<V>> {
        Map::new(|id: Seq<char>| self.holds(id), |id: Seq<char>| self.entries@[self.slot(id)].1)
    }

    proof fn lemma_slot(&self, i: int)
        requires
            self.ids_distinct(),
            0 <= i < self.entries@.len(),
        ensures
            self.holds(self.entries@[i].0@),
            self.slot(self.entries@[i].0@) == i,
            self@.contains_key(self.entries@[i].0@),
            self@[self.entries@[i].0@] == self.entries@[i].1,
    {
        let id = self.entries@[i].0@;
        assert(self.holds(id));
        let k = self.slot(id);
        if k != i {
            if k < i {
                assert(self.entries@[k].0@ != self.entries@[i].0@);
            } else {
                assert(self.entries@[i].0@ != self.entries@[k].0@);
            }
        }
    }

    /// An empty table.
    pub fn new() -> (m: Self)
        ensures
            m@ == Map::<Seq<char>, Entry<V>>::empty(),
    {
        let m = Memo { entries: Vec::new() };
        assert(m@ =~= Map::<Seq<char>, Entry<V>>::empty());
        m
    }

    /// Position of `id`'s entry.
    fn find(&self, id: &String) -> (r: Option<usize>)
        ensures
            match r {
                Some(i) => i < self.entries@.len() && self.entries@[i as int].0@ == id@,
                None => !self.holds(id@),
            },
    {
        let mut i: usize = 0;
        while i < self.entries.len()
            invariant
                i <= self.entries@.len(),
                forall|j: int| 0 <= j < i ==> #[trigger] self.entries@[j].0@ != id@,
            decreases self.entries.len() - i,
        {
            if self.entries[i].0 == *id {
                return Some(i);
            }
            i += 1;
        }
        None
    }

    /// What is remembered for `id` at time `now`: a found value, a failure
    /// less than `retry` ago, or nothing usable.
    pub fn lookup(&self, id: &str, now: u64, retry: u64) -> (r: Lookup<'_, V>)
        ensures
            r.outcome() == outcome_spec(self@, id@, now, retry),
    {
        proof {
            use_type_invariant(self);
        }
        let key = id.to_owned();
        match self.find(&key) {
            Some(i) => {
                proof {
                    self.lemma_slot(i as int);
                }
                match &self.entries[i].1 {
                    Entry::Found(v) => Lookup::Hit(v),
                    Entry::FailedAt(t) => {
                        let since = if now >= *t {
                            now - *t
                        } else {
                            0
                        };
                        if since < retry {
                            Lookup::RecentFailure
                        } else {
                            Lookup::Miss
                        }
                    },
                }
            },
            None => {
                assert(!self@.contains_key(id@));
                Lookup::Miss
            },
        }
    }

    /// Remember `entry` for `id`, replacing what was remembered before.
    pub fn record(&mut self, id: &str, entry: Entry<V>)
        ensures
            final(self)@ == old(self)@.insert(id@, entry),
    {
        proof {
            use_type_invariant(&*self);
        }
        let key = id.to_owned();
        let ghost before = self.entries@;
        let ghost old_map = self@;
        let found = self.find(&key);
        let ghost pos: int = match found {
            Some(i) => i as int,
            None => before.len() as int,
        };
        let mut entries: Vec<(String, Entry<V>)> = Vec::new();
        std::mem::swap(&mut entries, &mut self.entries);
        match found {
            Some(i) => {
                entries.set(i, (key, entry));
                proof {
                    assert forall|a: int, b: int|
                        0 <= a < b < entries@.len() implies #[trigger] entries@[a].0@
                        != #[trigger] entries@[b].0@ by {
                        assert(before[a].0@ != before[b].0@);
                    }
                }
            },
            None => {
                entries.push((key, entry));
                proof {
                    assert forall|a: int, b: int|
                        0 <= a < b < entries@.len() implies #[trigger] entries@[a].0@
                        != #[trigger] entries@[b].0@ by {
                        if b < before.len() {
                            assert(before[a].0@ != before[b].0@);
                        } else {
                            assert(before[a] == entries@[a]);
                        }
                    }
                }
            },
        }
        self.entries = entries;
        proof {
            use_type_invariant(&*self);
            assert(self.entries@[pos].0@ == id@);
            assert(forall|j: int| 0 <= j < before.len() && j != pos ==> #[trigger] self.entries@[j] == before[j]);
            assert forall|k: Seq<char>| #[trigger] self@.contains_key(k) == old_map.insert(
                id@,
                entry,
            ).contains_key(k) by {
                if k == id@ {
                    assert(self.holds(k));
                } else {
                    if self.holds(k) {
                        let j = self.slot(k);
                        assert(j != pos);
                        assert(before[j].0@ == k);
                        assert(old_map.contains_key(k));
                    }
                    if old_map.contains_key(k) {
                        let j = choose|j: int| 0 <= j < before.len() && #[trigger] before[j].0@ == k;
                        assert(j != pos);
                        assert(self.entries@[j].0@ == k);
                        assert(self.holds(k));
                    }
                }
            }
            assert forall|k: Seq<char>| #[trigger] self@.contains_key(k) implies self@[k]
                == old_map.insert(id@, entry)[k] by {
                let j = self.slot(k);
                self.lemma_slot(j);
                if k != id@ {
                    assert(before[j] == self.entries@[j]);
                    assert(old_map.contains_key(k)) by {
                        assert(before[j].0@ == k);
                    }
                    let oj = choose|oj: int| 0 <= oj < before.len() && #[trigger] before[oj].0@ == k;
                    if oj != j {
                        assert(self.entries@[oj] == before[oj]);
                        if oj < j {
                            assert(self.entries@[oj].0@ != self.entries@[j].0@);
                        } else {
                            assert(self.entries@[j].0@ != self.entries@[oj].0@);
                        }
                    }
                }
            }
            assert(self@ =~= old_map.insert(id@, entry));
        }
    }
}

/// A value remembered as found is what every later lookup of its identity
/// answers, whatever the time.
pub proof fn lemma_found_is_kept<V>(m: Map<Seq<char>, Entry<V>>, id: Seq<char>, v: V, now: u64, retry: u64)
    ensures
        outcome_spec(m.insert(id, Entry::Found(v)), id, now, retry) == Outcome::Hit(v),
{
}

/// A failure is answered as such only within the retry window; from then
/// on the lookup is due again.
pub proof fn lemma_failure_expires<V>(m: Map<Seq<char>, Entry<V>>, id: Seq<char>, at: u64, now: u64, retry: u64)
    ensures
        outcome_spec(m.insert(id, Entry::FailedAt(at)), id, now, retry) == if elapsed(at, now) < retry {
            Outcome::<V>::RecentFailure
        } else {
            Outcome::<V>::Miss
        },
{
}

/// Remembering one identity leaves what every other identity answers as it
/// was.
pub proof fn lemma_record_is_local<V>(
    m: Map<Seq<char>, Entry<V>>,
    id: Seq<char>,
    e: Entry<V>,
    other: Seq<char>,
    now: u64,
    retry: u64,
)
    requires
        other != id,
    ensures
        outcome_spec(m.insert(id, e), other, now, retry) == outcome_spec(m, other, now, retry),
{
}

} // verus!
