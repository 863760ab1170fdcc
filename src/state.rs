use vstd::prelude::*;
use crate::value::{Value, ValueModel};

verus! {

/// Seconds of life given to a key when no usable time-to-live is supplied.
pub const DEFAULT_TTL_SECS: u64 = 60;

/// What the store knows of one key: its value and the instant, in
/// milliseconds, at which it expires.
pub type Stored = (ValueModel, int);

/// The instant at which an entry written at `now` with `ttl_secs` expires.
pub open spec fn expiry(now: int, ttl_secs: int) -> int {
    now + ttl_secs * 1000
}

/// The value a reader sees for `key` at `now`: none once the expiry is reached.
pub open spec fn live(db: Map<Seq<char>, Stored>, key: Seq<char>, now: int) -> Option<ValueModel> {
    if db.contains_key(key) && now < db[key].1 {
        Some(db[key].0)
    } else {
        None
    }
}

/// The entries that a sweep at `now` keeps.
pub open spec fn unexpired(db: Map<Seq<char>, Stored>, now: int) -> Map<Seq<char>, Stored> {
    Map::new(|k: Seq<char>| db.contains_key(k) && now < db[k].1, |k: Seq<char>| db[k])
}

/// The outcome of a rename: `Some` of the new contents, or `None` when the
/// source key holds no live value.
pub open spec fn renamed(
    db: Map<Seq<char>, Stored>,
    from: Seq<char>,
    to: Seq<char>,
    now: int,
) -> Option<Map<Seq<char>, Stored>> {
    match live(db, from, now) {
        Some(v) => Some(db.insert(to, (v, expiry(now, DEFAULT_TTL_SECS as int))).remove(from)),
        None => None,
    }
}

/// The model of an optional value.
pub open spec fn view_opt(r: Option<Value>) -> Option<ValueModel> {
    match r {
        Some(v) => Some(v@),
        None => None,
    }
}

/// Failures of store operations.
#[derive(Debug, PartialEq, Eq, Structural)]
pub enum StoreError {
    KeyNotFound,
}

struct Entry {
    key: String,
    value: Value,
    expires_at: u128,
}

spec fn keys_unique(s: Seq<Entry>) -> bool {
    forall|i: int, j: int| 0 <= i < s.len() && 0 <= j < s.len() && i != j ==> s[i].key@ != s[j].key@
}

spec fn holds_key(s: Seq<Entry>, k: Seq<char>) -> bool {
    exists|i: int| 0 <= i < s.len() && s[i].key@ == k
}

spec fn entries_map(s: Seq<Entry>) -> Map<Seq<char>, Stored> {
    Map::new(
        |k: Seq<char>| holds_key(s, k),
        |k: Seq<char>|
            {
                let i = choose|i: int| 0 <= i < s.len() && s[i].key@ == k;
                (s[i].value@, s[i].expires_at as int)
            },
    )
}

proof fn lemma_entry_at(s: Seq<Entry>, i: int)
    requires
        keys_unique(s),
        0 <= i < s.len(),
    ensures
        entries_map(s).contains_key(s[i].key@),
        entries_map(s)[s[i].key@] == (s[i].value@, s[i].expires_at as int),
{
    let k = s[i].key@;
    assert(holds_key(s, k));
    let j = choose|j: int| 0 <= j < s.len() && s[j].key@ == k;
    assert(i == j);
}

/// The key-value store: each key holds at most one entry.
pub struct State {
    db: Vec<Entry>,
}

impl View for State {
    type V = Map<Seq<char>, Stored>;

    closed spec fn view(&self) -> Map<Seq<char>, Stored> {
        entries_map(self.db@)
    }
}

impl State {
    /// No key has two entries.
    pub closed spec fn wf(&self) -> bool {
        keys_unique(self.db@)
    }

    /// An empty store.
    pub fn new() -> (s: State)
        ensures
            s.wf(),
            s@ == Map::<Seq<char>, Stored>::empty(),
    {
        let s = State { db: Vec::new() };
        assert(s@ =~= Map::<Seq<char>, Stored>::empty());
        s
    }

    fn find(&self, key: &str) -> (r: Option<usize>)
        requires
            self.wf(),
        ensures
            match r {
                Some(i) => i < self.db@.len() && self.db@[i as int].key@ == key@,
                None => !self@.contains_key(key@),
            },
    {
        let mut i: usize = 0;
        while i < self.db.len()
            invariant
                i <= self.db@.len(),
                forall|j: int| 0 <= j < i ==> self.db@[j].key@ != key@,
            decreases self.db@.len() - i,
        {
            if crate::text::str_eq(self.db[i].key.as_str(), key) {
                return Some(i);
            }
            i = i + 1;
        }
        None
    }

    /// Writes `value` under `key`, replacing any entry it had; the entry
    /// expires `ttl_secs` seconds after `now` (milliseconds).
    pub fn set(&mut self, key: String, value: Value, ttl_secs: u64, now: u64)
        requires
            old(self).wf(),
        ensures
            final(self).wf(),
            final(self)@ == old(self)@.insert(key@, (value@, expiry(now as int, ttl_secs as int))),
    {
        let ghost k = key@;
        let ghost v = value@;
        let expires_at: u128 = now as u128 + ttl_secs as u128 * 1000;
        let ghost before = self.db@;
        match self.find(key.as_str()) {
            Some(i) => {
                self.db.set(i, Entry { key, value, expires_at });
                let ghost after = self.db@;
                assert(keys_unique(after));
                assert forall|q: Seq<char>| #[trigger] holds_key(after, q) <==> holds_key(before, q) || q == k by {
                    if holds_key(before, q) {
                        let j = choose|j: int| 0 <= j < before.len() && before[j].key@ == q;
                        assert(after[j].key@ == q);
                    }
                    if q == k {
                        assert(after[i as int].key@ == q);
                    }
                    if holds_key(after, q) {
                        let j = choose|j: int| 0 <= j < after.len() && after[j].key@ == q;
                        assert(before[j].key@ == q);
                    }
                }
                assert forall|q: Seq<char>| #[trigger] entries_map(after).contains_key(q) implies
                    entries_map(after)[q] == old(self)@.insert(k, (v, expiry(now as int, ttl_secs as int)))[q] by {
                    let j = choose|j: int| 0 <= j < after.len() && after[j].key@ == q;
                    lemma_entry_at(after, j);
                    if j != i {
                        lemma_entry_at(before, j);
                    }
                }
                assert(entries_map(after) =~= old(self)@.insert(k, (v, expiry(now as int, ttl_secs as int))));
            },
            None => {
                self.db.push(Entry { key, value, expires_at });
                let ghost after = self.db@;
                assert(keys_unique(after)) by {
                    assert forall|j: int| 0 <= j < before.len() implies before[j].key@ != k by {
                        assert(!holds_key(before, k));
                    }
                }
                assert forall|q: Seq<char>| #[trigger] holds_key(after, q) <==> holds_key(before, q) || q == k by {
                    if holds_key(before, q) {
                        let j = choose|j: int| 0 <= j < before.len() && before[j].key@ == q;
                        assert(after[j].key@ == q);
                    }
                    if q == k {
                        assert(after[before.len() as int].key@ == q);
                    }
                    if holds_key(after, q) {
                        let j = choose|j: int| 0 <= j < after.len() && after[j].key@ == q;
                        if j < before.len() {
                            assert(before[j].key@ == q);
                        }
                    }
                }
                assert forall|q: Seq<char>| #[trigger] entries_map(after).contains_key(q) implies
                    entries_map(after)[q] == old(self)@.insert(k, (v, expiry(now as int, ttl_secs as int)))[q] by {
                    let j = choose|j: int| 0 <= j < after.len() && after[j].key@ == q;
                    lemma_entry_at(after, j);
                    if j < before.len() {
                        lemma_entry_at(before, j);
                    }
                }
                assert(entries_map(after) =~= old(self)@.insert(k, (v, expiry(now as int, ttl_secs as int))));
            },
        }
    }
    /// The value of `key` if it has one that has not expired at `now`.
    pub fn get(&self, key: &str, now: u64) -> (r: Option<Value>)
        requires
            self.wf(),
        ensures
            view_opt(r) == live(self@, key@, now as int),
    {
        match self.find(key) {
            Some(i) => {
                proof { lemma_entry_at(self.db@, i as int); }
                if (now as u128) < self.db[i].expires_at {
                    Some(self.db[i].value.duplicate())
                } else {
                    None
                }
            },
            None => None,
        }
    }

    /// Whether `key` holds a value that has not expired at `now`.
    pub fn contains(&self, key: &str, now: u64) -> (r: bool)
        requires
            self.wf(),
        ensures
            r == live(self@, key@, now as int).is_some(),
    {
        match self.find(key) {
            Some(i) => {
                proof { lemma_entry_at(self.db@, i as int); }
                (now as u128) < self.db[i].expires_at
            },
            None => false,
        }
    }

    /// Removes the entry of `key`, if there is one.
    pub fn delete(&mut self, key: &str)
        requires
            old(self).wf(),
        ensures
            final(self).wf(),
            final(self)@ == old(self)@.remove(key@),
    {
        let ghost before = self.db@;
        let ghost k = key@;
        match self.find(key) {
            Some(i) => {
                self.db.remove(i);
                let ghost after = self.db@;
                assert forall|j: int| 0 <= j < after.len() implies after[j] == before[if j < i { j } else { j + 1 }] by {}
                assert(keys_unique(after)) by {
                    assert forall|a: int, b: int| 0 <= a < after.len() && 0 <= b < after.len() && a != b
                        implies after[a].key@ != after[b].key@ by {
                        let a1 = if a < i { a } else { a + 1 };
                        let b1 = if b < i { b } else { b + 1 };
                        assert(after[a] == before[a1] && after[b] == before[b1]);
                    }
                }
                assert forall|q: Seq<char>| #[trigger] holds_key(after, q) <==> holds_key(before, q) && q != k by {
                    if holds_key(before, q) && q != k {
                        let j = choose|j: int| 0 <= j < before.len() && before[j].key@ == q;
                        assert(j != i);
                        let j1 = if j < i { j } else { j - 1 };
                        assert(after[j1] == before[j]);
                    }
                    if holds_key(after, q) {
                        let j = choose|j: int| 0 <= j < after.len() && after[j].key@ == q;
                        let j1 = if j < i { j } else { j + 1 };
                        assert(after[j] == before[j1]);
                        assert(j1 != i);
                    }
                }
                assert forall|q: Seq<char>| #[trigger] entries_map(after).contains_key(q) implies
                    entries_map(after)[q] == old(self)@.remove(k)[q] by {
                    let j = choose|j: int| 0 <= j < after.len() && after[j].key@ == q;
                    let j1 = if j < i { j } else { j + 1 };
                    lemma_entry_at(after, j);
                    lemma_entry_at(before, j1);
                }
                assert(entries_map(after) =~= old(self)@.remove(k));
            },
            None => {
                assert(old(self)@.remove(k) =~= old(self)@);
            },
        }
    }

    /// Removes every entry.
    pub fn clear(&mut self)
        requires
            old(self).wf(),
        ensures
            final(self).wf(),
            final(self)@ == Map::<Seq<char>, Stored>::empty(),
    {
        self.db = Vec::new();
        assert(self@ =~= Map::<Seq<char>, Stored>::empty());
    }

    /// Moves the live value of `from` to `to`, with a fresh default
    /// time-to-live, and removes `from`, as one operation.
    pub fn rename(&mut self, from: &str, to: &str, now: u64) -> (r: Result<(), StoreError>)
        requires
            old(self).wf(),
        ensures
            final(self).wf(),
            match renamed(old(self)@, from@, to@, now as int) {
                Some(m) => r == Ok::<(), StoreError>(()) && final(self)@ == m,
                None => r == Err::<(), StoreError>(StoreError::KeyNotFound) && final(self)@ == old(self)@,
            },
    {
        match self.get(from, now) {
            Some(v) => {
                self.set(crate::text::owned(to), v, DEFAULT_TTL_SECS, now);
                self.delete(from);
                Ok(())
            },
            None => Err(StoreError::KeyNotFound),
        }
    }

    /// Drops every entry whose expiry is reached at `now`.
    pub fn purge_expired(&mut self, now: u64)
        requires
            old(self).wf(),
        ensures
            final(self).wf(),
            final(self)@ == unexpired(old(self)@, now as int),
    {
        let mut old_db: Vec<Entry> = Vec::new();
        std::mem::swap(&mut old_db, &mut self.db);
        let ghost before = old_db@;
        let mut kept: Vec<Entry> = Vec::new();
        let ghost mut src: Seq<int> = Seq::empty();
        for e in it: old_db.into_iter()
            invariant
                it.seq() == before,
                keys_unique(before),
                src.len() == kept@.len(),
                forall|a: int| 0 <= a < src.len() ==> 0 <= #[trigger] src[a] < it.index()
                    && kept@[a] == before[src[a]] && now < before[src[a]].expires_at,
                forall|a: int, b: int| 0 <= a < b < src.len() ==> src[a] < src[b],
                forall|j: int| 0 <= j < it.index() && now < before[j].expires_at ==>
                    exists|a: int| 0 <= a < src.len() && src[a] == j,
        {
            let ghost idx = it.index();
            let ghost src0 = src;
            assert(e == before[idx]);
            if (now as u128) < e.expires_at {
                proof { src = src.push(idx); }
                kept.push(e);
            }
            assert forall|j: int| 0 <= j <= idx && now < before[j].expires_at implies
                exists|a: int| 0 <= a < src.len() && src[a] == j by {
                if j < idx {
                    let a = choose|a: int| 0 <= a < src0.len() && src0[a] == j;
                    assert(src[a] == j);
                } else {
                    assert(src[src.len() - 1] == j);
                }
            }
        }
        let ghost after = kept@;
        assert(keys_unique(after)) by {
            assert forall|a: int, b: int| 0 <= a < after.len() && 0 <= b < after.len() && a != b
                implies after[a].key@ != after[b].key@ by {
                assert(src[a] != src[b]);
            }
        }
        assert forall|q: Seq<char>| #[trigger] entries_map(after).contains_key(q) <==>
            unexpired(entries_map(before), now as int).contains_key(q) by {
            if holds_key(after, q) {
                let a = choose|a: int| 0 <= a < after.len() && after[a].key@ == q;
                lemma_entry_at(before, src[a]);
            }
            if unexpired(entries_map(before), now as int).contains_key(q) {
                let j = choose|j: int| 0 <= j < before.len() && before[j].key@ == q;
                lemma_entry_at(before, j);
                let a = choose|a: int| 0 <= a < src.len() && src[a] == j;
                assert(after[a].key@ == q);
            }
        }
        assert forall|q: Seq<char>| #[trigger] entries_map(after).contains_key(q) implies
            entries_map(after)[q] == unexpired(entries_map(before), now as int)[q] by {
            let a = choose|a: int| 0 <= a < after.len() && after[a].key@ == q;
            lemma_entry_at(after, a);
            lemma_entry_at(before, src[a]);
        }
        assert(entries_map(after) =~= unexpired(entries_map(before), now as int));
        self.db = kept;
    }
}

impl Default for State {
    fn default() -> (s: State)
        ensures
            s.wf(),
            s@ == Map::<Seq<char>, Stored>::empty(),
    {
        State::new()
    }
}

} // verus!
