//! The cache.

use crate::text::texts;
use vstd::hash_map::StringHashMap;
use vstd::prelude::*;
use vstd::string::*;

verus! {

/// A cached prefix.
#[derive(Debug, Clone, Copy, PartialEq, Eq)]
pub struct CacheEntry {
    /// The tokens of the prefix.
    pub tokens: i32,
    /// The time from which on the entry counts no more.
    pub expires_at: u128,
}

/// The entries of the cache by their keys.
pub struct CacheStore {
    entries: StringHashMap<CacheEntry>,
    /// The keys of the entries, each once.
    keys: Vec<String>,
}

impl View for CacheStore {
    type V = Map<Seq<char>, CacheEntry>;

    closed spec fn view(&self) -> Map<Seq<char>, CacheEntry> {
        self.entries@
    }
}

/// The tokens of the entries are not negative.
pub open spec fn entries_wf(entries: Map<Seq<char>, CacheEntry>) -> bool {
    forall|key: Seq<char>| #[trigger] entries.contains_key(key) ==> entries[key].tokens >= 0
}

/// The entries that still count at a time.
pub open spec fn live(entries: Map<Seq<char>, CacheEntry>, now: u128) -> Map<
    Seq<char>,
    CacheEntry,
> {
    Map::new(
        |key: Seq<char>| entries.contains_key(key) && entries[key].expires_at > now,
        |key: Seq<char>| entries[key],
    )
}

impl CacheStore {
    /// What holds of every store.
    pub closed spec fn wf(self) -> bool {
        &&& texts(self.keys@).no_duplicates()
        &&& forall|key: Seq<char>| #[trigger]
            self.entries@.contains_key(key) <==> texts(self.keys@).contains(key)
        &&& entries_wf(self.entries@)
    }

    /// A store without entries.
    pub fn new() -> (store: CacheStore)
        ensures
            store.wf(),
            store@ == Map::<Seq<char>, CacheEntry>::empty(),
    {
        CacheStore { entries: StringHashMap::new(), keys: Vec::new() }
    }

    /// The tokens of the entries of a store are not negative.
    pub proof fn lemma_entries_wf(self)
        requires
            self.wf(),
        ensures
            entries_wf(self@),
    {
    }

    /// The entry with this key.
    pub fn get(&self, key: &str) -> (entry: Option<CacheEntry>)
        ensures
            entry is Some <==> self@.contains_key(key@),
            entry matches Some(found) ==> found == self@[key@],
    {
        match self.entries.get(key) {
            Some(entry) => Some(*entry),
            None => None,
        }
    }

    /// Sets the entry with this key.
    pub fn insert(&mut self, key: String, entry: CacheEntry)
        requires
            old(self).wf(),
            entry.tokens >= 0,
        ensures
            final(self).wf(),
            final(self)@ == old(self)@.insert(key@, entry),
    {
        let ghost before = texts(self.keys@);
        if !self.entries.contains_key(key.as_str()) {
            self.keys.push(key.clone());
            assert(texts(self.keys@) =~= before.push(key@));
            assert(!before.contains(key@));
            assert forall|other: Seq<char>|
                before.push(key@).contains(other) == (before.contains(other) || other
                    == key@) by {
                if before.contains(other) {
                    let at = choose|i: int| 0 <= i < before.len() && before[i] == other;
                    assert(before.push(key@)[at] == other);
                }
                if other == key@ {
                    assert(before.push(key@)[before.len() as int] == other);
                }
            }
        }
        self.entries.insert(key, entry);
    }

    /// Takes out the entries that count no more.
    pub fn drop_expired(&mut self, now: u128)
        requires
            old(self).wf(),
        ensures
            final(self).wf(),
            final(self)@ == live(old(self)@, now),
    {
        let ghost all = texts(self.keys@);
        let ghost entries = self.entries@;
        let mut kept: Vec<String> = Vec::new();
        let mut at: usize = 0;
        while at < self.keys.len()
            invariant
                at <= self.keys@.len(),
                all == texts(self.keys@),
                all.no_duplicates(),
                entries == old(self).entries@,
                entries_wf(entries),
                forall|key: Seq<char>| #[trigger]
                    entries.contains_key(key) <==> all.contains(key),
                texts(kept@).no_duplicates(),
                forall|key: Seq<char>| #[trigger]
                    texts(kept@).contains(key) <==> all.take(at as int).contains(key) && live(
                        entries,
                        now,
                    ).contains_key(key),
                forall|key: Seq<char>| #[trigger]
                    self.entries@.contains_key(key) <==> entries.contains_key(key) && (
                    !all.take(at as int).contains(key) || live(entries, now).contains_key(key)),
                forall|key: Seq<char>| #[trigger]
                    self.entries@.contains_key(key) ==> self.entries@[key] == entries[key],
            decreases self.keys.len() - at,
        {
            let ghost key = self.keys@[at as int]@;
            let ghost kept_before = texts(kept@);
            assert(all[at as int] == key);
            assert(all.contains(key));
            assert(!all.take(at as int).contains(key)) by {
                if all.take(at as int).contains(key) {
                    let i = choose|i: int|
                        0 <= i < at && all.take(at as int)[i] == key;
                    assert(all[i] == key);
                }
            }
            assert forall|other: Seq<char>| #[trigger]
                all.take(at + 1).contains(other) == (all.take(at as int).contains(other) || other
                    == key) by {
                let longer = all.take(at + 1);
                let shorter = all.take(at as int);
                if shorter.contains(other) {
                    let i = choose|i: int| 0 <= i < shorter.len() && shorter[i] == other;
                    assert(longer[i] == other);
                }
                if other == key {
                    assert(longer[at as int] == other);
                }
                if longer.contains(other) && other != key {
                    let i = choose|i: int| 0 <= i < longer.len() && longer[i] == other;
                    assert(shorter[i] == other);
                }
            }
            let expired = match self.entries.get(self.keys[at].as_str()) {
                Some(entry) => entry.expires_at <= now,
                None => false,
            };
            if expired {
                self.entries.remove(self.keys[at].as_str());
            } else {
                kept.push(self.keys[at].clone());
                assert(texts(kept@) =~= kept_before.push(key));
                assert(!kept_before.contains(key));
                assert forall|other: Seq<char>| #[trigger]
                    texts(kept@).contains(other) == (kept_before.contains(other) || other
                        == key) by {
                    if kept_before.contains(other) {
                        let i = choose|i: int|
                            0 <= i < kept_before.len() && kept_before[i] == other;
                        assert(texts(kept@)[i] == other);
                    }
                    if other == key {
                        assert(texts(kept@)[kept_before.len() as int] == other);
                    }
                }
            }
            at = at + 1;
        }
        assert(all.take(all.len() as int) =~= all);
        self.keys = kept;
        assert(self.entries@ =~= live(entries, now));
    }
}

} // verus!
