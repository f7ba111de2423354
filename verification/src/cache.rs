//! In-memory, file-persisted response cache.
//!
//! The store maps a URL to an ordered sequence of entries, oldest first.
//! Insertion appends a fresh entry and, when a per-key bound is configured
//! and exceeded, drops exactly the single oldest entry. Lookups select the
//! newest entry, optionally restricted to a freshness window.

use vstd::prelude::*;
use vstd::string::StringSliceAdditionalSpecFns;
use vstd::utf8::encode_utf8;

use crate::settings::Settings;
use crate::strutil::eq_bytes;

verus! {

/// One timestamped cached response body.
#[derive(Debug, Clone)]
pub struct CacheEntry {
    /// Raw carrier response body.
    pub text: String,
    /// Creation time, epoch milliseconds.
    pub created: i64,
}

/// Mathematical image of one entry: its text and creation time.
pub type EntryView = (Seq<char>, int);

impl CacheEntry {
    pub open spec fn view_of(self) -> EntryView {
        (self.text@, self.created as int)
    }

    /// A copy with the same text and creation time.
    pub fn duplicate(&self) -> (r: CacheEntry)
        ensures
            r.view_of() == self.view_of(),
    {
        CacheEntry { text: self.text.clone(), created: self.created }
    }
}

/// All entries stored under one URL, oldest first.
#[derive(Debug)]
pub struct CacheBucket {
    pub url: String,
    pub entries: Vec<CacheEntry>,
}

impl CacheBucket {
    /// The UTF-8 bytes of the bucket's URL, the store key.
    pub open spec fn key(self) -> Seq<u8> {
        encode_utf8(self.url@)
    }
}

/// The views of a sequence of entries.
pub open spec fn entry_views(s: Seq<CacheEntry>) -> Seq<EntryView> {
    s.map(|i: int, e: CacheEntry| e.view_of())
}

/// The entries stored under `key` (the UTF-8 bytes of a URL), if any.
pub open spec fn spec_lookup(s: Seq<CacheBucket>, key: Seq<u8>) -> Option<Seq<CacheEntry>>
    decreases s.len(),
{
    if s.len() == 0 {
        None
    } else if s[0].key() == key {
        Some(s[0].entries@)
    } else {
        spec_lookup(s.drop_first(), key)
    }
}

/// An entry created at `created` is within `max_age_s` seconds of `now`.
pub open spec fn fresh_enough(created: int, now: int, max_age_s: int) -> bool {
    now - created <= max_age_s * 1000
}

/// The result of one insertion into a key's entry sequence: append, then,
/// if a bound is configured and exceeded, drop the single oldest entry.
/// `key_present` tells whether the key already had a bucket; the same rule
/// applies to a fresh bucket, so a bound of zero retains nothing.
pub open spec fn spec_insert_entries(
    es: Seq<EntryView>,
    ev: EntryView,
    max: Option<usize>,
    key_present: bool,
) -> Seq<EntryView> {
    let p = (if key_present {
        es
    } else {
        Seq::empty()
    }).push(ev);
    match max {
        Some(m) => if p.len() > m {
            p.drop_first()
        } else {
            p
        },
        None => p,
    }
}

proof fn lemma_lookup_prefix(s: Seq<CacheBucket>, key: Seq<u8>, i: int)
    requires
        0 <= i <= s.len(),
        forall|j: int| 0 <= j < i ==> s[j].key() != key,
    ensures
        spec_lookup(s, key) == spec_lookup(s.skip(i), key),
    decreases i,
{
    if i > 0 {
        lemma_lookup_prefix(s.drop_first(), key, i - 1);
        assert(s.drop_first().skip(i - 1) =~= s.skip(i));
    } else {
        assert(s.skip(0) =~= s);
    }
}

proof fn lemma_lookup_push(s: Seq<CacheBucket>, b: CacheBucket)
    requires
        forall|j: int| 0 <= j < s.len() ==> s[j].key() != b.key(),
    ensures
        spec_lookup(s.push(b), b.key()) == Some(b.entries@),
        forall|k: Seq<u8>|
            k != b.key() ==> spec_lookup(s.push(b), k) == spec_lookup(s, k),
    decreases s.len(),
{
    if s.len() == 0 {
        assert(s.push(b)[0] == b);
        assert(s.push(b).drop_first() =~= Seq::<CacheBucket>::empty());
        assert forall|k: Seq<u8>| k != b.key() implies spec_lookup(s.push(b), k) == spec_lookup(
            s,
            k,
        ) by {
            assert(spec_lookup(s.push(b), k) == spec_lookup(s.push(b).drop_first(), k));
            assert(spec_lookup(s.push(b).drop_first(), k) is None);
            assert(spec_lookup(s, k) is None);
        }
    } else {
        assert(s.push(b)[0] == s[0]);
        assert(s.push(b).drop_first() =~= s.drop_first().push(b));
        lemma_lookup_push(s.drop_first(), b);
        assert forall|k: Seq<u8>| k != b.key() implies spec_lookup(s.push(b), k) == spec_lookup(
            s,
            k,
        ) by {
            if s[0].key() == k {
                assert(spec_lookup(s.push(b), k) == Some(s[0].entries@));
                assert(spec_lookup(s, k) == Some(s[0].entries@));
            } else {
                assert(spec_lookup(s.push(b), k) == spec_lookup(s.drop_first().push(b), k));
                assert(spec_lookup(s.drop_first().push(b), k) == spec_lookup(s.drop_first(), k));
                assert(spec_lookup(s, k) == spec_lookup(s.drop_first(), k));
            }
        }
    }
}

proof fn lemma_lookup_update(s: Seq<CacheBucket>, i: int, b: CacheBucket)
    requires
        0 <= i < s.len(),
        s[i].key() == b.key(),
        forall|j: int| 0 <= j < i ==> s[j].key() != b.key(),
    ensures
        spec_lookup(s.update(i, b), b.key()) == Some(b.entries@),
        forall|k: Seq<u8>|
            k != b.key() ==> spec_lookup(s.update(i, b), k) == spec_lookup(s, k),
    decreases i,
{
    if i == 0 {
        assert(s.update(0, b)[0] == b);
        assert(s.update(0, b).drop_first() =~= s.drop_first());
    } else {
        assert(s.update(i, b)[0] == s[0]);
        assert(s.update(i, b).drop_first() =~= s.drop_first().update(i - 1, b));
        lemma_lookup_update(s.drop_first(), i - 1, b);
        assert forall|k: Seq<u8>| k != b.key() implies spec_lookup(s.update(i, b), k)
            == spec_lookup(s, k) by {
            if s[0].key() == k {
                assert(spec_lookup(s.update(i, b), k) == Some(s[0].entries@));
                assert(spec_lookup(s, k) == Some(s[0].entries@));
            } else {
                assert(spec_lookup(s.update(i, b), k) == spec_lookup(
                    s.drop_first().update(i - 1, b),
                    k,
                ));
                assert(spec_lookup(s.drop_first().update(i - 1, b), k) == spec_lookup(
                    s.drop_first(),
                    k,
                ));
                assert(spec_lookup(s, k) == spec_lookup(s.drop_first(), k));
            }
        }
    }
}

/// URL → entries store with bounded per-key retention and a modification
/// flag that records whether any insert happened since construction.
#[derive(Debug)]
pub struct JsonCache {
    pub store: Vec<CacheBucket>,
    /// Max entries per URL; `None` means unbounded.
    pub max_entries: Option<usize>,
    /// Set on first insert, cleared only by re-construction.
    pub modified: bool,
}

impl JsonCache {
    /// Every URL appears in at most one bucket.
    pub open spec fn wf(self) -> bool {
        forall|i: int, j: int|
            0 <= i < j < self.store@.len() ==> self.store@[i].key()
                != self.store@[j].key()
    }

    /// The entries stored under a URL key, empty if the key is absent.
    pub open spec fn spec_entries(self, key: Seq<u8>) -> Seq<CacheEntry> {
        match spec_lookup(self.store@, key) {
            Some(es) => es,
            None => Seq::empty(),
        }
    }

    pub open spec fn spec_has_key(self, key: Seq<u8>) -> bool {
        spec_lookup(self.store@, key) is Some
    }

    /// An empty store with no per-key bound.
    pub fn new() -> (r: JsonCache)
        ensures
            r.wf(),
            r.store@.len() == 0,
            r.max_entries is None,
            !r.modified,
    {
        JsonCache { store: Vec::new(), max_entries: None, modified: false }
    }

    /// An empty store bounded to `max_entries` entries per URL.
    pub fn with_max_entries(max_entries: usize) -> (r: JsonCache)
        ensures
            r.wf(),
            r.store@.len() == 0,
            r.max_entries == Some(max_entries),
            !r.modified,
    {
        JsonCache { store: Vec::new(), max_entries: Some(max_entries), modified: false }
    }

    /// An empty store bounded per the configured settings.
    pub fn from_settings(settings: &Settings) -> (r: JsonCache)
        ensures
            r.wf(),
            r.store@.len() == 0,
            r.max_entries == Some(settings.cache_max_entries),
            !r.modified,
    {
        JsonCache::with_max_entries(settings.cache_max_entries)
    }

    /// Index of the bucket holding `key`, if any.
    fn find_bucket(&self, key: &[u8]) -> (r: Option<usize>)
        ensures
            match r {
                Some(i) => i < self.store@.len() && self.store@[i as int].key() == key@
                    && (forall|j: int|
                    0 <= j < i ==> self.store@[j].key() != key@) && spec_lookup(
                    self.store@,
                    key@,
                ) == Some(self.store@[i as int].entries@),
                None => spec_lookup(self.store@, key@) is None,
            },
    {
        let mut i: usize = 0;
        while i < self.store.len()
            invariant
                i <= self.store@.len(),
                forall|j: int| 0 <= j < i ==> self.store@[j].key() != key@,
            decreases self.store@.len() - i,
        {
            if eq_bytes(self.store[i].url.as_str().as_bytes(), key) {
                proof {
                    lemma_lookup_prefix(self.store@, key@, i as int);
                    assert(self.store@.skip(i as int)[0] == self.store@[i as int]);
                }
                return Some(i);
            }
            i += 1;
        }
        proof {
            lemma_lookup_prefix(self.store@, key@, i as int);
            assert(self.store@.skip(i as int).len() == 0);
        }
        None
    }

    /// The newest entry for the URL, ignoring age; `None` when the URL has
    /// no entries.
    pub fn get(&self, url: &str) -> (r: Option<CacheEntry>)
        ensures
            ({
                let es = entry_views(self.spec_entries(url.spec_bytes()));
                match r {
                    Some(e) => (exists|i: int| 0 <= i < es.len() && es[i] == e.view_of())
                        && (forall|j: int| 0 <= j < es.len() ==> es[j].1 <= e.created as int),
                    None => es.len() == 0,
                }
            }),
    {
        let idx = match self.find_bucket(url.as_bytes()) {
            Some(i) => i,
            None => {
                return None;
            },
        };
        let bucket = &self.store[idx];
        proof {
            assert(self.spec_entries(url.spec_bytes()) == bucket.entries@);
        }
        let ghost es = entry_views(bucket.entries@);
        let mut best: Option<usize> = None;
        let mut k: usize = 0;
        while k < bucket.entries.len()
            invariant
                k <= bucket.entries@.len(),
                es == entry_views(bucket.entries@),
                match best {
                    Some(b) => b < k && (forall|j: int| 0 <= j < k ==> es[j].1 <= es[b as int].1),
                    None => k == 0,
                },
            decreases bucket.entries@.len() - k,
        {
            best = match best {
                Some(b) => {
                    if bucket.entries[k].created >= bucket.entries[b].created {
                        Some(k)
                    } else {
                        Some(b)
                    }
                },
                None => Some(k),
            };
            k += 1;
        }
        match best {
            Some(b) => {
                let r = bucket.entries[b].duplicate();
                proof {
                    assert(es[b as int] == r.view_of());
                }
                Some(r)
            },
            None => None,
        }
    }

    /// The newest entry for the URL among those at most `max_age_s` seconds
    /// old at `now`; `None` when no entry is that fresh.
    pub fn get_younger_than(&self, url: &str, max_age_s: u64, now: i64) -> (r: Option<CacheEntry>)
        ensures
            ({
                let es = entry_views(self.spec_entries(url.spec_bytes()));
                match r {
                    Some(e) => (exists|i: int| 0 <= i < es.len() && es[i] == e.view_of())
                        && fresh_enough(e.created as int, now as int, max_age_s as int) && (forall|
                        j: int,
                    |
                        0 <= j < es.len() && fresh_enough(es[j].1, now as int, max_age_s as int)
                            ==> es[j].1 <= e.created as int),
                    None => forall|j: int|
                        0 <= j < es.len() ==> !fresh_enough(es[j].1, now as int, max_age_s as int),
                }
            }),
    {
        let idx = match self.find_bucket(url.as_bytes()) {
            Some(i) => i,
            None => {
                return None;
            },
        };
        let bucket = &self.store[idx];
        proof {
            assert(self.spec_entries(url.spec_bytes()) == bucket.entries@);
        }
        let ghost es = entry_views(bucket.entries@);
        let mut best: Option<usize> = None;
        let mut k: usize = 0;
        while k < bucket.entries.len()
            invariant
                k <= bucket.entries@.len(),
                es == entry_views(bucket.entries@),
                match best {
                    Some(b) => b < k && fresh_enough(
                        es[b as int].1,
                        now as int,
                        max_age_s as int,
                    ) && (forall|j: int|
                        0 <= j < k && fresh_enough(es[j].1, now as int, max_age_s as int)
                            ==> es[j].1 <= es[b as int].1),
                    None => forall|j: int|
                        0 <= j < k ==> !fresh_enough(es[j].1, now as int, max_age_s as int),
                },
            decreases bucket.entries@.len() - k,
        {
            let created = bucket.entries[k].created;
            let is_fresh = (now as i128) - (created as i128) <= (max_age_s as i128) * 1000;
            if is_fresh {
                best = match best {
                    Some(b) => {
                        if created >= bucket.entries[b].created {
                            Some(k)
                        } else {
                            Some(b)
                        }
                    },
                    None => Some(k),
                };
            }
            k += 1;
        }
        match best {
            Some(b) => {
                let r = bucket.entries[b].duplicate();
                proof {
                    assert(es[b as int] == r.view_of());
                }
                Some(r)
            },
            None => None,
        }
    }

    /// Append a fresh entry for the URL; when the configured per-key bound
    /// is exceeded, drop exactly the single oldest entry. Sets the
    /// modification flag. Entries of every other URL are untouched.
    pub fn insert(&mut self, url: &str, text: &str, now: i64)
        requires
            old(self).wf(),
        ensures
            final(self).wf(),
            final(self).modified,
            final(self).max_entries == old(self).max_entries,
            entry_views(final(self).spec_entries(url.spec_bytes())) == spec_insert_entries(
                entry_views(old(self).spec_entries(url.spec_bytes())),
                (text@, now as int),
                old(self).max_entries,
                old(self).spec_has_key(url.spec_bytes()),
            ),
            final(self).spec_has_key(url.spec_bytes()),
            forall|k: Seq<u8>|
                k != url.spec_bytes() ==> spec_lookup(final(self).store@, k) == spec_lookup(
                    old(self).store@,
                    k,
                ),
    {
        let entry = CacheEntry { text: text.to_owned(), created: now };
        match self.find_bucket(url.as_bytes()) {
            Some(i) => {
                let ghost old_store = self.store@;
                let mut bucket = self.store.remove(i);
                bucket.entries.push(entry);
                let over = match self.max_entries {
                    Some(m) => bucket.entries.len() > m,
                    None => false,
                };
                if over {
                    bucket.entries.remove(0);
                }
                proof {
                    assert(entry_views(bucket.entries@) =~= spec_insert_entries(
                        entry_views(old_store[i as int].entries@),
                        (text@, now as int),
                        self.max_entries,
                        true,
                    ));
                }
                self.store.insert(i, bucket);
                proof {
                    assert(self.store@ =~= old_store.update(i as int, self.store@[i as int]));
                    lemma_lookup_update(old_store, i as int, self.store@[i as int]);
                }
            },
            None => {
                let mut entries = vec![entry];
                let over = match self.max_entries {
                    Some(m) => entries.len() > m,
                    None => false,
                };
                if over {
                    entries.remove(0);
                }
                let bucket = CacheBucket { url: url.to_owned(), entries };
                let ghost old_store = self.store@;
                proof {
                    // every existing bucket misses this key, else lookup
                    // would have found one
                    assert forall|j: int|
                        0 <= j < old_store.len() implies old_store[j].key()
                        != url.spec_bytes() by {
                        if old_store[j].key() == url.spec_bytes() {
                            lemma_lookup_prefix_contra(old_store, url.spec_bytes(), j);
                        }
                    }
                }
                self.store.push(bucket);
                proof {
                    lemma_lookup_push(old_store, self.store@.last());
                    assert(entry_views(self.store@.last().entries@) =~= spec_insert_entries(
                        Seq::empty(),
                        (text@, now as int),
                        self.max_entries,
                        false,
                    ));
                }
            },
        }
        self.modified = true;
    }

    /// Is the URL present in the store?
    pub fn has_key(&self, url: &str) -> (r: bool)
        ensures
            r == self.spec_has_key(url.spec_bytes()),
    {
        self.find_bucket(url.as_bytes()).is_some()
    }

    /// Append a whole bucket for a URL not yet in the store; used when a
    /// persisted store is loaded.
    pub fn push_bucket(&mut self, bucket: CacheBucket)
        requires
            old(self).wf(),
            !old(self).spec_has_key(bucket.key()),
        ensures
            final(self).wf(),
            final(self).store@ == old(self).store@.push(bucket),
            final(self).modified == old(self).modified,
            final(self).max_entries == old(self).max_entries,
    {
        proof {
            assert forall|j: int|
                0 <= j < self.store@.len() implies self.store@[j].key() != bucket.key() by {
                if self.store@[j].key() == bucket.key() {
                    lemma_lookup_prefix_contra(self.store@, bucket.key(), j);
                }
            }
        }
        self.store.push(bucket);
    }

    /// The texts stored under the URL, oldest first.
    pub fn get_texts(&self, url: &str) -> (r: Vec<String>)
        ensures
            ({
                let es = entry_views(self.spec_entries(url.spec_bytes()));
                r@.len() == es.len() && forall|i: int| 0 <= i < es.len() ==> r@[i]@ == es[i].0
            }),
    {
        let mut out: Vec<String> = Vec::new();
        let idx = match self.find_bucket(url.as_bytes()) {
            Some(i) => i,
            None => {
                return out;
            },
        };
        let bucket = &self.store[idx];
        proof {
            assert(self.spec_entries(url.spec_bytes()) == bucket.entries@);
        }
        let ghost es = entry_views(bucket.entries@);
        let mut k: usize = 0;
        while k < bucket.entries.len()
            invariant
                k <= bucket.entries@.len(),
                es == entry_views(bucket.entries@),
                out@.len() == k,
                forall|i: int| 0 <= i < k ==> out@[i]@ == es[i].0,
            decreases bucket.entries@.len() - k,
        {
            out.push(bucket.entries[k].text.clone());
            k += 1;
        }
        out
    }
}

impl Default for JsonCache {
    /// An empty, unbounded, unmodified store.
    fn default() -> (r: JsonCache)
        ensures
            r.wf(),
            r.store@.len() == 0,
            r.max_entries is None,
            !r.modified,
    {
        JsonCache::new()
    }
}

/// The entries under one key after a run of inserts into a store where the
/// key was initially absent: the first insert creates the bucket, each later
/// one appends and trims.
pub open spec fn spec_insert_run(ins: Seq<EntryView>, max: Option<usize>) -> Seq<EntryView>
    decreases ins.len(),
{
    if ins.len() == 0 {
        Seq::empty()
    } else {
        spec_insert_entries(spec_insert_run(ins.drop_last(), max), ins.last(), max, ins.len() > 1)
    }
}

/// Unbounded retention: with no per-key bound, a run of inserts keeps every
/// entry, in insertion order.
pub proof fn lemma_unbounded_retention(ins: Seq<EntryView>)
    ensures
        spec_insert_run(ins, None) =~= ins,
    decreases ins.len(),
{
    if ins.len() > 0 {
        lemma_unbounded_retention(ins.drop_last());
    }
}

/// A run of at most `max` inserts does not yet evict anything.
pub proof fn lemma_retention_under(ins: Seq<EntryView>, max: usize)
    requires
        ins.len() <= max,
    ensures
        spec_insert_run(ins, Some(max)) =~= ins,
    decreases ins.len(),
{
    if ins.len() > 0 {
        lemma_retention_under(ins.drop_last(), max);
    }
}

/// Bounded retention: inserting `max + k` entries under one key with a
/// per-key bound of `max` leaves exactly the last `max` inserted, oldest
/// first, in insertion order.
pub proof fn lemma_bounded_retention(ins: Seq<EntryView>, max: usize)
    requires
        max <= ins.len(),
    ensures
        spec_insert_run(ins, Some(max)) =~= ins.skip(ins.len() - max),
    decreases ins.len(),
{
    if ins.len() == max {
        lemma_retention_under(ins, max);
    } else {
        lemma_bounded_retention(ins.drop_last(), max);
    }
}

/// If some bucket at position `j` holds the key, the lookup cannot miss.
proof fn lemma_lookup_prefix_contra(s: Seq<CacheBucket>, key: Seq<u8>, j: int)
    requires
        0 <= j < s.len(),
        s[j].key() == key,
    ensures
        spec_lookup(s, key) is Some,
    decreases j,
{
    if s[0].key() != key {
        lemma_lookup_prefix_contra(s.drop_first(), key, j - 1);
    }
}

} // verus!
