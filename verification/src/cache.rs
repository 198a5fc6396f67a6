//! Time-bounded cache of verified credentials.
//!
//! The cache maps a principal identifier to the secret that was last
//! verified for it, together with an expiry instant. Entries are honored
//! strictly before their expiry; a read that finds an expired entry
//! removes it (lazy eviction), so an expired secret is never returned and
//! never lingers once read. Time is an injected instant value, so the
//! clock stays outside the library.

use vstd::prelude::*;

verus! {

/// A cached secret and the instant at which it stops being honored.
pub struct AuthInfo {
    pub token: String,
    pub expires_at: u64,
}

struct CacheEntry {
    key: String,
    info: AuthInfo,
}

/// One cache line as the model sees it: key, secret, expiry.
pub type CacheModel = Seq<(Seq<char>, Seq<char>, u64)>;

/// First entry for `k`, if any (the well-formed cache has at most one).
pub open spec fn cache_lookup(s: CacheModel, k: Seq<char>) -> Option<(Seq<char>, u64)>
    decreases s.len(),
{
    if s.len() == 0 {
        None
    } else if s[0].0 == k {
        Some((s[0].1, s[0].2))
    } else {
        cache_lookup(s.drop_first(), k)
    }
}

/// The cache with every entry for `k` removed.
pub open spec fn cache_remove(s: CacheModel, k: Seq<char>) -> CacheModel
    decreases s.len(),
{
    if s.len() == 0 {
        Seq::empty()
    } else if s[0].0 == k {
        cache_remove(s.drop_first(), k)
    } else {
        seq![s[0]] + cache_remove(s.drop_first(), k)
    }
}

/// The cache after `put`: the old entry for `k` is replaced outright.
pub open spec fn cache_set(s: CacheModel, k: Seq<char>, t: Seq<char>, e: u64) -> CacheModel {
    cache_remove(s, k).push((k, t, e))
}

/// What `get` returns at instant `now`: the secret iff an entry exists and
/// `now` is strictly before its expiry (a tie counts as expired).
pub open spec fn cache_get_value(s: CacheModel, k: Seq<char>, now: u64) -> Option<Seq<char>> {
    match cache_lookup(s, k) {
        Some(te) => if now < te.1 {
            Some(te.0)
        } else {
            None
        },
        None => None,
    }
}

/// The cache after `get` at instant `now`: unchanged, except that a found
/// but expired entry is purged.
pub open spec fn cache_get_state(s: CacheModel, k: Seq<char>, now: u64) -> CacheModel {
    match cache_lookup(s, k) {
        Some(te) => if now < te.1 {
            s
        } else {
            cache_remove(s, k)
        },
        None => s,
    }
}

pub proof fn lemma_cache_lookup_absent(s: CacheModel, k: Seq<char>)
    requires
        forall|j: int| 0 <= j < s.len() ==> (#[trigger] s[j]).0 != k,
    ensures
        cache_lookup(s, k) is None,
    decreases s.len(),
{
    if s.len() > 0 {
        assert(s[0].0 != k);
        assert forall|j: int| 0 <= j < s.drop_first().len() implies (#[trigger] s.drop_first()[
            j
        ]).0 != k by {
            assert(s.drop_first()[j] == s[j + 1]);
        }
        lemma_cache_lookup_absent(s.drop_first(), k);
    }
}

/// Looking up a key that only the appended entry carries finds that entry.
pub proof fn lemma_cache_lookup_push(s: CacheModel, k: Seq<char>, t: Seq<char>, e: u64)
    requires
        forall|j: int| 0 <= j < s.len() ==> (#[trigger] s[j]).0 != k,
    ensures
        cache_lookup(s.push((k, t, e)), k) == Some((t, e)),
    decreases s.len(),
{
    if s.len() == 0 {
        assert(s.push((k, t, e))[0] == (k, t, e));
    } else {
        assert(s.push((k, t, e))[0] == s[0]);
        assert(s.push((k, t, e)).drop_first() =~= s.drop_first().push((k, t, e)));
        assert forall|j: int| 0 <= j < s.drop_first().len() implies (#[trigger] s.drop_first()[
            j
        ]).0 != k by {
            assert(s.drop_first()[j] == s[j + 1]);
        }
        lemma_cache_lookup_push(s.drop_first(), k, t, e);
    }
}

/// Removal takes out exactly the entries for `k`.
pub proof fn lemma_cache_remove_no_key(s: CacheModel, k: Seq<char>)
    ensures
        forall|j: int| 0 <= j < cache_remove(s, k).len() ==> (#[trigger] cache_remove(s, k)[
            j
        ]).0 != k,
    decreases s.len(),
{
    if s.len() > 0 {
        lemma_cache_remove_no_key(s.drop_first(), k);
        if s[0].0 != k {
            assert forall|j: int| 0 <= j < cache_remove(s, k).len() implies (
            #[trigger] cache_remove(s, k)[j]).0 != k by {
                if j > 0 {
                    assert(cache_remove(s, k)[j] == cache_remove(s.drop_first(), k)[j - 1]);
                }
            }
        }
    }
}

/// When the first occurrence of `k` sits at index `i` and nowhere else,
/// removal is exactly dropping that index.
pub proof fn lemma_cache_remove_at(s: CacheModel, k: Seq<char>, i: int)
    requires
        0 <= i < s.len(),
        s[i].0 == k,
        forall|j: int| 0 <= j < s.len() && j != i ==> (#[trigger] s[j]).0 != k,
    ensures
        cache_remove(s, k) == s.subrange(0, i) + s.subrange(i + 1, s.len() as int),
    decreases s.len(),
{
    if i == 0 {
        assert forall|j: int| 0 <= j < s.drop_first().len() implies (#[trigger] s.drop_first()[
            j
        ]).0 != k by {
            assert(s.drop_first()[j] == s[j + 1]);
        }
        lemma_cache_remove_absent(s.drop_first(), k);
        assert(cache_remove(s, k) =~= s.subrange(0, 0) + s.subrange(1, s.len() as int));
    } else {
        assert(s.drop_first()[i - 1] == s[i]);
        assert forall|j: int| 0 <= j < s.drop_first().len() && j != i - 1 implies (
        #[trigger] s.drop_first()[j]).0 != k by {
            assert(s.drop_first()[j] == s[j + 1]);
        }
        lemma_cache_remove_at(s.drop_first(), k, i - 1);
        assert(cache_remove(s, k) =~= s.subrange(0, i) + s.subrange(i + 1, s.len() as int));
    }
}

/// Removing an absent key changes nothing.
pub proof fn lemma_cache_remove_absent(s: CacheModel, k: Seq<char>)
    requires
        forall|j: int| 0 <= j < s.len() ==> (#[trigger] s[j]).0 != k,
    ensures
        cache_remove(s, k) == s,
    decreases s.len(),
{
    if s.len() > 0 {
        assert forall|j: int| 0 <= j < s.drop_first().len() implies (#[trigger] s.drop_first()[
            j
        ]).0 != k by {
            assert(s.drop_first()[j] == s[j + 1]);
        }
        lemma_cache_remove_absent(s.drop_first(), k);
        assert(cache_remove(s, k) =~= s);
    }
}

/// The in-memory cache of verified credentials, keyed by principal.
pub struct AuthCache {
    entries: Vec<CacheEntry>,
}

impl View for AuthCache {
    type V = CacheModel;

    closed spec fn view(&self) -> CacheModel {
        self.entries@.map_values(|e: CacheEntry| (e.key@, e.info.token@, e.info.expires_at))
    }
}

impl AuthCache {
    /// Each principal has at most one entry.
    pub open spec fn wf(&self) -> bool {
        forall|i: int, j: int|
            0 <= i < j < self@.len() ==> (#[trigger] self@[i]).0 != (#[trigger] self@[j]).0
    }

    /// An empty cache: no principal has an entry.
    pub fn new() -> (r: AuthCache)
        ensures
            r.wf(),
            r@ == Seq::<(Seq<char>, Seq<char>, u64)>::empty(),
    {
        let r = AuthCache { entries: Vec::new() };
        proof {
            assert(r@ =~= Seq::<(Seq<char>, Seq<char>, u64)>::empty());
        }
        r
    }

    /// Index of the entry for `key`, if one exists.
    fn find(&self, key: &String) -> (r: Option<usize>)
        requires
            self.wf(),
        ensures
            match r {
                Some(i) => i < self@.len() && self@[i as int].0 == key@,
                None => forall|j: int| 0 <= j < self@.len() ==> (#[trigger] self@[j]).0 != key@,
            },
    {
        let mut i: usize = 0;
        while i < self.entries.len()
            invariant
                i <= self@.len(),
                self@.len() == self.entries@.len(),
                forall|j: int| 0 <= j < i ==> (#[trigger] self@[j]).0 != key@,
            decreases self@.len() - i,
        {
            if self.entries[i].key == *key {
                return Some(i);
            }
            i = i + 1;
        }
        None
    }

    /// Inserts or overwrites the entry for `key`, expiring at `now + ttl`.
    pub fn set(&mut self, key: String, token: String, ttl: u64, now: u64)
        requires
            old(self).wf(),
            now + ttl <= u64::MAX,
        ensures
            final(self).wf(),
            final(self)@ == cache_set(old(self)@, key@, token@, (now + ttl) as u64),
    {
        let expires_at = now + ttl;
        let ghost s0 = self@;
        match self.find(&key) {
            Some(i) => {
                proof {
                    lemma_cache_remove_at(s0, key@, i as int);
                }
                self.entries.remove(i);
                proof {
                    assert(self@ =~= s0.subrange(0, i as int) + s0.subrange(
                        i as int + 1,
                        s0.len() as int,
                    ));
                    assert forall|p: int, q: int| 0 <= p < q < self@.len() implies (
                    #[trigger] self@[p]).0 != (#[trigger] self@[q]).0 by {
                        let a = if p < i { p } else { p + 1 };
                        let b = if q < i { q } else { q + 1 };
                        assert(self@[p] == s0[a] && self@[q] == s0[b]);
                    }
                }
            },
            None => {
                proof {
                    lemma_cache_remove_absent(s0, key@);
                }
            },
        }
        let ghost s1 = self@;
        proof {
            lemma_cache_remove_no_key(s0, key@);
        }
        self.entries.push(CacheEntry { key, info: AuthInfo { token, expires_at } });
        proof {
            assert(self@ =~= s1.push((key@, token@, expires_at)));
            assert(self@ == cache_set(s0, key@, token@, expires_at));
            assert forall|p: int, q: int| 0 <= p < q < self@.len() implies (#[trigger] self@[
                p
            ]).0 != (#[trigger] self@[q]).0 by {
                if q < self@.len() - 1 {
                    assert(self@[p] == s1[p] && self@[q] == s1[q]);
                } else {
                    assert(self@[p] == s1[p] && self@[q].0 == key@);
                }
            }
        }
    }

    /// Explicit revocation: drops any entry for `key`, so that a changed
    /// stored password is not served from the cache for the rest of its
    /// TTL.
    pub fn invalidate(&mut self, key: &String)
        requires
            old(self).wf(),
        ensures
            final(self).wf(),
            final(self)@ == cache_remove(old(self)@, key@),
    {
        let ghost s0 = self@;
        match self.find(key) {
            Some(i) => {
                proof {
                    lemma_cache_remove_at(s0, key@, i as int);
                }
                self.entries.remove(i);
                proof {
                    assert(self@ =~= s0.subrange(0, i as int) + s0.subrange(
                        i as int + 1,
                        s0.len() as int,
                    ));
                    assert forall|p: int, q: int| 0 <= p < q < self@.len() implies (
                    #[trigger] self@[p]).0 != (#[trigger] self@[q]).0 by {
                        let a = if p < i { p } else { p + 1 };
                        let b = if q < i { q } else { q + 1 };
                        assert(self@[p] == s0[a] && self@[q] == s0[b]);
                    }
                }
            },
            None => {
                proof {
                    lemma_cache_remove_absent(s0, key@);
                }
            },
        }
    }

    /// Returns the cached secret iff the entry for `key` has not expired at
    /// `now`; a found-but-expired entry is removed as a side effect.
    pub fn get(&mut self, key: &String, now: u64) -> (r: Option<String>)
        requires
            old(self).wf(),
        ensures
            final(self).wf(),
            final(self)@ == cache_get_state(old(self)@, key@, now),
            match r {
                Some(t) => cache_get_value(old(self)@, key@, now) == Some(t@),
                None => cache_get_value(old(self)@, key@, now) is None,
            },
    {
        let ghost s0 = self@;
        match self.find(key) {
            Some(i) => {
                proof {
                    assert forall|j: int| 0 <= j < s0.len() && j != i implies (#[trigger] s0[
                        j
                    ]).0 != key@ by {}
                    lemma_cache_first_is_lookup(s0, key@, i as int);
                }
                if now < self.entries[i].info.expires_at {
                    let token = self.entries[i].info.token.clone();
                    Some(token)
                } else {
                    proof {
                        lemma_cache_remove_at(s0, key@, i as int);
                    }
                    self.entries.remove(i);
                    proof {
                        assert(self@ =~= s0.subrange(0, i as int) + s0.subrange(
                            i as int + 1,
                            s0.len() as int,
                        ));
                        assert(self@ == cache_remove(s0, key@));
                    }
                    None
                }
            },
            None => {
                proof {
                    lemma_cache_lookup_absent(s0, key@);
                }
                None
            },
        }
    }
}

/// With at most one entry per key, the found index is the lookup result.
proof fn lemma_cache_first_is_lookup(s: CacheModel, k: Seq<char>, i: int)
    requires
        0 <= i < s.len(),
        s[i].0 == k,
        forall|j: int| 0 <= j < s.len() && j != i ==> (#[trigger] s[j]).0 != k,
    ensures
        cache_lookup(s, k) == Some((s[i].1, s[i].2)),
    decreases i,
{
    if i == 0 {
    } else {
        assert(s.drop_first()[i - 1] == s[i]);
        assert forall|j: int| 0 <= j < s.drop_first().len() && j != i - 1 implies (
        #[trigger] s.drop_first()[j]).0 != k by {
            assert(s.drop_first()[j] == s[j + 1]);
        }
        lemma_cache_first_is_lookup(s.drop_first(), k, i - 1);
    }
}

/// The cache round trip: immediately after `put`, `get` returns the stored
/// secret and keeps the entry; once the TTL has elapsed, `get` returns
/// nothing and purges the entry, after which every later `get` still
/// returns nothing.
pub proof fn lemma_cache_round_trip(
    s: CacheModel,
    k: Seq<char>,
    t: Seq<char>,
    ttl: u64,
    now: u64,
    later: u64,
    after: u64,
)
    requires
        1 <= ttl,
        now + ttl <= u64::MAX,
    ensures
        cache_get_value(cache_set(s, k, t, (now + ttl) as u64), k, now) == Some(t),
        cache_get_state(cache_set(s, k, t, (now + ttl) as u64), k, now) == cache_set(
            s,
            k,
            t,
            (now + ttl) as u64,
        ),
        later >= now + ttl ==> cache_get_value(cache_set(s, k, t, (now + ttl) as u64), k, later)
            is None,
        later >= now + ttl ==> cache_get_value(
            cache_get_state(cache_set(s, k, t, (now + ttl) as u64), k, later),
            k,
            after,
        ) is None,
{
    let e = (now + ttl) as u64;
    let s1 = cache_set(s, k, t, e);
    lemma_cache_remove_no_key(s, k);
    lemma_cache_lookup_push(cache_remove(s, k), k, t, e);
    if later >= now + ttl {
        lemma_cache_remove_no_key(s1, k);
        lemma_cache_lookup_absent(cache_remove(s1, k), k);
    }
}

} // verus!
