//! The in-memory compilation cache: content-addressed entries with hit,
//! miss, store and invalidation counts.
//!
//! A key is the SHA-256 based hash of the source text together with a
//! fingerprint of the configuration: the stage seed, the file name and the
//! compiler kind (products of different compilers never share an entry).
use sha2::{Digest, Sha256};
use vstd::prelude::*;

use crate::driver::CompilerKind;
use crate::reserved::CacheKey;
use crate::text::push_str;

verus! {

/// The stage seed of the configuration fingerprint (a compiler upgrade
/// changes it, and every old entry misses).
pub const COMPILE_CONFIG_SEED: &'static str = "kerf-stage1-batchC-r7";

/// The SHA-256 digest of some bytes.
pub uninterp spec fn sha256_digest(bytes: Seq<u8>) -> Seq<u8>;

/// `sha2::Sha256::digest`: the 32-byte SHA-256 digest of `bytes`, named
/// `sha256_digest(bytes)` (the algorithm is not restated here).
#[verifier::external_body]
fn sha256(bytes: &[u8]) -> (d: Vec<u8>)
    ensures
        d@ == sha256_digest(bytes@),
        d@.len() == 32,
{
    Sha256::digest(bytes).to_vec()
}

/// The number whose big-endian bytes are the first `n` of `d`.
pub open spec fn be_value(d: Seq<u8>, n: nat) -> nat
    decreases n,
{
    if n == 0 {
        0
    } else {
        be_value(d, (n - 1) as nat) * 256 + d[n - 1] as nat
    }
}

/// `256` to the power `n`.
pub open spec fn pow256(n: nat) -> nat
    decreases n,
{
    if n == 0 {
        1
    } else {
        pow256((n - 1) as nat) * 256
    }
}

proof fn lemma_be_value_bound(d: Seq<u8>, n: nat)
    ensures
        be_value(d, n) < pow256(n),
    decreases n,
{
    if n > 0 {
        lemma_be_value_bound(d, (n - 1) as nat);
        let p = pow256((n - 1) as nat);
        let v = be_value(d, (n - 1) as nat);
        assert(v * 256 + 255 < p * 256) by (nonlinear_arith)
            requires
                v < p,
        ;
    }
}

proof fn lemma_pow256_grows(a: nat, b: nat)
    requires
        a <= b,
    ensures
        pow256(a) <= pow256(b),
    decreases b - a,
{
    if a < b {
        lemma_pow256_grows(a, (b - 1) as nat);
    }
}

/// The 64-bit content hash: the first eight bytes of the SHA-256 digest,
/// read big-endian.
pub open spec fn content_hash(bytes: Seq<u8>) -> u64 {
    be_value(sha256_digest(bytes), 8) as u64
}

/// The 64-bit content hash of `bytes`.
pub fn content_hash64(bytes: &[u8]) -> (h: u64)
    ensures
        h == content_hash(bytes@),
        h as nat == be_value(sha256_digest(bytes@), 8),
{
    let d = sha256(bytes);
    let mut h: u64 = 0;
    let mut i: usize = 0;
    while i < 8
        invariant
            i <= 8,
            d@.len() == 32,
            h as nat == be_value(d@, i as nat),
        decreases 8 - i,
    {
        proof {
            lemma_be_value_bound(d@, (i + 1) as nat);
            lemma_pow256_grows((i + 1) as nat, 8);
            reveal_with_fuel(pow256, 9);
            assert(pow256(8) == 0x1_0000_0000_0000_0000);
        }
        h = h * 256 + d[i] as u64;
        i = i + 1;
    }
    h
}

/// The tag of a compiler kind in the fingerprint.
pub open spec fn kind_tag(kind: CompilerKind) -> Seq<char> {
    match kind {
        CompilerKind::Bootstrap => "bootstrap"@,
        CompilerKind::Seed => "seed"@,
    }
}

/// The configuration text of a compilation: `seed|file name|kind`.
pub open spec fn config_text(filename: Seq<char>, kind: CompilerKind) -> Seq<char> {
    COMPILE_CONFIG_SEED@ + "|"@ + filename + "|"@ + kind_tag(kind)
}

/// The key of compiling `source` from file `filename` with `kind`.
pub open spec fn spec_cache_key(source: Seq<char>, filename: Seq<char>, kind: CompilerKind) -> CacheKey {
    CacheKey {
        source_hash: content_hash(vstd::utf8::encode_utf8(source)),
        config_fingerprint: content_hash(vstd::utf8::encode_utf8(config_text(filename, kind))),
    }
}

/// The content-addressed key of a compilation.
pub fn cache_key(source: &str, filename: &str, kind: CompilerKind) -> (k: CacheKey)
    ensures
        k == spec_cache_key(source@, filename@, kind),
{
    let mut config = String::new();
    push_str(&mut config, COMPILE_CONFIG_SEED);
    push_str(&mut config, "|");
    push_str(&mut config, filename);
    push_str(&mut config, "|");
    match kind {
        CompilerKind::Bootstrap => push_str(&mut config, "bootstrap"),
        CompilerKind::Seed => push_str(&mut config, "seed"),
    }
    CacheKey {
        source_hash: content_hash64(source.as_bytes()),
        config_fingerprint: content_hash64(config.as_str().as_bytes()),
    }
}

/// Counts of cache traffic (each counter wraps around at `usize::MAX`).
#[derive(Debug, Clone, Copy, PartialEq, Eq, Structural)]
pub struct CacheStats {
    /// Lookups that found a usable entry.
    pub hits: usize,
    /// Lookups that did not.
    pub misses: usize,
    /// Writes.
    pub stores: usize,
    /// Entries dropped by invalidation.
    pub invalidations: usize,
}

impl Default for CacheStats {
    fn default() -> (s: CacheStats)
        ensures
            s == (CacheStats { hits: 0, misses: 0, stores: 0, invalidations: 0 }),
    {
        CacheStats { hits: 0, misses: 0, stores: 0, invalidations: 0 }
    }
}

/// What an entry holds: a full front-end output (usable by the pipeline),
/// or products only (served to `get_cached` alone).
#[derive(Debug)]
pub enum CacheEntry<F, A> {
    Front(F),
    Artifacts(A),
}

/// The entry of key `k` among `s`, if any.
pub open spec fn entry_in<F, A>(s: Seq<(CacheKey, CacheEntry<F, A>)>, k: CacheKey) -> Option<
    CacheEntry<F, A>,
> {
    if exists|i: int| 0 <= i < s.len() && (#[trigger] s[i]).0 == k {
        Some(s[choose|i: int| 0 <= i < s.len() && (#[trigger] s[i]).0 == k].1)
    } else {
        None
    }
}

/// No two entries of `s` share a key.
pub open spec fn keys_distinct<F, A>(s: Seq<(CacheKey, CacheEntry<F, A>)>) -> bool {
    forall|i: int, j: int| 0 <= i < s.len() && 0 <= j < s.len() && i != j ==> s[i].0 != s[j].0
}

/// An in-memory, content-addressed compilation cache.
pub struct InMemoryCompilationCache<F, A> {
    entries: Vec<(CacheKey, CacheEntry<F, A>)>,
    enabled: bool,
    stats: CacheStats,
}

impl<F, A> InMemoryCompilationCache<F, A> {
    /// The entry of key `k`.
    pub closed spec fn entry(&self, k: CacheKey) -> Option<CacheEntry<F, A>> {
        entry_in(self.entries@, k)
    }

    /// The number of entries.
    pub closed spec fn size(&self) -> nat {
        self.entries@.len()
    }

    /// Whether the pipeline uses the cache.
    pub closed spec fn is_enabled(&self) -> bool {
        self.enabled
    }

    /// The traffic counts.
    pub closed spec fn counts(&self) -> CacheStats {
        self.stats
    }

    /// No two entries share a key.
    pub closed spec fn wf(&self) -> bool {
        keys_distinct(self.entries@)
    }

    /// An empty, enabled cache with zero counts.
    pub fn new() -> (c: Self)
        ensures
            c.wf(),
            c.size() == 0,
            forall|k: CacheKey| #[trigger] c.entry(k) is None,
            c.is_enabled(),
            c.counts() == (CacheStats { hits: 0, misses: 0, stores: 0, invalidations: 0 }),
    {
        InMemoryCompilationCache {
            entries: Vec::new(),
            enabled: true,
            stats: CacheStats { hits: 0, misses: 0, stores: 0, invalidations: 0 },
        }
    }

    /// Whether the pipeline uses the cache.
    pub fn enabled(&self) -> (b: bool)
        ensures
            b == self.is_enabled(),
    {
        self.enabled
    }

    /// Turns the cache on or off for the pipeline.
    pub fn set_enabled(&mut self, enabled: bool)
        ensures
            final(self).is_enabled() == enabled,
            final(self).counts() == old(self).counts(),
            final(self).size() == old(self).size(),
            final(self).wf() == old(self).wf(),
            forall|k: CacheKey| #[trigger] final(self).entry(k) == old(self).entry(k),
    {
        self.enabled = enabled;
    }

    /// The traffic counts.
    pub fn stats(&self) -> (s: CacheStats)
        ensures
            s == self.counts(),
    {
        self.stats
    }

    /// The number of entries.
    pub fn entry_count(&self) -> (n: usize)
        ensures
            n == self.size(),
    {
        self.entries.len()
    }

    /// Where the entry of `key` stands.
    fn position(&self, key: &CacheKey) -> (r: Option<usize>)
        requires
            self.wf(),
        ensures
            r matches Some(i) ==> i < self.entries@.len() && self.entries@[i as int].0 == *key
                && self.entry(*key) == Some(self.entries@[i as int].1),
            r is None ==> self.entry(*key) is None,
    {
        let mut i: usize = 0;
        while i < self.entries.len()
            invariant
                i <= self.entries@.len(),
                keys_distinct(self.entries@),
                forall|j: int| 0 <= j < i ==> (#[trigger] self.entries@[j]).0 != *key,
            decreases self.entries@.len() - i,
        {
            if self.entries[i].0 == *key {
                proof {
                    let s = self.entries@;
                    let c = choose|j: int| 0 <= j < s.len() && (#[trigger] s[j]).0 == *key;
                    assert(c == i);
                }
                return Some(i);
            }
            i = i + 1;
        }
        None
    }

    /// The entry of `key`, whatever it holds.
    pub fn get_cached(&self, key: &CacheKey) -> (r: Option<&CacheEntry<F, A>>)
        requires
            self.wf(),
        ensures
            r matches Some(e) ==> self.entry(*key) == Some(*e),
            r is None ==> self.entry(*key) is None,
    {
        match self.position(key) {
            Some(i) => Some(&self.entries[i].1),
            None => None,
        }
    }

    /// Puts `e` under `key`, replacing any entry there.
    fn put(&mut self, key: CacheKey, e: CacheEntry<F, A>)
        requires
            old(self).wf(),
        ensures
            final(self).wf(),
            final(self).entry(key) == Some(e),
            forall|k: CacheKey| k != key ==> #[trigger] final(self).entry(k) == old(self).entry(k),
            final(self).size() == old(self).size() + (if old(self).entry(key) is None {
                1int
            } else {
                0int
            }),
            final(self).counts() == old(self).counts(),
            final(self).is_enabled() == old(self).is_enabled(),
    {
        let ghost old_s = self.entries@;
        match self.position(&key) {
            Some(i) => {
                self.entries.set(i, (key, e));
                proof {
                    let s = self.entries@;
                    assert forall|k: CacheKey| #[trigger] entry_in(s, k) == (if k == key {
                        Some(e)
                    } else {
                        entry_in(old_s, k)
                    }) by {
                        if exists|j: int| 0 <= j < s.len() && (#[trigger] s[j]).0 == k {
                            let c = choose|j: int| 0 <= j < s.len() && (#[trigger] s[j]).0 == k;
                            assert(old_s[c].0 == k || c == i);
                            if k != key {
                                assert(c != i);
                                assert(old_s[c] == s[c]);
                                let c0 = choose|j: int| 0 <= j < old_s.len() && (#[trigger] old_s[j]).0 == k;
                                assert(c0 == c);
                            } else {
                                assert(c == i);
                            }
                        } else {
                            if exists|j: int| 0 <= j < old_s.len() && (#[trigger] old_s[j]).0 == k {
                                let c0 = choose|j: int| 0 <= j < old_s.len() && (#[trigger] old_s[j]).0 == k;
                                if c0 != i {
                                    assert(s[c0] == old_s[c0]);
                                }
                                assert(s[i as int].0 == key);
                            }
                            assert(s[i as int].0 == key);
                        }
                    }
                }
            },
            None => {
                self.entries.push((key, e));
                proof {
                    let s = self.entries@;
                    let n = old_s.len() as int;
                    assert(s[n].0 == key);
                    assert forall|k: CacheKey| #[trigger] entry_in(s, k) == (if k == key {
                        Some(e)
                    } else {
                        entry_in(old_s, k)
                    }) by {
                        if exists|j: int| 0 <= j < s.len() && (#[trigger] s[j]).0 == k {
                            let c = choose|j: int| 0 <= j < s.len() && (#[trigger] s[j]).0 == k;
                            if c < n {
                                assert(old_s[c] == s[c]);
                                let c0 = choose|j: int| 0 <= j < old_s.len() && (#[trigger] old_s[j]).0 == k;
                                assert(s[c0] == old_s[c0]);
                            } else {
                                assert(c == n);
                            }
                        } else {
                            if exists|j: int| 0 <= j < old_s.len() && (#[trigger] old_s[j]).0 == k {
                                let c0 = choose|j: int| 0 <= j < old_s.len() && (#[trigger] old_s[j]).0 == k;
                                assert(s[c0] == old_s[c0]);
                            }
                        }
                    }
                }
            },
        }
    }

    /// Stores a full front-end output under `key` (an existing entry is
    /// replaced).
    pub fn store_front(&mut self, key: CacheKey, front: F)
        requires
            old(self).wf(),
        ensures
            final(self).wf(),
            final(self).entry(key) == Some(CacheEntry::<F, A>::Front(front)),
            forall|k: CacheKey| k != key ==> #[trigger] final(self).entry(k) == old(self).entry(k),
            final(self).counts() == (CacheStats {
                stores: old(self).counts().stores.wrapping_add(1),
                ..old(self).counts()
            }),
            final(self).is_enabled() == old(self).is_enabled(),
    {
        self.put(key, CacheEntry::Front(front));
        let ghost mid = *self;
        self.stats.stores = self.stats.stores.wrapping_add(1);
        proof {
            assert forall|k: CacheKey| k != key implies #[trigger] self.entry(k) == old(self).entry(k) by {
                assert(mid.entry(k) == old(self).entry(k));
                assert(self.entries@ == mid.entries@);
            }
        }
    }

    /// Stores products only under `key` (an existing entry is replaced).
    pub fn store(&mut self, key: CacheKey, artifacts: A)
        requires
            old(self).wf(),
        ensures
            final(self).wf(),
            final(self).entry(key) == Some(CacheEntry::<F, A>::Artifacts(artifacts)),
            forall|k: CacheKey| k != key ==> #[trigger] final(self).entry(k) == old(self).entry(k),
            final(self).size() == old(self).size() + (if old(self).entry(key) is None {
                1int
            } else {
                0int
            }),
            final(self).counts() == (CacheStats {
                stores: old(self).counts().stores.wrapping_add(1),
                ..old(self).counts()
            }),
            final(self).is_enabled() == old(self).is_enabled(),
    {
        self.put(key, CacheEntry::Artifacts(artifacts));
        let ghost mid = *self;
        self.stats.stores = self.stats.stores.wrapping_add(1);
        proof {
            assert forall|k: CacheKey| k != key implies #[trigger] self.entry(k) == old(self).entry(k) by {
                assert(mid.entry(k) == old(self).entry(k));
                assert(self.entries@ == mid.entries@);
            }
        }
    }

    /// The front-end output under `key`, for the pipeline: a hit only when
    /// the entry holds a full front-end output; the lookup counts a hit or
    /// a miss.
    pub fn lookup_front(&mut self, key: &CacheKey) -> (r: Option<&F>)
        requires
            old(self).wf(),
        ensures
            match old(self).entry(*key) {
                Some(CacheEntry::Front(f)) => r == Some(&f),
                _ => r is None,
            },
            final(self).wf(),
            forall|k: CacheKey| #[trigger] final(self).entry(k) == old(self).entry(k),
            final(self).is_enabled() == old(self).is_enabled(),
            final(self).counts() == (if old(self).entry(*key) matches Some(CacheEntry::Front(_)) {
                CacheStats { hits: old(self).counts().hits.wrapping_add(1), ..old(self).counts() }
            } else {
                CacheStats { misses: old(self).counts().misses.wrapping_add(1), ..old(self).counts() }
            }),
    {
        let found = match self.position(key) {
            Some(i) => match &self.entries[i].1 {
                CacheEntry::Front(_) => Some(i),
                CacheEntry::Artifacts(_) => None,
            },
            None => None,
        };
        match found {
            Some(i) => {
                self.stats.hits = self.stats.hits.wrapping_add(1);
                match &self.entries[i].1 {
                    CacheEntry::Front(f) => Some(f),
                    CacheEntry::Artifacts(_) => None,
                }
            },
            None => {
                self.stats.misses = self.stats.misses.wrapping_add(1);
                None
            },
        }
    }

    /// Drops the entry of `key`; dropping a missing entry changes nothing.
    pub fn invalidate(&mut self, key: &CacheKey)
        requires
            old(self).wf(),
        ensures
            final(self).wf(),
            final(self).entry(*key) is None,
            forall|k: CacheKey| k != *key ==> #[trigger] final(self).entry(k) == old(self).entry(k),
            final(self).size() == (if old(self).entry(*key) is Some {
                old(self).size() - 1
            } else {
                old(self).size() as int
            }),
            final(self).counts() == (if old(self).entry(*key) is Some {
                CacheStats {
                    invalidations: old(self).counts().invalidations.wrapping_add(1),
                    ..old(self).counts()
                }
            } else {
                old(self).counts()
            }),
            final(self).is_enabled() == old(self).is_enabled(),
    {
        match self.position(key) {
            Some(i) => {
                let ghost old_s = self.entries@;
                let _ = self.entries.remove(i);
                self.stats.invalidations = self.stats.invalidations.wrapping_add(1);
                proof {
                    let s = self.entries@;
                    assert(s =~= old_s.subrange(0, i as int) + old_s.subrange(i + 1, old_s.len() as int));
                    assert forall|a: int, b: int|
                        0 <= a < s.len() && 0 <= b < s.len() && a != b implies s[a].0 != s[b].0 by {
                        let a0 = if a < i { a } else { a + 1 };
                        let b0 = if b < i { b } else { b + 1 };
                        assert(s[a] == old_s[a0] && s[b] == old_s[b0]);
                    }
                    assert forall|k: CacheKey| #[trigger] entry_in(s, k) == (if k == *key {
                        None
                    } else {
                        entry_in(old_s, k)
                    }) by {
                        if exists|j: int| 0 <= j < s.len() && (#[trigger] s[j]).0 == k {
                            let c = choose|j: int| 0 <= j < s.len() && (#[trigger] s[j]).0 == k;
                            let c1 = if c < i { c } else { c + 1 };
                            assert(s[c] == old_s[c1]);
                            if k == *key {
                                assert(c1 != i);
                            } else {
                                let c0 = choose|j: int| 0 <= j < old_s.len() && (#[trigger] old_s[j]).0 == k;
                                assert(c0 == c1);
                            }
                        } else if k != *key {
                            if exists|j: int| 0 <= j < old_s.len() && (#[trigger] old_s[j]).0 == k {
                                let c0 = choose|j: int| 0 <= j < old_s.len() && (#[trigger] old_s[j]).0 == k;
                                assert(c0 != i);
                                let c = if c0 < i { c0 } else { c0 - 1 };
                                assert(s[c] == old_s[c0]);
                            }
                        }
                    }
                }
            },
            None => {},
        }
    }

    /// Drops every entry (a compiler upgrade); the counts are kept and
    /// the number of dropped entries is added to the invalidations.
    pub fn invalidate_all(&mut self)
        ensures
            final(self).wf(),
            final(self).size() == 0,
            forall|k: CacheKey| #[trigger] final(self).entry(k) is None,
            final(self).counts() == (CacheStats {
                invalidations: old(self).counts().invalidations.wrapping_add(
                    old(self).size() as usize,
                ),
                ..old(self).counts()
            }),
            final(self).is_enabled() == old(self).is_enabled(),
    {
        let n = self.entries.len();
        self.stats.invalidations = self.stats.invalidations.wrapping_add(n);
        self.entries.clear();
    }
}

impl<F, A> Default for InMemoryCompilationCache<F, A> {
    fn default() -> (c: Self)
        ensures
            c.wf(),
            c.size() == 0,
            forall|k: CacheKey| #[trigger] c.entry(k) is None,
            c.is_enabled(),
            c.counts() == (CacheStats { hits: 0, misses: 0, stores: 0, invalidations: 0 }),
    {
        InMemoryCompilationCache::new()
    }
}

} // verus!
