//! Image stores: a bounded least-recently-used cache over `lru::LruCache`
//! with a pluggable fetcher, and a store that neither caches nor fetches.

use vstd::prelude::*;
use std::num::NonZeroUsize;
use std::sync::Arc;
use lru::LruCache;
use crate::codec::{decode_outcome, state_from_response};
use crate::node::{ImageState, ImageStore};

verus! {

/// `lru::LruCache`, held opaque; its contents are read through `lru_entries`.
#[verifier::external_type_specification]
#[verifier::external_body]
#[verifier::reject_recursive_types(K)]
#[verifier::reject_recursive_types(V)]
#[verifier::reject_recursive_types(S)]
pub struct ExLruCache<K, V, S>(LruCache<K, V, S>);

/// The hasher `lru::LruCache` uses by default, held opaque.
#[verifier::external_type_specification]
#[verifier::external_body]
pub struct ExDefaultHasher(lru::DefaultHasher);

/// The entries of a cache, least recently used first.
pub uninterp spec fn lru_entries(c: LruCache<String, Arc<ImageState>>) -> Seq<(Seq<char>, Arc<ImageState>)>;

/// The number of entries a cache was made to hold.
pub uninterp spec fn lru_capacity(c: LruCache<String, Arc<ImageState>>) -> nat;

/// The position of `key` among the entries, if it is there.
pub open spec fn key_index(s: Seq<(Seq<char>, Arc<ImageState>)>, key: Seq<char>) -> Option<int> {
    if exists|i: int| 0 <= i < s.len() && #[trigger] s[i].0 == key {
        Some(choose|i: int| 0 <= i < s.len() && #[trigger] s[i].0 == key)
    } else {
        None
    }
}

/// The value held for `key`, if any.
pub open spec fn lookup(s: Seq<(Seq<char>, Arc<ImageState>)>, key: Seq<char>) -> Option<Arc<ImageState>> {
    match key_index(s, key) {
        Some(i) => Some(s[i].1),
        None => None,
    }
}

/// Keys are distinct and there are no more entries than the capacity,
/// which is positive.
pub open spec fn lru_wf(s: Seq<(Seq<char>, Arc<ImageState>)>, cap: nat) -> bool {
    &&& cap > 0
    &&& s.len() <= cap
    &&& forall|i: int, j: int| 0 <= i < j < s.len() ==> s[i].0 != s[j].0
}

/// The entries after `key` is stored with `value`: an existing entry for the
/// key is replaced, a full cache drops its least recently used entry, and the
/// new entry becomes the most recently used.
pub open spec fn lru_put(
    s: Seq<(Seq<char>, Arc<ImageState>)>,
    cap: nat,
    key: Seq<char>,
    value: Arc<ImageState>,
) -> Seq<(Seq<char>, Arc<ImageState>)> {
    match key_index(s, key) {
        Some(i) => s.remove(i).push((key, value)),
        None => if s.len() >= cap && s.len() > 0 {
            s.drop_first().push((key, value))
        } else {
            s.push((key, value))
        },
    }
}

/// The entries after a lookup of `key`: a hit becomes the most recently used.
pub open spec fn lru_touch(s: Seq<(Seq<char>, Arc<ImageState>)>, key: Seq<char>) -> Seq<(Seq<char>, Arc<ImageState>)> {
    match key_index(s, key) {
        Some(i) => s.remove(i).push(s[i]),
        None => s,
    }
}

/// Storing a new key in a full cache keeps the number of entries at the
/// capacity and evicts exactly the least recently used entry: every other
/// entry stays, in the same order, and the new one becomes the most recent.
pub proof fn lemma_cache_bound(
    s: Seq<(Seq<char>, Arc<ImageState>)>,
    cap: nat,
    key: Seq<char>,
    value: Arc<ImageState>,
)
    requires
        lru_wf(s, cap),
        s.len() == cap,
        forall|i: int| 0 <= i < s.len() ==> #[trigger] s[i].0 != key,
    ensures
        lru_put(s, cap, key, value).len() == cap,
        lru_put(s, cap, key, value) == s.drop_first().push((key, value)),
        forall|i: int| 0 <= i < cap ==> #[trigger] lru_put(s, cap, key, value)[i].0 != s[0].0,
{
    let r = lru_put(s, cap, key, value);
    assert(key_index(s, key) is None);
    assert forall|i: int| 0 <= i < cap implies #[trigger] r[i].0 != s[0].0 by {
        if i < cap - 1 {
            assert(r[i] == s[i + 1]);
        }
    }
}

/// The entries after storing each of `ks`, in order, into an empty cache of
/// capacity `cap`.
pub open spec fn put_all(cap: nat, ks: Seq<(Seq<char>, Arc<ImageState>)>) -> Seq<(Seq<char>, Arc<ImageState>)>
    decreases ks.len(),
{
    if ks.len() == 0 {
        Seq::empty()
    } else {
        let last = ks.last();
        lru_put(put_all(cap, ks.drop_last()), cap, last.0, last.1)
    }
}

/// Keys are pairwise distinct.
pub open spec fn distinct_keys(ks: Seq<(Seq<char>, Arc<ImageState>)>) -> bool {
    forall|i: int, j: int| 0 <= i < j < ks.len() ==> ks[i].0 != ks[j].0
}

/// Up to the capacity, storing distinct keys into an empty cache keeps them
/// all, in order.
pub proof fn lemma_put_all_fits(cap: nat, ks: Seq<(Seq<char>, Arc<ImageState>)>)
    requires
        distinct_keys(ks),
        ks.len() <= cap,
    ensures
        put_all(cap, ks) == ks,
    decreases ks.len(),
{
    if ks.len() > 0 {
        let d = ks.drop_last();
        lemma_put_all_fits(cap, d);
        assert(forall|i: int| 0 <= i < d.len() ==> #[trigger] d[i].0 != ks.last().0) by {
            assert forall|i: int| 0 <= i < d.len() implies #[trigger] d[i].0 != ks.last().0 by {
                assert(ks[i].0 != ks[ks.len() - 1].0);
            }
        }
        assert(key_index(d, ks.last().0) is None);
        assert(d.push(ks.last()) =~= ks);
    }
}

/// Storing `cap + 1` distinct keys, one after another, into an empty cache of
/// capacity `cap` leaves exactly `cap` entries: the first key is evicted and
/// every other one stays, in order.
pub proof fn lemma_cache_bound_from_empty(cap: nat, ks: Seq<(Seq<char>, Arc<ImageState>)>)
    requires
        cap > 0,
        distinct_keys(ks),
        ks.len() == cap + 1,
    ensures
        put_all(cap, ks) == ks.subrange(1, cap + 1 as int),
        put_all(cap, ks).len() == cap,
        forall|i: int| 0 <= i < cap ==> #[trigger] put_all(cap, ks)[i].0 != ks[0].0,
{
    let d = ks.drop_last();
    lemma_put_all_fits(cap, d);
    assert(forall|i: int| 0 <= i < d.len() ==> #[trigger] d[i].0 != ks.last().0) by {
        assert forall|i: int| 0 <= i < d.len() implies #[trigger] d[i].0 != ks.last().0 by {
            assert(ks[i].0 != ks[ks.len() - 1].0);
        }
    }
    assert(key_index(d, ks.last().0) is None);
    assert(d.drop_first().push(ks.last()) =~= ks.subrange(1, cap + 1 as int));
    assert forall|i: int| 0 <= i < cap implies #[trigger] put_all(cap, ks)[i].0 != ks[0].0 by {
        assert(put_all(cap, ks)[i] == ks[i + 1]);
    }
}

/// A lookup only reorders the entries.
pub proof fn lemma_touch_keeps_entries(s: Seq<(Seq<char>, Arc<ImageState>)>, key: Seq<char>)
    ensures
        forall|e: (Seq<char>, Arc<ImageState>)| #[trigger] lru_touch(s, key).contains(e) ==> s.contains(e),
{
    let t = lru_touch(s, key);
    assert forall|e: (Seq<char>, Arc<ImageState>)| #[trigger] t.contains(e) implies s.contains(e) by {
        let k = choose|k: int| 0 <= k < t.len() && t[k] == e;
        match key_index(s, key) {
            Some(i) => {
                if k == t.len() - 1 {
                    assert(s[i] == e);
                } else if k < i {
                    assert(s[k] == e);
                } else {
                    assert(s[k + 1] == e);
                }
            },
            None => {
                assert(s[k] == e);
            },
        }
    }
}

/// Storing an entry adds that entry and otherwise only drops or reorders.
pub proof fn lemma_put_keeps_entries(
    s: Seq<(Seq<char>, Arc<ImageState>)>,
    cap: nat,
    key: Seq<char>,
    value: Arc<ImageState>,
)
    ensures
        forall|e: (Seq<char>, Arc<ImageState>)| #[trigger] lru_put(s, cap, key, value).contains(e) ==> s.contains(e)
            || e == (key, value),
{
    let t = lru_put(s, cap, key, value);
    assert forall|e: (Seq<char>, Arc<ImageState>)| #[trigger] t.contains(e) implies s.contains(e) || e == (key, value) by {
        let k = choose|k: int| 0 <= k < t.len() && t[k] == e;
        if k < t.len() - 1 {
            match key_index(s, key) {
                Some(i) => {
                    if k < i {
                        assert(s[k] == e);
                    } else {
                        assert(s[k + 1] == e);
                    }
                },
                None => {
                    if s.len() >= cap && s.len() > 0 {
                        assert(s[k + 1] == e);
                    } else {
                        assert(s[k] == e);
                    }
                },
            }
        }
    }
}

/// Relies on `LruCache::new`: an empty cache that holds at most `cap` entries.
#[verifier::external_body]
fn lru_new(cap: usize) -> (r: LruCache<String, Arc<ImageState>>)
    requires
        cap > 0,
    ensures
        lru_entries(r) == Seq::<(Seq<char>, Arc<ImageState>)>::empty(),
        lru_capacity(r) == cap,
{
    LruCache::new(NonZeroUsize::new(cap).unwrap())
}

/// Relies on `LruCache::put`: replaces the key's entry or, when the cache is
/// full, the least recently used one, and moves the key to the front.
#[verifier::external_body]
fn lru_put_exec(c: &mut LruCache<String, Arc<ImageState>>, key: String, value: Arc<ImageState>)
    ensures
        lru_entries(*final(c)) == lru_put(lru_entries(*old(c)), lru_capacity(*old(c)), key@, value),
        lru_capacity(*final(c)) == lru_capacity(*old(c)),
        lru_wf(lru_entries(*final(c)), lru_capacity(*final(c))),
{
    c.put(key, value);
}

/// Relies on `LruCache::get`: the key's value, if present, which becomes the
/// most recently used entry.
#[verifier::external_body]
fn lru_get(c: &mut LruCache<String, Arc<ImageState>>, key: &str) -> (r: Option<Arc<ImageState>>)
    ensures
        lru_entries(*final(c)) == lru_touch(lru_entries(*old(c)), key@),
        lru_capacity(*final(c)) == lru_capacity(*old(c)),
        lru_wf(lru_entries(*final(c)), lru_capacity(*final(c))),
        r == match key_index(lru_entries(*old(c)), key@) {
            Some(i) => Some(lru_entries(*old(c))[i].1),
            None => None::<Arc<ImageState>>,
        },
{
    c.get(key).cloned()
}

/// Relies on `LruCache::len`: the number of entries.
#[verifier::external_body]
fn lru_len(c: &LruCache<String, Arc<ImageState>>) -> (r: usize)
    ensures
        r == lru_entries(*c).len(),
{
    c.len()
}

/// Relies on `LruCache::clear`: removes every entry and keeps the capacity.
#[verifier::external_body]
fn lru_clear(c: &mut LruCache<String, Arc<ImageState>>)
    ensures
        lru_entries(*final(c)) == Seq::<(Seq<char>, Arc<ImageState>)>::empty(),
        lru_capacity(*final(c)) == lru_capacity(*old(c)),
{
    c.clear();
}

/// Fetches the bytes of a resource; `None` when they cannot be had.
pub trait ResourceFetcher {
    fn fetch_bytes(&self, key: &str) -> Option<Vec<u8>>;
}

/// A fetcher that never reaches the network: every request fails.
pub struct NoNetworkFetcher;

impl ResourceFetcher for NoNetworkFetcher {
    fn fetch_bytes(&self, key: &str) -> Option<Vec<u8>> {
        None
    }
}

/// A store that keeps at most a fixed number of images, evicting the least
/// recently used, and fetches what it does not hold through `fetcher`.
pub struct DefaultImageStore<F> {
    pub store: LruCache<String, Arc<ImageState>>,
    pub fetcher: F,
}

impl<F: ResourceFetcher> DefaultImageStore<F> {
    /// The cached entries, least recently used first.
    pub open spec fn entries(&self) -> Seq<(Seq<char>, Arc<ImageState>)> {
        lru_entries(self.store)
    }

    /// The capacity the store was made with.
    pub open spec fn capacity(&self) -> nat {
        lru_capacity(self.store)
    }

    /// The store's entries satisfy the cache invariant.
    pub open spec fn wf(&self) -> bool {
        lru_wf(self.entries(), self.capacity())
    }

    /// An empty store holding at most `max_size` entries.
    pub fn new(fetcher: F, max_size: usize) -> (r: Self)
        requires
            max_size > 0,
        ensures
            r.wf(),
            r.entries() == Seq::<(Seq<char>, Arc<ImageState>)>::empty(),
            r.capacity() == max_size,
    {
        DefaultImageStore { store: lru_new(max_size), fetcher }
    }

    /// Looks `key` up; a hit becomes the most recently used entry.
    pub fn get_cached(&mut self, key: &str) -> (r: Option<Arc<ImageState>>)
        ensures
            final(self).entries() == lru_touch(old(self).entries(), key@),
            final(self).capacity() == old(self).capacity(),
            final(self).wf(),
            r == match key_index(old(self).entries(), key@) {
                Some(i) => Some(old(self).entries()[i].1),
                None => None::<Arc<ImageState>>,
            },
    {
        lru_get(&mut self.store, key)
    }

    /// Stores `value` under `key`, evicting the least recently used entry
    /// when the store is full.
    pub fn put(&mut self, key: String, value: Arc<ImageState>)
        ensures
            final(self).entries() == lru_put(old(self).entries(), old(self).capacity(), key@, value),
            final(self).capacity() == old(self).capacity(),
            final(self).wf(),
    {
        lru_put_exec(&mut self.store, key, value);
    }

    /// The number of cached entries.
    pub fn len(&self) -> (r: usize)
        ensures
            r == self.entries().len(),
    {
        lru_len(&self.store)
    }

    /// Removes every cached entry; the capacity stays.
    pub fn clear(&mut self)
        ensures
            final(self).entries() == Seq::<(Seq<char>, Arc<ImageState>)>::empty(),
            final(self).capacity() == old(self).capacity(),
    {
        lru_clear(&mut self.store);
    }
}

impl<F: ResourceFetcher> ImageStore for DefaultImageStore<F> {
    open spec fn store_entries(&self) -> Seq<(Seq<char>, Arc<ImageState>)> {
        self.entries()
    }

    open spec fn store_inserted(
        &self,
        s: Seq<(Seq<char>, Arc<ImageState>)>,
        key: Seq<char>,
        value: Arc<ImageState>,
    ) -> Seq<(Seq<char>, Arc<ImageState>)> {
        lru_put(s, self.capacity(), key, value)
    }

    open spec fn store_wf(&self) -> bool {
        self.wf()
    }

    /// A network error when the fetcher gets no bytes, else what decoding
    /// the bytes gives.
    open spec fn fetch_gives(key: Seq<char>, state: ImageState) -> bool {
        state is NetworkError || exists|b: Seq<u8>| decode_outcome(state, b)
    }

    fn get(&mut self, key: &str) -> (r: Option<Arc<ImageState>>) {
        proof {
            lemma_touch_keeps_entries(self.entries(), key@);
        }
        self.get_cached(key)
    }

    fn insert(&mut self, key: String, value: Arc<ImageState>) {
        proof {
            lemma_put_keeps_entries(self.entries(), self.capacity(), key@, value);
        }
        self.put(key, value);
    }

    fn fetch_async(&self, key: &str) -> (r: Arc<ImageState>) {
        let response = self.fetcher.fetch_bytes(key);
        let state = state_from_response(response);
        proof {
            if response is Some {
                assert(decode_outcome(state, response->0@));
            }
        }
        Arc::new(state)
    }
}

/// A store that caches nothing and fetches nothing: every request is
/// answered with a network error.
pub struct NoopImageStore;

impl ImageStore for NoopImageStore {
    open spec fn store_entries(&self) -> Seq<(Seq<char>, Arc<ImageState>)> {
        Seq::empty()
    }

    open spec fn store_inserted(
        &self,
        s: Seq<(Seq<char>, Arc<ImageState>)>,
        key: Seq<char>,
        value: Arc<ImageState>,
    ) -> Seq<(Seq<char>, Arc<ImageState>)> {
        Seq::empty()
    }

    open spec fn store_wf(&self) -> bool {
        true
    }

    /// Always a network error.
    open spec fn fetch_gives(key: Seq<char>, state: ImageState) -> bool {
        state is NetworkError
    }

    fn get(&mut self, key: &str) -> (r: Option<Arc<ImageState>>) {
        None
    }

    fn insert(&mut self, key: String, value: Arc<ImageState>) {
    }

    fn fetch_async(&self, key: &str) -> (r: Arc<ImageState>) {
        Arc::new(ImageState::NetworkError("fetching images is not supported".to_string()))
    }
}

} // verus!
