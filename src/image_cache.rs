//! A bounded cache of textures keyed by image path, evicting the least
//! recently used entry when full.
use vstd::prelude::*;
use crate::path_order::same_text;
use egui::TextureHandle;

verus! {

/// Declares egui::TextureHandle, a texture handed out by the renderer; the
/// cache only holds and returns it.
#[verifier::external_type_specification]
#[verifier::external_body]
pub struct ExTextureHandle(egui::TextureHandle);

/// A sequence with its element at `i` moved to the end.
pub open spec fn moved_to_end<A>(s: Seq<A>, i: int) -> Seq<A> {
    s.remove(i).push(s[i])
}

/// The recency order after a lookup of `k`: a resident `k` becomes the most
/// recently used; a miss changes nothing.
pub open spec fn keys_after_get(keys: Seq<Seq<char>>, k: Seq<char>) -> Seq<Seq<char>> {
    if keys.contains(k) {
        moved_to_end(keys, keys.index_of(k))
    } else {
        keys
    }
}

/// The textures, in recency order, after a lookup of `k`.
pub open spec fn values_after_get<V>(keys: Seq<Seq<char>>, values: Seq<V>, k: Seq<char>) -> Seq<V> {
    if keys.contains(k) {
        moved_to_end(values, keys.index_of(k))
    } else {
        values
    }
}

/// The recency order after storing under `k` in a cache of capacity `cap`.
pub open spec fn keys_after_insert(keys: Seq<Seq<char>>, cap: nat, k: Seq<char>) -> Seq<Seq<char>> {
    if keys.contains(k) {
        keys.remove(keys.index_of(k)).push(k)
    } else if cap == 0 {
        keys
    } else if keys.len() < cap {
        keys.push(k)
    } else {
        keys.drop_first().push(k)
    }
}

/// The textures, in recency order, after storing `v` under `k`.
pub open spec fn values_after_insert<V>(
    keys: Seq<Seq<char>>,
    values: Seq<V>,
    cap: nat,
    k: Seq<char>,
    v: V,
) -> Seq<V> {
    if keys.contains(k) {
        values.remove(keys.index_of(k)).push(v)
    } else if cap == 0 {
        values
    } else if keys.len() < cap {
        values.push(v)
    } else {
        values.drop_first().push(v)
    }
}

/// Textures keyed by path.
///
/// `access_order` lists the resident paths from least to most recently used,
/// and `textures[i]` is the texture of `access_order[i]`, so the keys of the
/// map and the keys of the recency order are one and the same set.
///
/// The map is kept as a vector aligned with the recency order rather than as
/// a `HashMap`: with path keys, nothing can be proved of a `HashMap`'s
/// contents, while the vectors carry the invariant (keys unique, aligned,
/// at most the capacity) in [`Self::wf`].
pub struct ImageCache {
    textures: Vec<TextureHandle>,
    max_cache_size: usize,
    access_order: Vec<String>,
}

impl ImageCache {
    /// The resident paths, least recently used first.
    pub closed spec fn keys(&self) -> Seq<Seq<char>> {
        self.access_order@.map_values(|p: String| p@)
    }

    /// The textures, in the order of [`Self::keys`].
    pub closed spec fn values(&self) -> Seq<TextureHandle> {
        self.textures@
    }

    /// The most entries that may be resident.
    pub closed spec fn capacity(&self) -> nat {
        self.max_cache_size as nat
    }

    /// The cache as a map from path to texture.
    pub open spec fn map(&self) -> Map<Seq<char>, TextureHandle> {
        Map::new(|k: Seq<char>| self.keys().contains(k), |k: Seq<char>| self.values()[self.keys().index_of(k)])
    }

    pub open spec fn wf(&self) -> bool {
        &&& self.keys().len() == self.values().len()
        &&& self.keys().no_duplicates()
        &&& self.keys().len() <= self.capacity()
    }

    proof fn lemma_keys_remove(&self, i: int)
        requires
            0 <= i < self.access_order@.len(),
        ensures
            self.access_order@.remove(i).map_values(|p: String| p@) == self.keys().remove(i),
    {
        assert(self.access_order@.remove(i).map_values(|p: String| p@) =~= self.keys().remove(i));
    }

    /// An empty cache holding at most `max_size` entries.
    pub fn new(max_size: usize) -> (r: Self)
        ensures
            r.wf(),
            r.keys() == Seq::<Seq<char>>::empty(),
            r.values() == Seq::<TextureHandle>::empty(),
            r.capacity() == max_size,
    {
        let r = ImageCache { textures: Vec::new(), max_cache_size: max_size, access_order: Vec::new() };
        assert(r.keys() =~= Seq::<Seq<char>>::empty());
        r
    }

    /// The index of `path` in the recency order, if it is resident.
    fn position(&self, path: &str) -> (r: Option<usize>)
        requires
            self.wf(),
        ensures
            r is Some <==> self.keys().contains(path@),
            r matches Some(i) ==> i < self.keys().len() && self.keys()[i as int] == path@
                && self.keys().index_of(path@) == i,
    {
        let n = self.access_order.len();
        let mut i: usize = 0;
        while i < n
            invariant
                self.wf(),
                n == self.keys().len(),
                i <= n,
                forall|j: int| 0 <= j < i ==> self.keys()[j] != path@,
            decreases n - i,
        {
            if same_text(self.access_order[i].as_str(), path) {
                assert(self.keys()[i as int] == path@);
                assert(self.keys().contains(path@));
                return Some(i);
            }
            i = i + 1;
        }
        None
    }

    /// On a hit, marks `path` as the most recently used entry and returns
    /// its texture; on a miss returns `None` and changes nothing.
    pub fn get(&mut self, path: &str) -> (r: Option<&TextureHandle>)
        requires
            old(self).wf(),
        ensures
            final(self).wf(),
            final(self).capacity() == old(self).capacity(),
            r is Some <==> old(self).keys().contains(path@),
            r matches Some(t) ==> *t == old(self).values()[old(self).keys().index_of(path@)],
            final(self).keys() == keys_after_get(old(self).keys(), path@),
            final(self).values() == values_after_get(old(self).keys(), old(self).values(), path@),
    {
        match self.position(path) {
            None => None,
            Some(i) => {
                proof {
                    self.lemma_keys_remove(i as int);
                }
                let k = self.access_order.remove(i);
                self.access_order.push(k);
                let t = self.textures.remove(i);
                self.textures.push(t);
                assert(self.keys() =~= moved_to_end(old(self).keys(), i as int));
                assert(self.keys().no_duplicates());
                let last = self.textures.len() - 1;
                Some(&self.textures[last])
            }
        }
    }

    /// Stores `texture` under `path` as the most recently used entry.
    ///
    /// A resident `path` has its texture replaced and is moved to the end of
    /// the recency order. Otherwise, while the cache is full, the least
    /// recently used entry is evicted, one at a time, and the new entry is
    /// appended; a cache of capacity 0 stores nothing.
    pub fn insert(&mut self, path: String, texture: TextureHandle)
        requires
            old(self).wf(),
        ensures
            final(self).wf(),
            final(self).capacity() == old(self).capacity(),
            final(self).keys() == keys_after_insert(old(self).keys(), old(self).capacity(), path@),
            final(self).values() == values_after_insert(
                old(self).keys(),
                old(self).values(),
                old(self).capacity(),
                path@,
                texture,
            ),
    {
        match self.position(path.as_str()) {
            Some(i) => {
                proof {
                    self.lemma_keys_remove(i as int);
                }
                let _stale_key = self.access_order.remove(i);
                let _stale_texture = self.textures.remove(i);
                self.access_order.push(path);
                self.textures.push(texture);
                assert(self.keys() =~= old(self).keys().remove(i as int).push(path@));
                assert(self.keys() =~= moved_to_end(old(self).keys(), i as int));
                assert(self.keys().no_duplicates());
            },
            None => {
                if self.max_cache_size == 0 {
                    return;
                }
                while self.access_order.len() >= self.max_cache_size && self.access_order.len() > 0
                    invariant
                        self.wf(),
                        self.capacity() == old(self).capacity(),
                        0 < self.capacity(),
                        old(self).wf(),
                        self.keys().len() <= old(self).keys().len(),
                        old(self).keys().len() < self.capacity() ==> self.keys().len() == old(self).keys().len(),
                        old(self).keys().len() == self.capacity() ==> self.keys().len() + 1 >= self.capacity(),
                        self.keys() == old(self).keys().skip(old(self).keys().len() - self.keys().len()),
                        self.values() == old(self).values().skip(old(self).keys().len() - self.keys().len()),
                        !self.keys().contains(path@),
                    decreases self.access_order.len(),
                {
                    proof {
                        self.lemma_keys_remove(0);
                    }
                    let _evicted_key = self.access_order.remove(0);
                    let _evicted_texture = self.textures.remove(0);
                    assert(self.keys() =~= old(self).keys().skip(
                        old(self).keys().len() - self.keys().len(),
                    ));
                    assert(self.values() =~= old(self).values().skip(
                        old(self).keys().len() - self.keys().len(),
                    ));
                }
                proof {
                    if old(self).keys().len() < self.capacity() {
                        assert(old(self).keys().skip(0) =~= old(self).keys());
                        assert(old(self).values().skip(0) =~= old(self).values());
                    } else {
                        assert(old(self).keys().skip(1) =~= old(self).keys().drop_first());
                        assert(old(self).values().skip(1) =~= old(self).values().drop_first());
                    }
                }
                let ghost before = self.keys();
                self.access_order.push(path);
                self.textures.push(texture);
                assert(self.keys() =~= before.push(path@));
            },
        }
    }

    /// Whether `path` is resident; the recency order is left as it is.
    pub fn contains(&self, path: &str) -> (r: bool)
        requires
            self.wf(),
        ensures
            r == self.keys().contains(path@),
    {
        self.position(path).is_some()
    }

    /// Drops every entry; the capacity stays.
    pub fn clear(&mut self)
        ensures
            final(self).wf(),
            final(self).capacity() == old(self).capacity(),
            final(self).keys() == Seq::<Seq<char>>::empty(),
            final(self).values() == Seq::<TextureHandle>::empty(),
    {
        self.textures.clear();
        self.access_order.clear();
        assert(self.keys() =~= Seq::<Seq<char>>::empty());
    }

    /// The number of resident entries.
    pub fn len(&self) -> (r: usize)
        requires
            self.wf(),
        ensures
            r == self.keys().len(),
    {
        self.access_order.len()
    }

    /// The most entries that may be resident.
    pub fn max_size(&self) -> (r: usize)
        ensures
            r == self.capacity(),
    {
        self.max_cache_size
    }
}

/// One access to the cache: a store or a lookup under a path.
pub enum CacheAccess {
    Insert(Seq<char>),
    Get(Seq<char>),
}

impl CacheAccess {
    pub open spec fn key(self) -> Seq<char> {
        match self {
            CacheAccess::Insert(k) => k,
            CacheAccess::Get(k) => k,
        }
    }
}

/// The recency order after one access.
pub open spec fn keys_after_access(keys: Seq<Seq<char>>, cap: nat, a: CacheAccess) -> Seq<Seq<char>> {
    match a {
        CacheAccess::Insert(k) => keys_after_insert(keys, cap, k),
        CacheAccess::Get(k) => keys_after_get(keys, k),
    }
}

/// The recency order after a sequence of accesses, starting from `keys`.
pub open spec fn keys_after_accesses(keys: Seq<Seq<char>>, cap: nat, accesses: Seq<CacheAccess>) -> Seq<
    Seq<char>,
>
    decreases accesses.len(),
{
    if accesses.len() == 0 {
        keys
    } else {
        keys_after_access(keys_after_accesses(keys, cap, accesses.drop_last()), cap, accesses.last())
    }
}

/// The index of the last access under `k`, or -1 when there is none.
pub open spec fn last_access(accesses: Seq<CacheAccess>, k: Seq<char>) -> int
    decreases accesses.len(),
{
    if accesses.len() == 0 {
        -1
    } else if accesses.last().key() == k {
        accesses.len() - 1
    } else {
        last_access(accesses.drop_last(), k)
    }
}

proof fn lemma_last_access_range(accesses: Seq<CacheAccess>, k: Seq<char>)
    ensures
        -1 <= last_access(accesses, k) < accesses.len(),
    decreases accesses.len(),
{
    if accesses.len() > 0 {
        lemma_last_access_range(accesses.drop_last(), k);
    }
}

/// The recency order of any cache kept by `get` and `insert` holds no path
/// twice and never more paths than the capacity.
pub proof fn lemma_cache_stays_bounded(keys: Seq<Seq<char>>, cap: nat, accesses: Seq<CacheAccess>)
    requires
        keys.no_duplicates(),
        keys.len() <= cap,
    ensures
        keys_after_accesses(keys, cap, accesses).no_duplicates(),
        keys_after_accesses(keys, cap, accesses).len() <= cap,
    decreases accesses.len(),
{
    if accesses.len() > 0 {
        let prev = keys_after_accesses(keys, cap, accesses.drop_last());
        lemma_cache_stays_bounded(keys, cap, accesses.drop_last());
        let next = keys_after_accesses(keys, cap, accesses);
        let k = accesses.last().key();
        if prev.contains(k) {
            let i = prev.index_of(k);
            assert(next =~= prev.remove(i).push(k));
        }
        assert(next.no_duplicates());
    }
}

/// Starting from an empty cache, the recency order lists the resident paths
/// by the time of their last access (by `get` or `insert`), oldest first. So
/// the entry that a full cache evicts, the first, is the least recently
/// accessed of all resident entries.
pub proof fn lemma_cache_evicts_least_recent(cap: nat, accesses: Seq<CacheAccess>)
    ensures
        ({
            let ks = keys_after_accesses(Seq::empty(), cap, accesses);
            &&& forall|i: int| 0 <= i < ks.len() ==> last_access(accesses, #[trigger] ks[i]) >= 0
            &&& forall|i: int, j: int|
                0 <= i < j < ks.len() ==> last_access(accesses, #[trigger] ks[i]) < last_access(
                    accesses,
                    #[trigger] ks[j],
                )
        }),
    decreases accesses.len(),
{
    if accesses.len() > 0 {
        let prev_acc = accesses.drop_last();
        lemma_cache_evicts_least_recent(cap, prev_acc);
        lemma_cache_stays_bounded(Seq::empty(), cap, prev_acc);
        let prev = keys_after_accesses(Seq::empty(), cap, prev_acc);
        let ks = keys_after_accesses(Seq::empty(), cap, accesses);
        let k = accesses.last().key();
        let n = prev_acc.len() as int;
        assert forall|x: Seq<char>| x != k implies last_access(accesses, x) == last_access(prev_acc, x) by {}
        assert(last_access(accesses, k) == n);
        assert forall|x: Seq<char>| #[trigger] last_access(prev_acc, x) < n by {
            lemma_last_access_range(prev_acc, x);
        }
        if prev.contains(k) {
            let i = prev.index_of(k);
            assert(ks =~= prev.remove(i).push(k));
        } else {
            assert(ks =~= prev || ks =~= prev.push(k) || ks =~= prev.drop_first().push(k));
        }
        assert forall|i: int| 0 <= i < ks.len() implies last_access(accesses, #[trigger] ks[i]) >= 0 by {
            if ks[i] != k {
                assert(prev.contains(ks[i]));
            }
        }
        assert forall|i: int, j: int| 0 <= i < j < ks.len() implies last_access(accesses, #[trigger] ks[i])
            < last_access(accesses, #[trigger] ks[j]) by {
            if ks[j] == k {
                assert(ks[i] != k);
                assert(prev.contains(ks[i]));
            } else {
                assert(ks[i] != k);
            }
        }
    }
}

/// In a well-formed cache the paths of the map are exactly the paths of the
/// recency order, each listed once.
pub proof fn lemma_cache_keys_match(c: &ImageCache)
    requires
        c.wf(),
    ensures
        c.map().dom() == c.keys().to_set(),
        c.keys().no_duplicates(),
        c.keys().len() == c.values().len(),
{
    assert(c.map().dom() =~= c.keys().to_set());
}

} // verus!
