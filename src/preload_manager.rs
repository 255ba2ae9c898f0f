//! Planning of background loads around the current image, and delivery of
//! finished loads into the cache.
use vstd::prelude::*;
use egui::TextureHandle;
use crate::file_manager::texts;
use crate::image_cache::{keys_after_insert, values_after_insert, ImageCache};
use crate::image_loader::ImageLoaderFactory;

verus! {

/// First index of the window of radius `r` around `c`.
pub open spec fn window_start(c: int, r: int) -> int {
    if c >= r {
        c - r
    } else {
        0
    }
}

/// One past the last index of the window of radius `r` around `c`, in a list
/// of `len` paths.
pub open spec fn window_end(c: int, r: int, len: int) -> int {
    if c + r + 1 <= len {
        c + r + 1
    } else {
        len
    }
}

/// The paths at indices `lo .. hi`, in index order, leaving out index `c`
/// and the paths in `cached`.
pub open spec fn neighbours(
    paths: Seq<Seq<char>>,
    c: int,
    cached: Set<Seq<char>>,
    lo: int,
    hi: int,
) -> Seq<Seq<char>>
    decreases hi - lo,
{
    if hi <= lo {
        Seq::empty()
    } else {
        let before = neighbours(paths, c, cached, lo, hi - 1);
        if hi - 1 != c && !cached.contains(paths[hi - 1]) {
            before.push(paths[hi - 1])
        } else {
            before
        }
    }
}

/// The paths to load around index `c` with radius `r`: the current path
/// first, then the rest of the window in index order, none of them cached.
pub open spec fn preload_candidates(
    paths: Seq<Seq<char>>,
    c: int,
    r: int,
    cached: Set<Seq<char>>,
) -> Seq<Seq<char>> {
    let first = if c < paths.len() && !cached.contains(paths[c]) {
        seq![paths[c]]
    } else {
        Seq::empty()
    };
    first + neighbours(paths, c, cached, window_start(c, r), window_end(c, r, paths.len() as int))
}

/// The recency order after storing each of `items` in turn.
pub open spec fn keys_after_inserts(
    keys: Seq<Seq<char>>,
    cap: nat,
    items: Seq<(Seq<char>, TextureHandle)>,
) -> Seq<Seq<char>>
    decreases items.len(),
{
    if items.len() == 0 {
        keys
    } else {
        keys_after_insert(keys_after_inserts(keys, cap, items.drop_last()), cap, items.last().0)
    }
}

/// The textures, in recency order, after storing each of `items` in turn.
pub open spec fn values_after_inserts(
    keys: Seq<Seq<char>>,
    values: Seq<TextureHandle>,
    cap: nat,
    items: Seq<(Seq<char>, TextureHandle)>,
) -> Seq<TextureHandle>
    decreases items.len(),
{
    if items.len() == 0 {
        values
    } else {
        values_after_insert(
            keys_after_inserts(keys, cap, items.drop_last()),
            values_after_inserts(keys, values, cap, items.drop_last()),
            cap,
            items.last().0,
            items.last().1,
        )
    }
}

/// The texts and textures of finished loads.
pub open spec fn loaded_items(loaded: Seq<(String, TextureHandle)>) -> Seq<(Seq<char>, TextureHandle)> {
    loaded.map_values(|e: (String, TextureHandle)| (e.0@, e.1))
}

/// Decides which images to load in the background and stores the finished
/// ones. The threads, the result channel and the texture upload belong to the
/// caller, which hands over the results it has taken from the channel.
pub struct PreloadManager {
    preload_range: usize,
    loader_factory: ImageLoaderFactory,
}

impl PreloadManager {
    /// How many neighbours on each side of the current image are loaded.
    pub closed spec fn range(&self) -> nat {
        self.preload_range as nat
    }

    pub fn new(preload_range: usize) -> (r: Self)
        ensures
            r.range() == preload_range,
    {
        PreloadManager { preload_range, loader_factory: ImageLoaderFactory::new() }
    }

    pub fn preload_range(&self) -> (r: usize)
        ensures
            r == self.range(),
    {
        self.preload_range
    }

    /// The decoders that the background workers use.
    pub fn loader_factory(&self) -> &ImageLoaderFactory {
        &self.loader_factory
    }

    /// The paths to load for the window around `current_index`: the current
    /// path first, then its neighbours within the preload range in index
    /// order, leaving out the paths that the cache holds.
    pub fn preload_images_around_index(
        &self,
        image_paths: &[String],
        current_index: usize,
        image_cache: &ImageCache,
    ) -> (r: Vec<String>)
        requires
            image_cache.wf(),
        ensures
            texts(r@) == preload_candidates(
                texts(image_paths@),
                current_index as int,
                self.range() as int,
                image_cache.keys().to_set(),
            ),
    {
        let ghost paths = texts(image_paths@);
        let ghost cached = image_cache.keys().to_set();
        let len = image_paths.len();
        let range = self.preload_range;
        let start = if current_index >= range { current_index - range } else { 0 };
        let end = if current_index >= len {
            len
        } else if range >= len - current_index {
            len
        } else {
            current_index + range + 1
        };
        let mut paths_to_load: Vec<String> = Vec::new();
        if current_index < len {
            let current_path = &image_paths[current_index];
            if !image_cache.contains(current_path.as_str()) {
                paths_to_load.push(current_path.clone());
            }
        }
        let ghost first = texts(paths_to_load@);
        proof {
            if current_index < len && !cached.contains(paths[current_index as int]) {
                assert(first =~= seq![paths[current_index as int]]);
            } else {
                assert(first =~= Seq::<Seq<char>>::empty());
            }
        }
        let mut i: usize = start;
        assert(neighbours(paths, current_index as int, cached, start as int, start as int) =~= Seq::<
            Seq<char>,
        >::empty());
        assert(first + Seq::<Seq<char>>::empty() =~= first);
        while i < end
            invariant
                image_cache.wf(),
                paths == texts(image_paths@),
                cached == image_cache.keys().to_set(),
                len == image_paths@.len(),
                start <= i,
                start <= end || i == start,
                i <= end || i == start,
                end <= len,
                texts(paths_to_load@) == first + neighbours(
                    paths,
                    current_index as int,
                    cached,
                    start as int,
                    i as int,
                ),
            decreases end - i,
        {
            let ghost before = texts(paths_to_load@);
            if i != current_index {
                let path = &image_paths[i];
                if !image_cache.contains(path.as_str()) {
                    paths_to_load.push(path.clone());
                    assert(texts(paths_to_load@) =~= before.push(paths[i as int]));
                }
            }
            assert(texts(paths_to_load@) =~= first + neighbours(
                paths,
                current_index as int,
                cached,
                start as int,
                i + 1,
            ));
            i = i + 1;
        }
        proof {
            if end < start {
                assert(neighbours(paths, current_index as int, cached, start as int, end as int)
                    =~= Seq::<Seq<char>>::empty());
            }
            assert(window_end(current_index as int, range as int, len as int) == end);
        }
        paths_to_load
    }

    /// Stores each finished load in the cache, in the order received.
    pub fn process_loaded_images(&self, loaded: Vec<(String, TextureHandle)>, image_cache: &mut ImageCache)
        requires
            old(image_cache).wf(),
        ensures
            final(image_cache).wf(),
            final(image_cache).capacity() == old(image_cache).capacity(),
            final(image_cache).keys() == keys_after_inserts(
                old(image_cache).keys(),
                old(image_cache).capacity(),
                loaded_items(loaded@),
            ),
            final(image_cache).values() == values_after_inserts(
                old(image_cache).keys(),
                old(image_cache).values(),
                old(image_cache).capacity(),
                loaded_items(loaded@),
            ),
    {
        let ghost all = loaded_items(loaded@);
        let ghost keys0 = image_cache.keys();
        let ghost values0 = image_cache.values();
        let ghost cap = image_cache.capacity();
        let mut rest = loaded;
        let ghost mut done: int = 0;
        assert(all.take(0) =~= Seq::<(Seq<char>, TextureHandle)>::empty());
        while rest.len() > 0
            invariant
                image_cache.wf(),
                image_cache.capacity() == cap,
                0 <= done <= all.len(),
                loaded_items(rest@) == all.skip(done),
                image_cache.keys() == keys_after_inserts(keys0, cap, all.take(done)),
                image_cache.values() == values_after_inserts(keys0, values0, cap, all.take(done)),
            decreases rest.len(),
        {
            let ghost before = rest@;
            let (path, texture) = rest.remove(0);
            proof {
                assert(loaded_items(before).len() == before.len());
                assert(all.skip(done).len() == all.len() - done);
                assert(done < all.len());
                assert(loaded_items(before)[0] == all.skip(done)[0]);
                assert(all[done] == (path@, texture));
                assert(all.take(done + 1).drop_last() =~= all.take(done));
                assert(all.take(done + 1).last() == all[done]);
                assert forall|k: int| 0 <= k < rest@.len() implies #[trigger] loaded_items(rest@)[k]
                    == all.skip(done + 1)[k] by {
                    assert(rest@[k] == before[k + 1]);
                    assert(loaded_items(before)[k + 1] == all.skip(done)[k + 1]);
                }
                assert(loaded_items(rest@) =~= all.skip(done + 1));
            }
            image_cache.insert(path, texture);
            proof {
                done = done + 1;
            }
        }
        assert(all.take(done) =~= all);
    }
}

} // verus!
