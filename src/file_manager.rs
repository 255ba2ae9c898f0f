//! Choosing and ordering the images of a directory listing.
use vstd::prelude::*;
use crate::image_format::{format_of_path, supported_extensions, ImageFormat};
use crate::path_order::{
    lemma_path_le_reflexive,
    lemma_path_le_total,
    lemma_path_le_transitive,
    path_le,
    path_le_exec,
    same_text,
};

verus! {

/// The texts of a list of paths.
pub open spec fn texts(paths: Seq<String>) -> Seq<Seq<char>> {
    paths.map_values(|p: String| p@)
}

/// The paths of a supported format, in their original order.
pub open spec fn supported_only(paths: Seq<Seq<char>>) -> Seq<Seq<char>> {
    paths.filter(|p: Seq<char>| format_of_path(p) is Some)
}

/// Every path sorts before or equal to each one after it.
pub open spec fn is_sorted(paths: Seq<Seq<char>>) -> bool {
    forall|i: int, j: int| 0 <= i < j < paths.len() ==> path_le(#[trigger] paths[i], #[trigger] paths[j])
}

/// Directory listings and the file dialog's filter.
pub struct FileManager;

impl FileManager {
    /// The entries of a directory listing that have a supported format,
    /// sorted in the order of [`path_le`].
    pub fn select_images(entries: Vec<String>) -> (r: Vec<String>)
        ensures
            is_sorted(texts(r@)),
            texts(r@).to_multiset() == supported_only(texts(entries@)).to_multiset(),
    {
        let mut kept: Vec<String> = Vec::new();
        let mut rest = entries;
        let ghost all = texts(rest@);
        let mut i: usize = 0;
        let n = rest.len();
        assert(all.take(0) =~= Seq::<Seq<char>>::empty());
        while i < n
            invariant
                n == all.len(),
                i <= n,
                texts(rest@) == all,
                texts(kept@) == supported_only(all.take(i as int)),
            decreases n - i,
        {
            let supported = ImageFormat::is_supported(rest[i].as_str());
            proof {
                assert(all.take(i + 1) =~= all.take(i as int).push(all[i as int]));
                all.take(i as int).lemma_filter_push(all[i as int], |p: Seq<char>| format_of_path(p) is Some);
            }
            if supported {
                let path = rest[i].clone();
                kept.push(path);
                assert(texts(kept@) =~= supported_only(all.take(i as int)).push(all[i as int]));
            }
            i = i + 1;
        }
        assert(all.take(n as int) =~= all);
        Self::sort_paths(kept)
    }

    /// The same paths, sorted in the order of [`path_le`].
    fn sort_paths(paths: Vec<String>) -> (r: Vec<String>)
        ensures
            is_sorted(texts(r@)),
            texts(r@).to_multiset() == texts(paths@).to_multiset(),
    {
        broadcast use vstd::seq_lib::group_to_multiset_ensures;

        let ghost whole = texts(paths@);
        let mut rest = paths;
        let mut out: Vec<String> = Vec::new();
        assert(texts(out@) =~= Seq::<Seq<char>>::empty());
        assert(texts(out@).to_multiset().add(texts(rest@).to_multiset()) =~= whole.to_multiset());
        while rest.len() > 0
            invariant
                texts(out@).to_multiset().add(texts(rest@).to_multiset()) == whole.to_multiset(),
                is_sorted(texts(out@)),
                forall|i: int, j: int|
                    0 <= i < out@.len() && 0 <= j < rest@.len() ==> path_le(
                        #[trigger] out@[i]@,
                        #[trigger] rest@[j]@,
                    ),
            decreases rest.len(),
        {
            let mut m: usize = 0;
            let mut j: usize = 1;
            proof {
                lemma_path_le_reflexive(rest@[0]@);
            }
            while j < rest.len()
                invariant
                    0 <= m < j <= rest@.len(),
                    forall|k: int| 0 <= k < j ==> path_le(rest@[m as int]@, #[trigger] rest@[k]@),
                decreases rest.len() - j,
            {
                if !path_le_exec(rest[m].as_str(), rest[j].as_str()) {
                    proof {
                        lemma_path_le_total(rest@[m as int]@, rest@[j as int]@);
                        assert forall|k: int| 0 <= k < j + 1 implies path_le(
                            rest@[j as int]@,
                            #[trigger] rest@[k]@,
                        ) by {
                            if k < j {
                                lemma_path_le_transitive(rest@[j as int]@, rest@[m as int]@, rest@[k]@);
                            } else {
                                lemma_path_le_reflexive(rest@[j as int]@);
                            }
                        }
                    }
                    m = j;
                }
                j = j + 1;
            }
            let ghost old_rest = rest@;
            let ghost old_out = out@;
            let x = rest.remove(m);
            out.push(x);
            proof {
                assert(texts(rest@) =~= texts(old_rest).remove(m as int));
                assert(texts(out@) =~= texts(old_out).push(x@));
                assert(texts(old_rest)[m as int] == x@);
                vstd::seq_lib::to_multiset_build(texts(old_out), x@);
                vstd::seq_lib::to_multiset_remove(texts(old_rest), m as int);
                assert(texts(out@).to_multiset() == texts(old_out).to_multiset().insert(x@));
                assert(texts(rest@).to_multiset() == texts(old_rest).to_multiset().remove(x@));
                assert(texts(old_rest).contains(x@));
                texts(old_rest).to_multiset_ensures();
                assert(texts(old_rest).to_multiset().count(x@) > 0);
                assert(texts(out@).to_multiset().add(texts(rest@).to_multiset()) =~= whole.to_multiset());
                assert forall|a: int, b: int| 0 <= a < b < texts(out@).len() implies path_le(
                    #[trigger] texts(out@)[a],
                    #[trigger] texts(out@)[b],
                ) by {
                    if b == old_out.len() {
                        assert(old_rest[m as int] == x);
                    } else {
                        assert(texts(old_out)[a] == old_out[a]@);
                    }
                }
                assert forall|a: int, b: int| 0 <= a < out@.len() && 0 <= b < rest@.len() implies path_le(
                    #[trigger] out@[a]@,
                    #[trigger] rest@[b]@,
                ) by {
                    let ob = if b < m { b } else { b + 1 };
                    assert(rest@[b] == old_rest[ob]);
                    if a == old_out.len() {
                        assert(out@[a] == old_rest[m as int]);
                    }
                }
            }
        }
        assert(texts(rest@) =~= Seq::<Seq<char>>::empty());
        assert(texts(out@).to_multiset() =~= whole.to_multiset());
        out
    }

    /// The first index at which `paths` holds `target`.
    pub fn find_index_of_file(paths: &[String], target: &str) -> (r: Option<usize>)
        ensures
            match r {
                Some(i) => i < paths@.len() && paths@[i as int]@ == target@ && forall|k: int|
                    0 <= k < i ==> (#[trigger] paths@[k])@ != target@,
                None => forall|k: int| 0 <= k < paths@.len() ==> (#[trigger] paths@[k])@ != target@,
            },
    {
        let mut i: usize = 0;
        while i < paths.len()
            invariant
                i <= paths@.len(),
                forall|k: int| 0 <= k < i ==> (#[trigger] paths@[k])@ != target@,
            decreases paths@.len() - i,
        {
            if same_text(paths[i].as_str(), target) {
                return Some(i);
            }
            i = i + 1;
        }
        None
    }

    /// The file dialog's filter: its name and the accepted extensions.
    pub fn get_supported_file_filter() -> (r: (&'static str, Vec<&'static str>))
        ensures
            r.0@ == "Imagen"@,
            r.1@.map_values(|e: &str| e@) == supported_extensions(),
    {
        ("Imagen", ImageFormat::get_supported_extensions())
    }
}

} // verus!
