//! The set of paths being decoded, which keeps a path from being decoded by
//! two workers at once.
use vstd::prelude::*;
use crate::file_manager::texts;
use crate::path_order::same_text;

verus! {

/// The paths of a batch that are handed out: those not in flight and not
/// listed earlier in the batch, in batch order.
pub open spec fn claimed(in_flight: Set<Seq<char>>, batch: Seq<Seq<char>>) -> Seq<Seq<char>>
    decreases batch.len(),
{
    if batch.len() == 0 {
        Seq::empty()
    } else {
        let before = claimed(in_flight, batch.drop_last());
        if in_flight.union(batch.drop_last().to_set()).contains(batch.last()) {
            before
        } else {
            before.push(batch.last())
        }
    }
}

/// Paths whose decoding has started and not yet finished.
///
/// Callers that share one set between threads hold a lock around each call,
/// so that every test-and-insert is a single critical section.
///
/// The paths are kept in a vector without repeats rather than in a
/// `HashSet`: with path keys, nothing can be proved of a `HashSet`'s
/// contents, while the vector's invariant is stated in [`Self::wf`].
pub struct InFlightSet {
    paths: Vec<String>,
}

impl InFlightSet {
    /// The paths in flight.
    pub closed spec fn view_set(&self) -> Set<Seq<char>> {
        texts(self.paths@).to_set()
    }

    pub closed spec fn wf(&self) -> bool {
        texts(self.paths@).no_duplicates()
    }

    pub fn new() -> (r: Self)
        ensures
            r.wf(),
            r.view_set() == Set::<Seq<char>>::empty(),
    {
        let r = InFlightSet { paths: Vec::new() };
        assert(texts(r.paths@) =~= Seq::<Seq<char>>::empty());
        assert(r.view_set() =~= Set::<Seq<char>>::empty());
        r
    }

    fn position(&self, path: &str) -> (r: Option<usize>)
        ensures
            r is Some <==> self.view_set().contains(path@),
            r matches Some(i) ==> i < self.paths@.len() && self.paths@[i as int]@ == path@,
    {
        let mut i: usize = 0;
        while i < self.paths.len()
            invariant
                i <= self.paths@.len(),
                forall|k: int| 0 <= k < i ==> (#[trigger] self.paths@[k])@ != path@,
            decreases self.paths@.len() - i,
        {
            if same_text(self.paths[i].as_str(), path) {
                assert(texts(self.paths@)[i as int] == path@);
                return Some(i);
            }
            i = i + 1;
        }
        proof {
            if self.view_set().contains(path@) {
                let k = texts(self.paths@).index_of(path@);
                assert(texts(self.paths@)[k] == self.paths@[k]@);
            }
        }
        None
    }

    /// Whether `path` is in flight.
    pub fn contains(&self, path: &str) -> (r: bool)
        ensures
            r == self.view_set().contains(path@),
    {
        self.position(path).is_some()
    }

    /// The number of paths in flight.
    pub fn len(&self) -> (r: usize)
        requires
            self.wf(),
        ensures
            r == self.view_set().len(),
    {
        proof {
            texts(self.paths@).unique_seq_to_set();
        }
        self.paths.len()
    }

    /// Marks `path` as in flight; returns true when it was not in flight
    /// before, that is when the caller is the one to decode it.
    pub fn try_begin(&mut self, path: String) -> (r: bool)
        requires
            old(self).wf(),
        ensures
            final(self).wf(),
            r == !old(self).view_set().contains(path@),
            final(self).view_set() == old(self).view_set().insert(path@),
    {
        if self.contains(path.as_str()) {
            assert(self.view_set() =~= old(self).view_set().insert(path@));
            false
        } else {
            let ghost before = texts(self.paths@);
            self.paths.push(path);
            assert(texts(self.paths@) =~= before.push(path@));
            proof {
                before.lemma_push_to_set_commute(path@);
            }
            assert(self.view_set() =~= old(self).view_set().insert(path@));
            true
        }
    }

    /// Ends the decoding of `path`; returns whether it was in flight.
    pub fn finish(&mut self, path: &str) -> (r: bool)
        requires
            old(self).wf(),
        ensures
            final(self).wf(),
            r == old(self).view_set().contains(path@),
            final(self).view_set() == old(self).view_set().remove(path@),
    {
        match self.position(path) {
            None => {
                assert(self.view_set() =~= old(self).view_set().remove(path@));
                false
            },
            Some(i) => {
                let ghost before = texts(self.paths@);
                let _done = self.paths.remove(i);
                assert(texts(self.paths@) =~= before.remove(i as int));
                assert forall|x: Seq<char>| #[trigger] self.view_set().contains(x) == old(self).view_set().remove(
                    path@,
                ).contains(x) by {
                    let after = texts(self.paths@);
                    if after.contains(x) {
                        let k = after.index_of(x);
                        assert(after[k] == x);
                        let ok = if k < i { k } else { k + 1 };
                        assert(before[ok] == x);
                        assert(ok != i);
                        assert(before[i as int] == path@);
                        assert(x != path@);
                        assert(before.contains(x));
                        assert(old(self).view_set().remove(path@).contains(x));
                    }
                    if old(self).view_set().remove(path@).contains(x) {
                        assert(before.contains(x));
                        let k = before.index_of(x);
                        assert(before[k] == x);
                        assert(k != i);
                        let nk = if k < i { k } else { k - 1 };
                        assert(after[nk] == x);
                        assert(after.contains(x));
                    }
                }
                assert(self.view_set() =~= old(self).view_set().remove(path@));
                true
            },
        }
    }

    /// Marks each path of `batch` as in flight and returns those that were
    /// not in flight before and not listed earlier in the batch: the paths
    /// that the caller is to decode.
    pub fn claim_batch(&mut self, batch: Vec<String>) -> (r: Vec<String>)
        requires
            old(self).wf(),
        ensures
            final(self).wf(),
            texts(r@) == claimed(old(self).view_set(), texts(batch@)),
            final(self).view_set() == old(self).view_set().union(texts(batch@).to_set()),
    {
        let ghost all = texts(batch@);
        let mut out: Vec<String> = Vec::new();
        let mut i: usize = 0;
        assert(all.take(0) =~= Seq::<Seq<char>>::empty());
        assert(texts(out@) =~= Seq::<Seq<char>>::empty());
        assert(old(self).view_set().union(all.take(0).to_set()) =~= old(self).view_set());
        while i < batch.len()
            invariant
                self.wf(),
                all == texts(batch@),
                i <= batch@.len(),
                texts(out@) == claimed(old(self).view_set(), all.take(i as int)),
                self.view_set() == old(self).view_set().union(all.take(i as int).to_set()),
            decreases batch@.len() - i,
        {
            let path = batch[i].clone();
            proof {
                assert(all.take(i + 1).drop_last() =~= all.take(i as int));
                assert(all.take(i + 1).last() == path@);
                assert(all.take(i + 1) =~= all.take(i as int).push(path@));
                all.take(i as int).lemma_push_to_set_commute(path@);
            }
            if self.try_begin(path) {
                let ghost before = texts(out@);
                let p = batch[i].clone();
                out.push(p);
                assert(texts(out@) =~= before.push(all[i as int]));
            }
            assert(self.view_set() =~= old(self).view_set().union(all.take(i + 1).to_set()));
            i = i + 1;
        }
        assert(all.take(batch@.len() as int) =~= all);
        out
    }
}

/// What [`InFlightSet::claim_batch`] hands out holds no path twice and no
/// path that was in flight.
pub proof fn lemma_claimed_fresh(in_flight: Set<Seq<char>>, batch: Seq<Seq<char>>)
    ensures
        claimed(in_flight, batch).no_duplicates(),
        forall|x: Seq<char>| #[trigger] claimed(in_flight, batch).contains(x) ==> !in_flight.contains(x)
            && batch.contains(x),
    decreases batch.len(),
{
    if batch.len() > 0 {
        let rest = batch.drop_last();
        lemma_claimed_fresh(in_flight, rest);
        let before = claimed(in_flight, rest);
        assert forall|x: Seq<char>| #[trigger] before.contains(x) implies batch.contains(x) by {
            let k = rest.index_of(x);
            assert(batch[k] == x);
        }
        if !in_flight.union(rest.to_set()).contains(batch.last()) {
            assert(!before.contains(batch.last()));
            assert(batch[batch.len() - 1] == batch.last());
            let after = before.push(batch.last());
            assert forall|x: Seq<char>| #[trigger] after.contains(x) implies !in_flight.contains(x)
                && batch.contains(x) by {
                if x != batch.last() {
                    let k = after.index_of(x);
                    assert(after[k] == x);
                    assert(k < before.len());
                    assert(before[k] == x);
                    assert(before.contains(x));
                } else {
                    assert(batch.contains(batch[batch.len() - 1]));
                }
            }
        }
    }
}

/// Two batches claimed one after the other, with no path finished in
/// between, never share a path, even where the batches overlap: no path is
/// handed to two workers at once.
pub proof fn lemma_batches_never_overlap(
    in_flight: Set<Seq<char>>,
    first: Seq<Seq<char>>,
    second: Seq<Seq<char>>,
)
    ensures
        ({
            let a = claimed(in_flight, first);
            let b = claimed(in_flight.union(first.to_set()), second);
            &&& a.no_duplicates()
            &&& b.no_duplicates()
            &&& a.disjoint(b)
            &&& forall|x: Seq<char>| #[trigger] a.contains(x) || b.contains(x) ==> !in_flight.contains(x)
        }),
{
    let a = claimed(in_flight, first);
    let later = in_flight.union(first.to_set());
    let b = claimed(later, second);
    lemma_claimed_fresh(in_flight, first);
    lemma_claimed_fresh(later, second);
    assert forall|i: int, j: int| 0 <= i < a.len() && 0 <= j < b.len() implies a[i] != b[j] by {
        assert(a.contains(a[i]));
        assert(b.contains(b[j]));
        assert(first.to_set().contains(a[i]));
    }
}

} // verus!
