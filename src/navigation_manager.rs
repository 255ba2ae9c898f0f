use vstd::prelude::*;

verus! {

/// The position after stepping forward in a list of `len` paths: one more,
/// unless that would leave the list.
pub open spec fn index_after_next(len: int, index: int) -> int {
    if index + 1 < len {
        index + 1
    } else {
        index
    }
}

/// The position after stepping back: one less, unless already at the first.
pub open spec fn index_after_previous(index: int) -> int {
    if index > 0 {
        index - 1
    } else {
        index
    }
}

/// Stepping forward and then back returns to the same position wherever a
/// step forward is possible; at the first position a step back stays put,
/// and at the last a step forward stays put.
pub proof fn lemma_next_then_previous(len: int, index: int)
    requires
        0 <= index < len,
    ensures
        index + 1 < len ==> index_after_previous(index_after_next(len, index)) == index,
        index == 0 ==> index_after_previous(index) == index,
        index == len - 1 ==> index_after_next(len, index) == index,
{
}

/// An ordered list of image paths and the position of the image on screen.
///
/// When the list is not empty the position is a valid index into it; when it
/// is empty the position is 0 and there is no current image.
pub struct NavigationManager {
    image_paths: Vec<String>,
    current_index: usize,
}

impl NavigationManager {
    /// The paths, in display order.
    pub closed spec fn paths(&self) -> Seq<Seq<char>> {
        self.image_paths@.map_values(|p: String| p@)
    }

    /// The position of the current image.
    pub closed spec fn index(&self) -> int {
        self.current_index as int
    }

    pub open spec fn wf(&self) -> bool {
        if self.paths().len() == 0 {
            self.index() == 0
        } else {
            0 <= self.index() < self.paths().len()
        }
    }

    pub fn new() -> (r: Self)
        ensures
            r.wf(),
            r.paths() == Seq::<Seq<char>>::empty(),
            r.index() == 0,
    {
        let r = NavigationManager { image_paths: Vec::new(), current_index: 0 };
        assert(r.paths() =~= Seq::<Seq<char>>::empty());
        r
    }

    /// Replaces the list; the position is `initial_index` clamped to the
    /// last valid index (0 for an empty list).
    pub fn set_images(&mut self, paths: Vec<String>, initial_index: usize)
        ensures
            final(self).wf(),
            final(self).paths() == paths@.map_values(|p: String| p@),
            final(self).index() == if paths@.len() == 0 {
                0
            } else if initial_index < paths@.len() {
                initial_index as int
            } else {
                paths@.len() - 1
            },
    {
        let len = paths.len();
        self.image_paths = paths;
        let last = if len == 0 { 0 } else { len - 1 };
        self.current_index = if initial_index < last { initial_index } else { last };
    }

    /// Steps back one image; returns false, changing nothing, at the first.
    pub fn previous(&mut self) -> (moved: bool)
        requires
            old(self).wf(),
        ensures
            final(self).wf(),
            final(self).paths() == old(self).paths(),
            moved == (old(self).index() > 0),
            final(self).index() == index_after_previous(old(self).index()),
    {
        if self.current_index > 0 {
            self.current_index = self.current_index - 1;
            true
        } else {
            false
        }
    }

    /// Steps forward one image; returns false, changing nothing, at the last.
    pub fn next(&mut self) -> (moved: bool)
        requires
            old(self).wf(),
        ensures
            final(self).wf(),
            final(self).paths() == old(self).paths(),
            moved == (old(self).index() + 1 < old(self).paths().len()),
            final(self).index() == index_after_next(old(self).paths().len() as int, old(self).index()),
    {
        if self.current_index < self.image_paths.len() && self.image_paths.len() - self.current_index > 1 {
            self.current_index = self.current_index + 1;
            true
        } else {
            false
        }
    }

    pub fn can_go_previous(&self) -> (r: bool)
        ensures
            r == (self.index() > 0),
    {
        self.current_index > 0
    }

    pub fn can_go_next(&self) -> (r: bool)
        ensures
            r == (self.index() + 1 < self.paths().len()),
    {
        self.current_index < self.image_paths.len() && self.image_paths.len() - self.current_index > 1
    }

    pub fn current_index(&self) -> (r: usize)
        ensures
            r == self.index(),
    {
        self.current_index
    }

    /// The path at the current position, if the list is not empty.
    pub fn current_path(&self) -> (r: Option<&String>)
        ensures
            match r {
                Some(p) => 0 <= self.index() < self.paths().len() && p@ == self.paths()[self.index()],
                None => !(0 <= self.index() < self.paths().len()),
            },
    {
        self.image_paths.get(self.current_index)
    }

    pub fn image_paths(&self) -> (r: &[String])
        ensures
            r@.map_values(|p: String| p@) == self.paths(),
    {
        self.image_paths.as_slice()
    }

    pub fn total_images(&self) -> (r: usize)
        ensures
            r == self.paths().len(),
    {
        self.image_paths.len()
    }

    pub fn is_empty(&self) -> (r: bool)
        ensures
            r == (self.paths().len() == 0),
    {
        self.image_paths.is_empty()
    }

    pub fn clear(&mut self)
        ensures
            final(self).wf(),
            final(self).paths() == Seq::<Seq<char>>::empty(),
            final(self).index() == 0,
    {
        self.image_paths.clear();
        self.current_index = 0;
        assert(self.paths() =~= Seq::<Seq<char>>::empty());
    }
}

} // verus!
