//! The cursor: the path of the node it is on.
use vstd::prelude::*;
use crate::ui::tree_view::{copy_path, paths_equal};

verus! {

/// A position in the document, given by the path of the node.
#[derive(Debug)]
pub struct Cursor {
    path: Vec<usize>,
}

impl View for Cursor {
    type V = Seq<usize>;

    closed spec fn view(&self) -> Seq<usize> {
        self.path@
    }
}

impl Cursor {
    /// A cursor at the root (the empty path).
    pub fn new() -> (res: Self)
        ensures
            res@ == Seq::<usize>::empty(),
    {
        Cursor { path: Vec::new() }
    }

    /// Moves down to child `index` of the current node.
    pub fn push(&mut self, index: usize)
        ensures
            final(self)@ == old(self)@.push(index),
    {
        self.path.push(index);
    }

    /// Moves up to the parent, giving back the index left; `None` at the root.
    pub fn pop(&mut self) -> (res: Option<usize>)
        ensures
            old(self)@.len() == 0 ==> res is None && final(self)@ == old(self)@,
            old(self)@.len() > 0 ==> res == Some(old(self)@.last()) && final(self)@ == old(
                self,
            )@.drop_last(),
    {
        self.path.pop()
    }

    /// Moves to `path`.
    pub fn set_path(&mut self, path: Vec<usize>)
        ensures
            final(self)@ == path@,
    {
        self.path = path;
    }

    /// The path of the node under the cursor.
    pub fn path(&self) -> (res: &[usize])
        ensures
            res@ == self@,
    {
        self.path.as_slice()
    }
}

impl Default for Cursor {
    fn default() -> (res: Self)
        ensures
            res@ == Seq::<usize>::empty(),
    {
        Cursor::new()
    }
}

impl Clone for Cursor {
    fn clone(&self) -> (res: Self)
        ensures
            res@ == self@,
    {
        Cursor { path: copy_path(self.path.as_slice()) }
    }
}

impl PartialEq for Cursor {
    fn eq(&self, other: &Self) -> (res: bool) {
        paths_equal(self.path.as_slice(), other.path.as_slice())
    }
}

impl vstd::std_specs::cmp::PartialEqSpecImpl for Cursor {
    open spec fn obeys_eq_spec() -> bool {
        true
    }

    open spec fn eq_spec(&self, other: &Self) -> bool {
        self@ == other@
    }
}

} // verus!
