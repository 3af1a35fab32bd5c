//! Cursor state for tree-shaped editors.

use vstd::prelude::*;

verus! {

/// The two modes a list cursor can be in: inserting new items at the
/// cursor position, or selecting an existing item.
#[derive(Clone, Copy, PartialEq, Eq, Structural, Debug)]
pub enum ListCursorMode {
    Insert,
    Select,
}

/// A position inside a tree of nested editors: the mode of the
/// innermost (leaf) cursor, and the path of child indices leading to it.
#[derive(Clone, PartialEq, Eq, Debug)]
pub struct TreeCursor {
    pub leaf_mode: ListCursorMode,
    pub tree_addr: Vec<isize>,
}

impl TreeCursor {
    /// The cursor sitting at the first position of the root, ready to insert.
    pub fn home() -> (c: TreeCursor)
        ensures
            c.leaf_mode == ListCursorMode::Insert,
            c.tree_addr@ == seq![0isize],
    {
        TreeCursor { leaf_mode: ListCursorMode::Insert, tree_addr: vec![0] }
    }

    /// The empty cursor: no address, nothing selected.
    pub fn none() -> (c: TreeCursor)
        ensures
            c.leaf_mode == ListCursorMode::Select,
            c.tree_addr@ == Seq::<isize>::empty(),
    {
        TreeCursor { leaf_mode: ListCursorMode::Select, tree_addr: Vec::new() }
    }
}

impl Default for TreeCursor {
    fn default() -> (c: TreeCursor)
        ensures
            c.leaf_mode == ListCursorMode::Select,
            c.tree_addr@ == Seq::<isize>::empty(),
    {
        TreeCursor::none()
    }
}

} // verus!
