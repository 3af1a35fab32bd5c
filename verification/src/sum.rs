//! A sum of editors: several alternative editors of which exactly one
//! is current at a time.

use vstd::prelude::*;

verus! {

/// A set of alternative editors with one of them selected.
#[derive(Debug)]
pub struct SumEditor<E> {
    pub cur: usize,
    pub editors: Vec<E>,
}

impl<E> SumEditor<E> {
    /// A sum over the given editors, with the first one current.
    pub fn new(editors: Vec<E>) -> (r: SumEditor<E>)
        ensures
            r.cur == 0,
            r.editors@ == editors@,
    {
        SumEditor { cur: 0, editors }
    }

    /// Makes the editor at `idx` the current one.
    pub fn select(&mut self, idx: usize)
        requires
            idx < old(self).editors@.len(),
        ensures
            final(self).cur == idx,
            final(self).editors@ == old(self).editors@,
    {
        self.cur = idx;
    }

    /// The currently selected editor.
    pub fn current(&self) -> (r: &E)
        requires
            self.cur < self.editors@.len(),
        ensures
            *r == self.editors@[self.cur as int],
    {
        &self.editors[self.cur]
    }
}

} // verus!
