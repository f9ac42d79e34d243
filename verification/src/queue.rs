//! The pool of pending lookups that the workers of one run drain.

use crate::lookup::pkg_views;
use crate::version::{Pkg, PkgView};
use vstd::prelude::*;

verus! {

/// The pending lookups of one run. Whoever holds the queue removes one lookup
/// at a time; nothing is ever put back.
#[derive(Debug)]
pub struct WorkQueue {
    pending: Vec<Pkg>,
}

impl View for WorkQueue {
    type V = Seq<PkgView>;

    closed spec fn view(&self) -> Seq<PkgView> {
        pkg_views(self.pending@)
    }
}

impl WorkQueue {
    /// A queue that holds `lookups`.
    pub fn new(lookups: Vec<Pkg>) -> (r: WorkQueue)
        ensures
            r@ == pkg_views(lookups@),
    {
        WorkQueue { pending: lookups }
    }

    /// Whether no lookup is left.
    pub fn is_empty(&self) -> (r: bool)
        ensures
            r == (self@.len() == 0),
    {
        self.pending.len() == 0
    }

    /// The number of lookups that are left.
    pub fn len(&self) -> (r: usize)
        ensures
            r == self@.len(),
    {
        self.pending.len()
    }

    /// Removes the lookup that was added last and returns it, or returns
    /// `None` and leaves the queue as it is when nothing is left.
    pub fn try_pop(&mut self) -> (r: Option<Pkg>)
        ensures
            r is Some <==> old(self)@.len() > 0,
            r is None ==> final(self)@ == old(self)@,
            r matches Some(p) ==> p@ == old(self)@.last() && final(self)@ == old(self)@.drop_last(),
    {
        let r = self.pending.pop();
        proof {
            if old(self)@.len() > 0 {
                assert(pkg_views(self.pending@) =~= pkg_views(old(self).pending@).drop_last());
            }
        }
        r
    }
}

} // verus!
