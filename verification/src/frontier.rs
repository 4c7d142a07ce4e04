//! The frontier: the FIFO queue of pending crawl tasks. Strict
//! insertion order, no capacity bound; popping from the front gives the
//! breadth-first traversal order of the whole crawl.

use vstd::prelude::*;

use crate::token::ParamsView;
use crate::token::ScrapingParams;

verus! {

pub struct Frontier {
    tasks: Vec<ScrapingParams>,
}

impl View for Frontier {
    type V = Seq<ParamsView>;

    closed spec fn view(&self) -> Seq<ParamsView> {
        Seq::new(self.tasks@.len(), |i: int| self.tasks@[i]@)
    }
}

impl Frontier {
    pub fn new() -> (r: Frontier)
        ensures
            r@ =~= Seq::<ParamsView>::empty(),
    {
        Frontier { tasks: Vec::new() }
    }

    pub fn len(&self) -> (n: usize)
        ensures
            n == self@.len(),
    {
        self.tasks.len()
    }

    pub fn is_empty(&self) -> (b: bool)
        ensures
            b == (self@.len() == 0),
    {
        self.tasks.len() == 0
    }

    /// Appends a task at the back; always succeeds.
    pub fn push(&mut self, task: ScrapingParams)
        ensures
            final(self)@ == old(self)@.push(task@),
    {
        let ghost v0 = self@;
        self.tasks.push(task);
        proof {
            assert(self@ =~= v0.push(task@));
        }
    }

    /// Removes and returns the oldest task, or nothing when the queue
    /// is empty.
    pub fn pop(&mut self) -> (r: Option<ScrapingParams>)
        ensures
            match r {
                Some(t) => old(self)@.len() > 0 && t@ == old(self)@.first() && final(self)@ == old(
                    self,
                )@.drop_first(),
                None => old(self)@.len() == 0 && final(self)@ == old(self)@,
            },
    {
        let ghost v0 = self@;
        if self.tasks.len() == 0 {
            return None;
        }
        let t = self.tasks.remove(0);
        proof {
            assert(self@ =~= v0.drop_first());
        }
        Some(t)
    }
}

} // verus!
