//! The stage that turns a producer into a lighter side branch.

use crate::block::{Block, BlockView};
use crate::generator::Producer;
use vstd::prelude::*;

verus! {

/// A side branch: the blocks of `iter`, each with its difficulty lowered by the
/// penalty of `fork_number`.
#[derive(Debug)]
pub struct Fork<I> {
    /// The producer whose blocks are taken.
    pub iter: I,
    /// How far the difficulty is lowered.
    pub fork_number: usize,
}

impl<I> Fork<I> {
    /// Gives back the producer, where the stage left it.
    pub fn into_inner(self) -> (iter: I)
        ensures
            iter == self.iter,
    {
        self.iter
    }
}

impl<I: Producer> Producer for Fork<I> {
    open spec fn ahead(&self, i: nat) -> Option<BlockView> {
        match self.iter.ahead(i) {
            Some(block) => Some(block.forked(self.fork_number as nat)),
            None => None,
        }
    }

    open spec fn length(&self) -> Option<nat> {
        self.iter.length()
    }

    open spec fn may_advance(&self, n: nat) -> bool {
        self.iter.may_advance(n)
    }

    open spec fn advances_to(&self, after: &Self, steps: nat) -> bool {
        &&& after.fork_number == self.fork_number
        &&& self.iter.advances_to(&after.iter, steps)
    }

    proof fn lemma_may_advance_fewer(&self, n: nat, m: nat) {
        self.iter.lemma_may_advance_fewer(n, m);
    }

    proof fn lemma_consecutive(&self, i: nat, j: nat) {
        self.iter.lemma_consecutive(i, j);
    }

    proof fn lemma_length(&self, i: nat) {
        self.iter.lemma_length(i);
    }

    proof fn lemma_well_formed(&self, i: nat) {
        self.iter.lemma_well_formed(i);
    }

    proof fn lemma_advances_to_itself(&self) {
        self.iter.lemma_advances_to_itself();
    }

    proof fn lemma_advances_to(&self, after: &Self, steps: nat) {
        self.iter.lemma_advances_to(&after.iter, steps);
    }

    proof fn lemma_advances_to_twice(&self, mid: &Self, after: &Self, first: nat, second: nat) {
        self.iter.lemma_advances_to_twice(&mid.iter, &after.iter, first, second);
    }

    fn can_advance(&self) -> (ok: bool) {
        self.iter.can_advance()
    }

    fn duplicate(&self) -> (copy: Self) {
        Fork { iter: self.iter.duplicate(), fork_number: self.fork_number }
    }

    fn next(&mut self) -> (block: Option<Block>) {
        match self.iter.next() {
            Some(block) => Some(block.fork(self.fork_number)),
            None => None,
        }
    }
}

} // verus!
