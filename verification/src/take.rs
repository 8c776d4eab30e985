//! The stage that ends a sequence after a number of blocks.

use crate::block::{Block, BlockView};
use crate::generator::Producer;
use vstd::prelude::*;

verus! {

/// The first `remaining` blocks of `iter`, and no more.
#[derive(Debug)]
pub struct Take<I> {
    /// The producer whose blocks are taken.
    pub iter: I,
    /// How many blocks are still to come.
    pub remaining: usize,
}

/// The smaller of two numbers.
pub open spec fn at_most(n: nat, limit: nat) -> nat {
    if n <= limit {
        n
    } else {
        limit
    }
}

impl<I> Take<I> {
    /// Gives back the producer, where the stage left it.
    pub fn into_inner(self) -> (iter: I)
        ensures
            iter == self.iter,
    {
        self.iter
    }
}

impl<I: Producer> Producer for Take<I> {
    open spec fn ahead(&self, i: nat) -> Option<BlockView> {
        if i < self.remaining {
            self.iter.ahead(i)
        } else {
            None
        }
    }

    open spec fn length(&self) -> Option<nat> {
        match self.iter.length() {
            Some(length) => Some(at_most(length, self.remaining as nat)),
            None => Some(self.remaining as nat),
        }
    }

    open spec fn may_advance(&self, n: nat) -> bool {
        self.remaining == 0 || self.iter.may_advance(at_most(n, self.remaining as nat))
    }

    open spec fn advances_to(&self, after: &Self, steps: nat) -> bool {
        &&& after.remaining == self.remaining - at_most(steps, self.remaining as nat)
        &&& self.iter.advances_to(&after.iter, at_most(steps, self.remaining as nat))
    }

    proof fn lemma_may_advance_fewer(&self, n: nat, m: nat) {
        if self.remaining != 0 {
            self.iter.lemma_may_advance_fewer(
                at_most(n, self.remaining as nat),
                at_most(m, self.remaining as nat),
            );
        }
    }

    proof fn lemma_consecutive(&self, i: nat, j: nat) {
        self.iter.lemma_consecutive(i, j);
    }

    proof fn lemma_length(&self, i: nat) {
        self.iter.lemma_length(i);
    }

    proof fn lemma_well_formed(&self, i: nat) {
        self.iter.lemma_well_formed(i);
    }

    proof fn lemma_advances_to_itself(&self) {
        self.iter.lemma_advances_to_itself();
    }

    proof fn lemma_advances_to(&self, after: &Self, steps: nat) {
        let most = self.remaining as nat;
        let inner = at_most(steps, most);
        self.iter.lemma_advances_to(&after.iter, inner);
        assert forall|i: nat| #[trigger] after.ahead(i) == self.ahead(i + steps) by {
            if i < after.remaining {
                assert(after.iter.ahead(i) == self.iter.ahead(i + inner));
            }
        }
        assert forall|n: nat| self.may_advance(n + steps) implies #[trigger] after.may_advance(
            n,
        ) by {
            if after.remaining != 0 {
                let reach = at_most(n, after.remaining as nat);
                assert(at_most(n + steps, most) == reach + inner);
                assert(self.iter.may_advance(reach + inner));
            }
        }
    }

    proof fn lemma_advances_to_twice(&self, mid: &Self, after: &Self, first: nat, second: nat) {
        self.iter.lemma_advances_to_twice(
            &mid.iter,
            &after.iter,
            at_most(first, self.remaining as nat),
            at_most(second, mid.remaining as nat),
        );
    }

    fn can_advance(&self) -> (ok: bool) {
        self.remaining == 0 || self.iter.can_advance()
    }

    fn duplicate(&self) -> (copy: Self) {
        Take { iter: self.iter.duplicate(), remaining: self.remaining }
    }

    fn next(&mut self) -> (block: Option<Block>) {
        if self.remaining == 0 {
            proof {
                self.iter.lemma_advances_to_itself();
            }
            None
        } else {
            self.remaining -= 1;
            self.iter.next()
        }
    }
}

} // verus!
