//! Signed transactions, and the stage that adds one to every block.

use crate::block::{Block, BlockView};
use crate::generator::Producer;
use vstd::prelude::*;

verus! {

/// A signed transaction, held as the bytes that stand for it in a block. Nothing
/// here looks inside them.
#[derive(Debug, PartialEq, Eq)]
pub struct SignedTransaction(pub Vec<u8>);

impl View for SignedTransaction {
    type V = Seq<u8>;

    open spec fn view(&self) -> Seq<u8> {
        self.0@
    }
}

impl Clone for SignedTransaction {
    /// A transaction of the same bytes.
    fn clone(&self) -> (r: Self)
        ensures
            r@ == self@,
    {
        let r = SignedTransaction(self.0.clone());
        assert(r@ =~= self@);
        r
    }
}

/// The blocks of `iter`, each with `transaction` added after the transactions it
/// had.
#[derive(Debug)]
pub struct Transaction<I> {
    /// The producer whose blocks are taken.
    pub iter: I,
    /// The transaction that every block gets.
    pub transaction: SignedTransaction,
}

impl<I> Transaction<I> {
    /// Gives back the producer, where the stage left it.
    pub fn into_inner(self) -> (iter: I)
        ensures
            iter == self.iter,
    {
        self.iter
    }
}

impl<I: Producer> Producer for Transaction<I> {
    open spec fn ahead(&self, i: nat) -> Option<BlockView> {
        match self.iter.ahead(i) {
            Some(block) => Some(block.with_transaction(self.transaction@)),
            None => None,
        }
    }

    open spec fn length(&self) -> Option<nat> {
        self.iter.length()
    }

    open spec fn may_advance(&self, n: nat) -> bool {
        self.iter.may_advance(n)
    }

    open spec fn advances_to(&self, after: &Self, steps: nat) -> bool {
        &&& after.transaction@ == self.transaction@
        &&& self.iter.advances_to(&after.iter, steps)
    }

    proof fn lemma_may_advance_fewer(&self, n: nat, m: nat) {
        self.iter.lemma_may_advance_fewer(n, m);
    }

    proof fn lemma_consecutive(&self, i: nat, j: nat) {
        self.iter.lemma_consecutive(i, j);
    }

    proof fn lemma_length(&self, i: nat) {
        self.iter.lemma_length(i);
    }

    proof fn lemma_well_formed(&self, i: nat) {
        self.iter.lemma_well_formed(i);
    }

    proof fn lemma_advances_to_itself(&self) {
        self.iter.lemma_advances_to_itself();
    }

    proof fn lemma_advances_to(&self, after: &Self, steps: nat) {
        self.iter.lemma_advances_to(&after.iter, steps);
    }

    proof fn lemma_advances_to_twice(&self, mid: &Self, after: &Self, first: nat, second: nat) {
        self.iter.lemma_advances_to_twice(&mid.iter, &after.iter, first, second);
    }

    fn can_advance(&self) -> (ok: bool) {
        self.iter.can_advance()
    }

    fn duplicate(&self) -> (copy: Self) {
        Transaction { iter: self.iter.duplicate(), transaction: self.transaction.clone() }
    }

    fn next(&mut self) -> (block: Option<Block>) {
        match self.iter.next() {
            Some(block) => Some(block.with_transaction(self.transaction.clone())),
            None => None,
        }
    }
}

} // verus!
