//! Producers of blocks, the base generator and the stages that every producer offers.

use crate::block::{Block, BlockView};
use crate::bloom::Bloom;
use crate::complete::{BlockFinalizer, Complete};
use crate::fork::Fork;
use crate::hash::{zero_bytes, H2048};
use crate::take::Take;
use crate::transaction::{SignedTransaction, Transaction};
use crate::uint::U256;
use vstd::prelude::*;

verus! {

/// The view of a block that may be missing.
pub open spec fn block_view(block: Option<Block>) -> Option<BlockView> {
    match block {
        Some(block) => Some(block@),
        None => None,
    }
}

/// A source of blocks that hands them out one at a time.
///
/// A producer stands for the sequence of blocks still to come, `ahead(0)`,
/// `ahead(1)` and so on, which ends where `ahead` is `None`. Along it the block
/// numbers go up by one.
pub trait Producer: Sized {
    /// The block that the advance after `i` others returns; `None` where the
    /// sequence has ended by then.
    spec fn ahead(&self, i: nat) -> Option<BlockView>;

    /// The number of blocks to come; `None` where the sequence does not end.
    spec fn length(&self) -> Option<nat>;

    /// Whether `n` more advances stay within the range of the machine's integers.
    spec fn may_advance(&self, n: nat) -> bool;

    /// Whether `after` is this producer `steps` advances later.
    spec fn advances_to(&self, after: &Self, steps: nat) -> bool;

    /// No advance is always in range, and where `n` advances are, so are fewer.
    proof fn lemma_may_advance_fewer(&self, n: nat, m: nat)
        requires
            self.may_advance(n),
            m <= n,
        ensures
            self.may_advance(m),
            self.may_advance(0),
    ;

    /// Before a block that comes, every block comes, and their numbers go up by one.
    proof fn lemma_consecutive(&self, i: nat, j: nat)
        requires
            i <= j,
            self.ahead(j) is Some,
        ensures
            self.ahead(i) is Some,
            self.ahead(j)->0.number == self.ahead(i)->0.number + (j - i),
    ;

    /// The sequence has a block at every position below its length, and at no
    /// other.
    proof fn lemma_length(&self, i: nat)
        ensures
            self.ahead(i) is Some <==> (self.length() is Some ==> i < self.length()->0),
    ;

    /// Every block to come is well formed.
    proof fn lemma_well_formed(&self, i: nat)
        requires
            self.ahead(i) is Some,
        ensures
            self.ahead(i)->0.well_formed(),
    ;

    /// No advance leaves a producer as it is.
    proof fn lemma_advances_to_itself(&self)
        ensures
            self.advances_to(self, 0),
    ;

    /// `steps` advances drop the first `steps` blocks of the sequence and use up as
    /// many of the advances that are in range.
    proof fn lemma_advances_to(&self, after: &Self, steps: nat)
        requires
            self.advances_to(after, steps),
        ensures
            forall|i: nat| #[trigger] after.ahead(i) == self.ahead(i + steps),
            forall|n: nat| self.may_advance(n + steps) ==> #[trigger] after.may_advance(n),
    ;

    /// Advances add up.
    proof fn lemma_advances_to_twice(&self, mid: &Self, after: &Self, first: nat, second: nat)
        requires
            self.advances_to(mid, first),
            mid.advances_to(after, second),
        ensures
            self.advances_to(after, first + second),
    ;

    /// Tells whether `next` may be called.
    fn can_advance(&self) -> (ok: bool)
        ensures
            ok == self.may_advance(1),
    ;

    /// A second producer at the same position. The two go on apart: advancing one
    /// leaves the other where it is.
    fn duplicate(&self) -> (copy: Self)
        ensures
            self.advances_to(&copy, 0),
    ;

    /// Hands out the next block, or `None` at the end of the sequence.
    fn next(&mut self) -> (block: Option<Block>)
        requires
            old(self).may_advance(1),
        ensures
            block_view(block) == old(self).ahead(0),
            old(self).advances_to(final(self), 1),
    ;
}

/// The stages that wrap a producer. Every producer has them.
///
/// A stage is a producer again, so stages stack in any order. A stage owns the
/// producer that it wraps and gives it back with `into_inner`; the completion
/// stage borrows its producer and its finalizer instead.
pub trait ChainIterator: Producer {
    /// Starts a side branch at the producer's position: a duplicate that goes on
    /// alone, with the same block numbers and lower difficulty.
    fn fork(&self, fork_number: usize) -> (branch: Fork<Self>)
        ensures
            self.advances_to(&branch.iter, 0),
            branch.fork_number == fork_number,
    ;

    /// Gives every block the bloom filter `bloom`.
    fn with_bloom(self, bloom: H2048) -> (stage: Bloom<Self>)
        ensures
            stage.iter == self,
            stage.bloom == bloom,
    ;

    /// Adds `transaction` to every block.
    fn with_transaction(self, transaction: SignedTransaction) -> (stage: Transaction<Self>)
        ensures
            stage.iter == self,
            stage.transaction == transaction,
    ;

    /// Ends the sequence after `count` blocks.
    fn take(self, count: usize) -> (stage: Take<Self>)
        ensures
            stage.iter == self,
            stage.remaining == count,
    ;

    /// Completes every block that is taken through the stage: `finalizer` links it
    /// to the block completed before it.
    fn complete<'a>(&'a mut self, finalizer: &'a mut BlockFinalizer) -> (stage: Complete<
        'a,
        Self,
    >)
        ensures
            *stage.iter == *old(self),
            *final(stage.iter) == *final(self),
            *stage.finalizer == *old(finalizer),
            *final(stage.finalizer) == *final(finalizer),
    ;

    /// Takes the next block and completes it.
    ///
    /// The block gets the hash that `finalizer` holds as `parent_hash`; its byte
    /// form is returned, and `finalizer` then holds the digest of these bytes and
    /// has counted one block more. At the end of the sequence nothing is returned
    /// and `finalizer` stays as it is.
    fn generate(&mut self, finalizer: &mut BlockFinalizer) -> (bytes: Option<Vec<u8>>)
        requires
            old(self).may_advance(1),
            old(self).ahead(0) is Some ==> old(finalizer)@.sequence < u64::MAX,
        ensures
            bytes is Some == old(self).ahead(0) is Some,
            bytes is Some ==> bytes->0@ == old(self).ahead(0)->0.with_parent(
                old(finalizer)@.parent_hash,
            ).encoding(),
            final(finalizer)@ == old(finalizer)@.after(old(self).ahead(0)),
            old(self).advances_to(final(self), 1),
    ;
}

impl<I: Producer> ChainIterator for I {
    fn fork(&self, fork_number: usize) -> (branch: Fork<Self>) {
        Fork { iter: self.duplicate(), fork_number }
    }

    fn with_bloom(self, bloom: H2048) -> (stage: Bloom<Self>) {
        Bloom { iter: self, bloom }
    }

    fn with_transaction(self, transaction: SignedTransaction) -> (stage: Transaction<Self>) {
        Transaction { iter: self, transaction }
    }

    fn take(self, count: usize) -> (stage: Take<Self>) {
        Take { iter: self, remaining: count }
    }

    fn complete<'a>(&'a mut self, finalizer: &'a mut BlockFinalizer) -> (stage: Complete<
        'a,
        Self,
    >) {
        Complete { iter: self, finalizer }
    }

    fn generate(&mut self, finalizer: &mut BlockFinalizer) -> (bytes: Option<Vec<u8>>) {
        self.complete(finalizer).next()
    }
}

/// The base producer: blocks numbered from `number` on, each of difficulty
/// `difficulty`, with no parent hash, bloom filter or transaction yet.
#[derive(Debug)]
pub struct ChainGenerator {
    /// Next block number.
    number: u64,
    /// Next block difficulty.
    difficulty: U256,
}

/// What a [`ChainGenerator`] holds, as numbers.
pub ghost struct GeneratorView {
    pub number: nat,
    pub difficulty: nat,
}

impl View for ChainGenerator {
    type V = GeneratorView;

    closed spec fn view(&self) -> GeneratorView {
        GeneratorView { number: self.number as nat, difficulty: self.difficulty@ }
    }
}

impl Clone for ChainGenerator {
    /// A generator at the same number, of the same difficulty.
    fn clone(&self) -> (generator: ChainGenerator)
        ensures
            generator == *self,
    {
        ChainGenerator { number: self.number, difficulty: self.difficulty }
    }
}

impl ChainGenerator {
    /// A generator whose first block has the given number, and every block the
    /// given difficulty.
    pub fn new(number: u64, difficulty: U256) -> (generator: ChainGenerator)
        ensures
            generator@ == (GeneratorView { number: number as nat, difficulty: difficulty@ }),
    {
        ChainGenerator { number, difficulty }
    }

    /// The number of the next block.
    pub fn number(&self) -> (number: u64)
        ensures
            number == self@.number,
    {
        self.number
    }

    /// The difficulty of every block.
    pub fn difficulty(&self) -> (difficulty: U256)
        ensures
            difficulty@ == self@.difficulty,
    {
        self.difficulty
    }

    fn prepare_block(&self) -> (block: Block)
        ensures
            Some(block@) == self.ahead(0),
    {
        let mut block = Block::default();
        block.number = self.number;
        block.difficulty = self.difficulty;
        block
    }
}

impl Default for ChainGenerator {
    /// The generator that starts at block zero with difficulty 1000.
    fn default() -> (generator: ChainGenerator)
        ensures
            generator@ == (GeneratorView { number: 0, difficulty: 1000 }),
    {
        ChainGenerator { number: 0, difficulty: U256::from(1000u64) }
    }
}

impl Producer for ChainGenerator {
    open spec fn ahead(&self, i: nat) -> Option<BlockView> {
        Some(
            BlockView {
                number: self@.number + i,
                difficulty: self@.difficulty,
                parent_hash: zero_bytes(32),
                bloom: None,
                transactions: Seq::empty(),
            },
        )
    }

    open spec fn length(&self) -> Option<nat> {
        None
    }

    open spec fn may_advance(&self, n: nat) -> bool {
        self@.number + n <= u64::MAX
    }

    open spec fn advances_to(&self, after: &Self, steps: nat) -> bool {
        after@ == (GeneratorView { number: self@.number + steps, ..self@ })
    }

    proof fn lemma_may_advance_fewer(&self, n: nat, m: nat) {
    }

    proof fn lemma_consecutive(&self, i: nat, j: nat) {
    }

    proof fn lemma_length(&self, i: nat) {
    }

    proof fn lemma_well_formed(&self, i: nat) {
    }

    proof fn lemma_advances_to_itself(&self) {
    }

    proof fn lemma_advances_to(&self, after: &Self, steps: nat) {
    }

    proof fn lemma_advances_to_twice(&self, mid: &Self, after: &Self, first: nat, second: nat) {
    }

    fn can_advance(&self) -> (ok: bool) {
        self.number < u64::MAX
    }

    fn duplicate(&self) -> (copy: Self) {
        self.clone()
    }

    fn next(&mut self) -> (block: Option<Block>) {
        let block = self.prepare_block();
        self.number += 1;
        Some(block)
    }
}

} // verus!
