//! The finalizer and the stage that completes blocks.

use crate::block::BlockView;
use crate::generator::Producer;
use crate::hash::{keccak256, keccak256_digest, zero_bytes, H256};
use crate::laws::lemma_completed_distinct;
use vstd::prelude::*;

verus! {

/// Links completed blocks: it holds the hash of the block completed last, which
/// the next block gets as the hash of its parent, and counts the blocks.
#[derive(Debug)]
pub struct BlockFinalizer {
    parent_hash: H256,
    sequence: u64,
}

/// What a [`BlockFinalizer`] holds, as mathematical values.
pub ghost struct FinalizerView {
    /// Hash of the block completed last; all zeros before the first.
    pub parent_hash: Seq<u8>,
    /// Number of blocks completed.
    pub sequence: nat,
}

impl FinalizerView {
    /// The finalizer after a block with hash `hash` was completed.
    pub open spec fn committed(self, hash: Seq<u8>) -> FinalizerView {
        FinalizerView { parent_hash: hash, sequence: self.sequence + 1 }
    }

    /// The finalizer after `block` went through completion; the same where there
    /// was no block.
    pub open spec fn after(self, block: Option<BlockView>) -> FinalizerView {
        match block {
            Some(block) => self.committed(block.with_parent(self.parent_hash).hash()),
            None => self,
        }
    }
}

impl View for BlockFinalizer {
    type V = FinalizerView;

    closed spec fn view(&self) -> FinalizerView {
        FinalizerView { parent_hash: self.parent_hash@, sequence: self.sequence as nat }
    }
}

impl Default for BlockFinalizer {
    /// A fresh finalizer: no block completed, the zero hash for the first parent.
    fn default() -> (finalizer: BlockFinalizer)
        ensures
            finalizer@ == (FinalizerView { parent_hash: zero_bytes(32), sequence: 0 }),
    {
        BlockFinalizer { parent_hash: H256::zero(), sequence: 0 }
    }
}

impl BlockFinalizer {
    /// A second finalizer in the same state, for a side branch. The two go on
    /// apart: what one completes the other does not see.
    pub fn fork(&self) -> (branch: BlockFinalizer)
        ensures
            branch@ == self@,
    {
        BlockFinalizer { parent_hash: self.parent_hash, sequence: self.sequence }
    }

    /// The hash that the next completed block gets as the hash of its parent.
    pub fn parent_hash(&self) -> (hash: H256)
        ensures
            hash@ == self@.parent_hash,
    {
        self.parent_hash
    }

    /// The number of blocks completed.
    pub fn sequence(&self) -> (sequence: u64)
        ensures
            sequence == self@.sequence,
    {
        self.sequence
    }

    /// Records `hash` as the hash of the block completed last. The completion
    /// stage does this once for each block; nothing else in the library does.
    pub fn commit(&mut self, hash: H256)
        requires
            old(self)@.sequence < u64::MAX,
        ensures
            final(self)@ == old(self)@.committed(hash@),
    {
        self.parent_hash = hash;
        self.sequence += 1;
    }
}

/// The finalizer after the first `count` blocks of `producer` went through
/// completion, one after another, where it was `start` before.
pub open spec fn finalizer_at<I: Producer>(
    producer: &I,
    start: FinalizerView,
    count: nat,
) -> FinalizerView
    decreases count,
{
    if count == 0 {
        start
    } else {
        finalizer_at(producer, start, (count - 1) as nat).after(
            producer.ahead((count - 1) as nat),
        )
    }
}

/// The block that comes `i`-th out of the completion of `producer`, where the
/// finalizer was `start` before: the producer's block, with the hash of the block
/// completed before it for its parent.
pub open spec fn completed_at<I: Producer>(producer: &I, start: FinalizerView, i: nat) -> Option<
    BlockView,
> {
    match producer.ahead(i) {
        Some(block) => Some(block.with_parent(finalizer_at(producer, start, i).parent_hash)),
        None => None,
    }
}

/// The byte form of the block that comes `i`-th out of the completion of
/// `producer`, where the finalizer was `start` before.
pub open spec fn encoded_at<I: Producer>(producer: &I, start: FinalizerView, i: nat) -> Option<
    Seq<u8>,
> {
    match completed_at(producer, start, i) {
        Some(block) => Some(block.encoding()),
        None => None,
    }
}

/// The blocks of `iter`, completed: each linked by `finalizer` to the one before
/// it, and in byte form.
pub struct Complete<'a, I> {
    /// The producer whose blocks are taken.
    pub iter: &'a mut I,
    /// The finalizer that links the blocks.
    pub finalizer: &'a mut BlockFinalizer,
}

impl<'a, I: Producer> Complete<'a, I> {
    /// Whether the stage may take `n` more blocks within the range of the machine's
    /// integers.
    pub open spec fn may_advance(&self, n: nat) -> bool {
        &&& self.iter.may_advance(n)
        &&& self.finalizer@.sequence + n <= u64::MAX
    }

    /// Tells whether `next` may be called. (`next` may also be called at the end of
    /// the sequence, whatever the finalizer has counted.)
    pub fn can_advance(&self) -> (ok: bool)
        ensures
            ok == self.may_advance(1),
    {
        self.iter.can_advance() && self.finalizer.sequence() < u64::MAX
    }

    /// Takes the next block and completes it.
    ///
    /// The block gets the hash that the finalizer holds as `parent_hash`; its byte
    /// form is returned, and the finalizer then holds the digest of these bytes and
    /// has counted one block more. At the end of the sequence nothing is returned
    /// and the finalizer stays as it is.
    pub fn next(&mut self) -> (bytes: Option<Vec<u8>>)
        requires
            old(self).iter.may_advance(1),
            old(self).iter.ahead(0) is Some ==> old(self).finalizer@.sequence < u64::MAX,
        ensures
            bytes is Some == old(self).iter.ahead(0) is Some,
            bytes is Some ==> bytes->0@ == old(self).iter.ahead(0)->0.with_parent(
                old(self).finalizer@.parent_hash,
            ).encoding(),
            final(self).finalizer@ == old(self).finalizer@.after(old(self).iter.ahead(0)),
            old(self).iter.advances_to(final(self).iter, 1),
            *final(final(self).iter) == *final(old(self).iter),
            *final(final(self).finalizer) == *final(old(self).finalizer),
    {
        match self.iter.next() {
            Some(block) => {
                let bytes = block.complete(self.finalizer.parent_hash());
                let hash = keccak256(bytes.as_slice());
                self.finalizer.commit(hash);
                Some(bytes)
            },
            None => None,
        }
    }

    /// Completes the blocks up to the end of the sequence and gives their byte
    /// forms in order. The sequence has to end: a producer that never ends is cut
    /// with `take` first.
    ///
    /// No two of the byte forms are the same. The producer is left one advance past
    /// its last block, and the finalizer where the last block left it.
    pub fn collect(&mut self) -> (out: Vec<Vec<u8>>)
        requires
            old(self).iter.length() is Some,
            old(self).iter.may_advance(old(self).iter.length()->0 + 1),
            old(self).finalizer@.sequence + old(self).iter.length()->0 <= u64::MAX,
        ensures
            out.len() == old(self).iter.length()->0,
            forall|i: nat|
                i < out.len() ==> #[trigger] encoded_at(old(self).iter, old(self).finalizer@, i)
                    == Some(out[i as int]@),
            forall|i: int, j: int| 0 <= i < j < out.len() ==> out[i]@ != out[j]@,
            final(self).finalizer@ == finalizer_at(
                old(self).iter,
                old(self).finalizer@,
                out.len() as nat,
            ),
            final(self).finalizer@.sequence == old(self).finalizer@.sequence + out.len(),
            final(self).finalizer@.parent_hash == if out.len() == 0 {
                old(self).finalizer@.parent_hash
            } else {
                keccak256_digest(out[out.len() - 1]@)
            },
            old(self).iter.advances_to(final(self).iter, (out.len() + 1) as nat),
            *final(final(self).iter) == *final(old(self).iter),
            *final(final(self).finalizer) == *final(old(self).finalizer),
    {
        let ghost first = *old(self).iter;
        let ghost start = old(self).finalizer@;
        let ghost bound = first.length()->0;
        let mut out: Vec<Vec<u8>> = Vec::new();
        proof {
            first.lemma_advances_to_itself();
            first.lemma_length(bound);
        }
        loop
            invariant_except_break
                out.len() <= bound,
                first.advances_to(self.iter, out.len() as nat),
            invariant
                first.ahead(bound) is None,
                first.may_advance(bound + 1),
                start.sequence + bound <= u64::MAX,
                self.finalizer@ == finalizer_at(&first, start, out.len() as nat),
                self.finalizer@.sequence == start.sequence + out.len(),
                self.finalizer@.parent_hash == if out.len() == 0 {
                    start.parent_hash
                } else {
                    keccak256_digest(out[out.len() - 1]@)
                },
                forall|i: nat|
                    i < out.len() ==> #[trigger] encoded_at(&first, start, i) == Some(
                        out[i as int]@,
                    ),
                *final(self.iter) == *final(old(self).iter),
                *final(self.finalizer) == *final(old(self).finalizer),
            ensures
                first.ahead(out.len() as nat) is None,
                first.advances_to(self.iter, (out.len() + 1) as nat),
            decreases bound - out.len(),
        {
            let ghost before = *self.iter;
            let ghost done = out.len() as nat;
            proof {
                first.lemma_advances_to(&before, done);
                assert(before.may_advance((bound + 1 - done) as nat));
                before.lemma_may_advance_fewer((bound + 1 - done) as nat, 1);
                assert(before.ahead(0) == first.ahead((0 + done) as nat));
                assert(before.ahead((bound - done) as nat) == first.ahead(
                    ((bound - done) + done) as nat,
                ));
            }
            let next = self.next();
            proof {
                first.lemma_advances_to_twice(&before, self.iter, done, 1);
            }
            match next {
                Some(bytes) => {
                    out.push(bytes);
                    assert(encoded_at(&first, start, done) == Some(bytes@));
                },
                None => {
                    break ;
                },
            }
        }
        proof {
            first.lemma_length(out.len() as nat);
            if out.len() > 0 {
                assert(encoded_at(&first, start, (out.len() - 1) as nat) is Some);
                first.lemma_length((out.len() - 1) as nat);
            }
        }
        assert forall|i: int, j: int| 0 <= i < j < out.len() implies out[i]@ != out[j]@ by {
            assert(encoded_at(&first, start, i as nat) == Some(out[i]@));
            assert(encoded_at(&first, start, j as nat) == Some(out[j]@));
            assert(out[i]@.len() == out[i].len() <= usize::MAX);
            assert(out[j]@.len() == out[j].len() <= usize::MAX);
            lemma_completed_distinct(&first, start, i as nat, j as nat);
        }
        out
    }
}

} // verus!
