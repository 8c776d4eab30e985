//! What holds of every chain that the stages produce.

use crate::block::lemma_encoding_unique;
use crate::bloom::Bloom;
use crate::complete::{completed_at, encoded_at, finalizer_at, FinalizerView};
use crate::fork::Fork;
use crate::generator::{ChainGenerator, Producer};
use crate::hash::H2048;
use crate::take::Take;
use crate::transaction::{SignedTransaction, Transaction};
use vstd::prelude::*;

verus! {

/// Completed blocks are linked. Every block after the first that comes out of a
/// completion has the hash of the block before it as the hash of its parent; its
/// number follows that block's number, and is the first block's number plus its
/// position.
pub proof fn lemma_linkage<I: Producer>(producer: &I, start: FinalizerView, i: nat)
    requires
        i > 0,
        producer.ahead(i) is Some,
    ensures
        completed_at(producer, start, (i - 1) as nat) is Some,
        completed_at(producer, start, i)->0.parent_hash == completed_at(
            producer,
            start,
            (i - 1) as nat,
        )->0.hash(),
        completed_at(producer, start, i)->0.number == completed_at(
            producer,
            start,
            (i - 1) as nat,
        )->0.number + 1,
        completed_at(producer, start, i)->0.number == completed_at(producer, start, 0)->0.number
            + i,
{
    producer.lemma_consecutive((i - 1) as nat, i);
    producer.lemma_consecutive(0, i);
}

/// Completed blocks differ. No two blocks that come out of one completion have
/// the same byte form, as far as byte forms fit the memory of a machine.
pub proof fn lemma_completed_distinct<I: Producer>(
    producer: &I,
    start: FinalizerView,
    i: nat,
    j: nat,
)
    requires
        i < j,
        encoded_at(producer, start, i) is Some,
        encoded_at(producer, start, j) is Some,
        encoded_at(producer, start, i)->0.len() <= u64::MAX,
        encoded_at(producer, start, j)->0.len() <= u64::MAX,
    ensures
        encoded_at(producer, start, i) != encoded_at(producer, start, j),
{
    producer.lemma_consecutive(i, j);
    producer.lemma_well_formed(i);
    producer.lemma_well_formed(j);
    let first = completed_at(producer, start, i)->0;
    let second = completed_at(producer, start, j)->0;
    if first.encoding() == second.encoding() {
        lemma_linkage(producer, start, j);
        lemma_encoding_unique(first, second);
    }
}

/// The first completed block has what the finalizer held as the hash of its
/// parent: the zero hash where the finalizer was fresh.
pub proof fn lemma_first_parent<I: Producer>(producer: &I, start: FinalizerView)
    requires
        producer.ahead(0) is Some,
    ensures
        completed_at(producer, start, 0)->0.parent_hash == start.parent_hash,
{
}

/// Completing block by block is completing the sequence: after one block is taken
/// from `before`, what the producer then is and the finalizer then holds go on
/// with the second block of `before` as it would have come.
pub proof fn lemma_completion_goes_on<I: Producer>(
    before: &I,
    after: &I,
    start: FinalizerView,
    i: nat,
)
    requires
        before.advances_to(after, 1),
    ensures
        finalizer_at(after, start.after(before.ahead(0)), i) == finalizer_at(before, start, i + 1),
        completed_at(after, start.after(before.ahead(0)), i) == completed_at(before, start, i + 1),
    decreases i,
{
    before.lemma_advances_to(after, 1);
    reveal_with_fuel(finalizer_at, 2);
    if i > 0 {
        lemma_completion_goes_on(before, after, start, (i - 1) as nat);
        assert(after.ahead((i - 1) as nat) == before.ahead(i));
    }
    assert(after.ahead(i) == before.ahead(i + 1));
}

/// A side branch diverges from the chain it was forked from. Block for block it
/// has the chain's numbers; wherever the chain's block has any difficulty, the
/// branch's block has less; and completed with a copy of the chain's finalizer,
/// its first block has the same parent as the chain's next block.
pub proof fn lemma_fork_divergence<I: Producer>(
    canon: &I,
    branch: &Fork<I>,
    start: FinalizerView,
    i: nat,
)
    requires
        canon.advances_to(&branch.iter, 0),
        canon.ahead(i) is Some,
    ensures
        branch.ahead(i) is Some,
        branch.ahead(i)->0.number == canon.ahead(i)->0.number,
        canon.ahead(i)->0.difficulty > 0 ==> branch.ahead(i)->0.difficulty < canon.ahead(
            i,
        )->0.difficulty,
        completed_at(branch, start, 0) is Some,
        completed_at(branch, start, 0)->0.parent_hash == completed_at(
            canon,
            start,
            0,
        )->0.parent_hash,
{
    canon.lemma_advances_to(&branch.iter, 0);
    canon.lemma_consecutive(0, i);
    assert(branch.iter.ahead(i) == canon.ahead(i + 0));
    assert(branch.iter.ahead(0) == canon.ahead(0 + 0));
}

/// A bloom filter set on one branch stays on that branch. Of a chain and a branch
/// forked from it, the one that goes through a bloom stage has that bloom filter on
/// every block, and the other has the bloom filters that the chain's blocks had.
pub proof fn lemma_bloom_on_one_branch<I: Producer>(
    canon: &I,
    branch: &Fork<I>,
    bloom: H2048,
    i: nat,
)
    requires
        canon.advances_to(&branch.iter, 0),
        canon.ahead(i) is Some,
    ensures
        (Bloom { iter: *branch, bloom }).ahead(i) == Some(branch.ahead(i)->0.with_bloom(bloom@)),
        (Bloom { iter: *canon, bloom }).ahead(i) == Some(canon.ahead(i)->0.with_bloom(bloom@)),
        branch.ahead(i)->0.bloom == canon.ahead(i)->0.bloom,
{
    canon.lemma_advances_to(&branch.iter, 0);
    assert(branch.iter.ahead(i) == canon.ahead(i + 0));
}

/// The blocks of the base generator have no bloom filter, and neither have those
/// of a branch forked from it.
pub proof fn lemma_no_bloom_unless_set(
    generator: &ChainGenerator,
    branch: &Fork<ChainGenerator>,
    i: nat,
)
    requires
        generator.advances_to(&branch.iter, 0),
    ensures
        generator.ahead(i)->0.bloom is None,
        branch.ahead(i)->0.bloom is None,
{
}

/// Bloom and transaction stages may come in either order: the blocks are the same,
/// each with the bloom filter and with the transaction after those it had.
pub proof fn lemma_stage_order<I: Producer>(
    source: I,
    bloom: H2048,
    transaction: SignedTransaction,
    i: nat,
)
    ensures
        ({
            let bloom_first = Transaction { iter: Bloom { iter: source, bloom }, transaction };
            let bloom_last = Bloom { iter: Transaction { iter: source, transaction }, bloom };
            &&& bloom_first.ahead(i) == bloom_last.ahead(i)
            &&& source.ahead(i) is Some ==> {
                &&& bloom_first.ahead(i) == Some(
                    source.ahead(i)->0.with_bloom(bloom@).with_transaction(transaction@),
                )
                &&& bloom_first.ahead(i)->0.bloom == Some(bloom@)
                &&& bloom_first.ahead(i)->0.transactions == source.ahead(i)->0.transactions.push(
                    transaction@,
                )
            }
        }),
{
}

/// Asking for `count` blocks of a sequence that does not end gives `count` blocks:
/// the cut sequence has a block at every position below `count` and at no other.
/// Completed, the blocks are numbered one after another, each is linked to the one
/// before it, and no two are the same.
pub proof fn lemma_bulk_generation<I: Producer>(
    source: I,
    count: usize,
    start: FinalizerView,
    i: nat,
    j: nat,
)
    requires
        forall|n: nat| (#[trigger] source.ahead(n)) is Some,
        i < j < count,
    ensures
        ({
            let cut = Take { iter: source, remaining: count };
            &&& forall|n: nat| (#[trigger] cut.ahead(n)) is Some <==> n < count
            &&& completed_at(&cut, start, j)->0.number == completed_at(&cut, start, i)->0.number
                + (j - i)
            &&& completed_at(&cut, start, j)->0.parent_hash == completed_at(
                &cut,
                start,
                (j - 1) as nat,
            )->0.hash()
            &&& completed_at(&cut, start, i) != completed_at(&cut, start, j)
        }),
{
    let cut = Take { iter: source, remaining: count };
    assert(source.ahead(j) is Some);
    cut.lemma_consecutive(i, j);
    lemma_linkage(&cut, start, j);
}

} // verus!
