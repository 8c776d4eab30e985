//! The block record and its byte form.

use crate::endian::{be_bytes, lemma_be_value_of_be_bytes, u64_to_be_bytes};
use crate::hash::{keccak256_digest, zero_bytes, H2048, H256};
use crate::rlp::{
    append_list, append_str, lemma_list_len, lemma_list_unique, lemma_str_len,
    lemma_strs_unique, lemma_two_strs_unique, rlp_list, rlp_str, rlp_strs,
};
use crate::transaction::SignedTransaction;
use crate::uint::U256;
use vstd::prelude::*;

verus! {

/// A block: a header of number, difficulty, parent hash and bloom filter, and a
/// body of transactions.
#[derive(Debug, PartialEq, Eq)]
pub struct Block {
    /// Position in the chain.
    pub number: u64,
    /// Weight of the block when two branches are compared.
    pub difficulty: U256,
    /// Hash of the block before this one; all zeros until the block is completed.
    pub parent_hash: H256,
    /// Bloom filter, where a stage has set one.
    pub bloom: Option<H2048>,
    /// Transactions, in the order in which they were added.
    pub transactions: Vec<SignedTransaction>,
}

/// What a [`Block`] holds, as mathematical values.
pub ghost struct BlockView {
    pub number: nat,
    pub difficulty: nat,
    pub parent_hash: Seq<u8>,
    pub bloom: Option<Seq<u8>>,
    pub transactions: Seq<Seq<u8>>,
}

/// By how much a branch made with `fork_number` lowers the difficulty: by
/// `fork_number`, and by one at least, so that the branch is always the lighter.
pub open spec fn fork_penalty(fork_number: nat) -> nat {
    if fork_number == 0 {
        1
    } else {
        fork_number
    }
}

impl BlockView {
    /// The same block on a side branch: its difficulty lowered by the penalty of
    /// `fork_number`, down to zero at most.
    pub open spec fn forked(self, fork_number: nat) -> BlockView {
        BlockView {
            difficulty: if self.difficulty >= fork_penalty(fork_number) {
                (self.difficulty - fork_penalty(fork_number)) as nat
            } else {
                0
            },
            ..self
        }
    }

    /// The same block with `bloom` in place of any bloom filter it had.
    pub open spec fn with_bloom(self, bloom: Seq<u8>) -> BlockView {
        BlockView { bloom: Some(bloom), ..self }
    }

    /// The same block with `transaction` after the transactions it had.
    pub open spec fn with_transaction(self, transaction: Seq<u8>) -> BlockView {
        BlockView { transactions: self.transactions.push(transaction), ..self }
    }

    /// The same block with `parent_hash` as the hash of its parent.
    pub open spec fn with_parent(self, parent_hash: Seq<u8>) -> BlockView {
        BlockView { parent_hash, ..self }
    }

    /// The bytes that stand for the bloom filter: none where there is no filter.
    pub open spec fn bloom_bytes(self) -> Seq<u8> {
        match self.bloom {
            Some(bloom) => bloom,
            None => Seq::empty(),
        }
    }

    /// The header's byte form: the list of parent hash, bloom filter (the empty
    /// string where there is none), difficulty and number.
    pub open spec fn header_encoding(self) -> Seq<u8> {
        rlp_list(
            rlp_str(self.parent_hash) + rlp_str(self.bloom_bytes()) + rlp_str(
                be_bytes(self.difficulty),
            ) + rlp_str(be_bytes(self.number)),
        )
    }

    /// The block's byte form: the list of the header and of the list of transactions.
    pub open spec fn encoding(self) -> Seq<u8> {
        rlp_list(self.header_encoding() + rlp_list(rlp_strs(self.transactions)))
    }

    /// The block's hash: the digest of its byte form, header and body.
    pub open spec fn hash(self) -> Seq<u8> {
        keccak256_digest(self.encoding())
    }

    /// Whether the bloom filter, where there is one, has its 256 bytes. The view of
    /// every [`Block`] is so.
    pub open spec fn well_formed(self) -> bool {
        self.bloom is Some ==> self.bloom->0.len() == 256
    }

    /// Whether the block is well formed and its byte form fits the memory of a
    /// machine. Every [`Block`] that was encoded is so.
    pub open spec fn encodable(self) -> bool {
        &&& self.well_formed()
        &&& self.encoding().len() <= u64::MAX
    }
}

/// The header's byte form, followed by anything, tells the header and what
/// follows.
pub proof fn lemma_header_unique(a: BlockView, b: BlockView, tail_a: Seq<u8>, tail_b: Seq<u8>)
    requires
        a.well_formed(),
        b.well_formed(),
        a.header_encoding().len() <= u64::MAX,
        b.header_encoding().len() <= u64::MAX,
        a.header_encoding() + tail_a == b.header_encoding() + tail_b,
    ensures
        a.parent_hash == b.parent_hash,
        a.bloom == b.bloom,
        a.difficulty == b.difficulty,
        a.number == b.number,
        tail_a == tail_b,
{
    let none = Seq::<u8>::empty();
    let front_a = rlp_str(a.parent_hash) + rlp_str(a.bloom_bytes());
    let front_b = rlp_str(b.parent_hash) + rlp_str(b.bloom_bytes());
    let back_a = rlp_str(be_bytes(a.difficulty)) + rlp_str(be_bytes(a.number));
    let back_b = rlp_str(be_bytes(b.difficulty)) + rlp_str(be_bytes(b.number));
    assert(a.header_encoding() == rlp_list(front_a + back_a)) by {
        assert(front_a + back_a =~= rlp_str(a.parent_hash) + rlp_str(a.bloom_bytes()) + rlp_str(
            be_bytes(a.difficulty),
        ) + rlp_str(be_bytes(a.number)));
    }
    assert(b.header_encoding() == rlp_list(front_b + back_b)) by {
        assert(front_b + back_b =~= rlp_str(b.parent_hash) + rlp_str(b.bloom_bytes()) + rlp_str(
            be_bytes(b.difficulty),
        ) + rlp_str(be_bytes(b.number)));
    }
    lemma_list_len(front_a + back_a);
    lemma_list_len(front_b + back_b);
    lemma_list_unique(front_a + back_a, front_b + back_b, tail_a, tail_b);
    lemma_str_len(a.parent_hash);
    lemma_str_len(b.parent_hash);
    lemma_str_len(a.bloom_bytes());
    lemma_str_len(b.bloom_bytes());
    lemma_str_len(be_bytes(a.difficulty));
    lemma_str_len(be_bytes(b.difficulty));
    lemma_str_len(be_bytes(a.number));
    lemma_str_len(be_bytes(b.number));
    lemma_two_strs_unique(
        (a.parent_hash, a.bloom_bytes()),
        (b.parent_hash, b.bloom_bytes()),
        back_a,
        back_b,
    );
    assert(back_a + none =~= back_a);
    assert(back_b + none =~= back_b);
    lemma_two_strs_unique(
        (be_bytes(a.difficulty), be_bytes(a.number)),
        (be_bytes(b.difficulty), be_bytes(b.number)),
        none,
        none,
    );
    lemma_be_value_of_be_bytes(a.difficulty);
    lemma_be_value_of_be_bytes(b.difficulty);
    lemma_be_value_of_be_bytes(a.number);
    lemma_be_value_of_be_bytes(b.number);
}

/// The byte form tells the block: two blocks with the same byte form are the same
/// block.
pub proof fn lemma_encoding_unique(a: BlockView, b: BlockView)
    requires
        a.encodable(),
        b.encodable(),
        a.encoding() == b.encoding(),
    ensures
        a == b,
{
    let none = Seq::<u8>::empty();
    let items_a = rlp_strs(a.transactions);
    let items_b = rlp_strs(b.transactions);
    let body_a = rlp_list(items_a);
    let body_b = rlp_list(items_b);
    let content_a = a.header_encoding() + body_a;
    let content_b = b.header_encoding() + body_b;
    lemma_list_len(content_a);
    lemma_list_len(content_b);
    lemma_list_len(items_a);
    lemma_list_len(items_b);
    assert(rlp_list(content_a) + none =~= a.encoding());
    assert(rlp_list(content_b) + none =~= b.encoding());
    lemma_list_unique(content_a, content_b, none, none);
    lemma_header_unique(a, b, body_a, body_b);
    assert(body_a + none =~= body_a);
    assert(body_b + none =~= body_b);
    lemma_list_unique(items_a, items_b, none, none);
    lemma_strs_unique(a.transactions, b.transactions);
}

impl View for Block {
    type V = BlockView;

    open spec fn view(&self) -> BlockView {
        BlockView {
            number: self.number as nat,
            difficulty: self.difficulty@,
            parent_hash: self.parent_hash@,
            bloom: match self.bloom {
                Some(bloom) => Some(bloom@),
                None => None,
            },
            transactions: self.transactions@.map_values(|t: SignedTransaction| t@),
        }
    }
}

impl Default for Block {
    /// Block zero of no difficulty, with no parent, bloom filter or transaction.
    fn default() -> (block: Block)
        ensures
            block@ == (BlockView {
                number: 0,
                difficulty: 0,
                parent_hash: zero_bytes(32),
                bloom: None,
                transactions: Seq::empty(),
            }),
    {
        let block = Block {
            number: 0,
            difficulty: U256::zero(),
            parent_hash: H256::zero(),
            bloom: None,
            transactions: Vec::new(),
        };
        assert(block@.transactions =~= Seq::empty());
        block
    }
}

impl Block {
    /// Moves the block to a side branch made with `fork_number`, which lowers its
    /// difficulty.
    pub fn fork(self, fork_number: usize) -> (block: Block)
        ensures
            block@ == self@.forked(fork_number as nat),
    {
        let penalty: u64 = if fork_number == 0 {
            1
        } else {
            fork_number as u64
        };
        let amount = U256::from(penalty);
        assert(amount@ == fork_penalty(fork_number as nat));
        Block { difficulty: self.difficulty.saturating_sub(amount), ..self }
    }

    /// Sets the bloom filter, whatever it was.
    pub fn with_bloom(self, bloom: H2048) -> (block: Block)
        ensures
            block@ == self@.with_bloom(bloom@),
    {
        Block { bloom: Some(bloom), ..self }
    }

    /// Adds `transaction` after the transactions that the block has.
    pub fn with_transaction(self, transaction: SignedTransaction) -> (block: Block)
        ensures
            block@ == self@.with_transaction(transaction@),
    {
        let mut block = self;
        block.transactions.push(transaction);
        assert(block@.transactions =~= self@.transactions.push(transaction@));
        block
    }

    /// The byte form of the block.
    pub fn encode(&self) -> (bytes: Vec<u8>)
        ensures
            bytes@ == self@.encoding(),
    {
        let mut header: Vec<u8> = Vec::new();
        append_str(&mut header, self.parent_hash.0.as_slice());
        match &self.bloom {
            Some(bloom) => append_str(&mut header, bloom.0.as_slice()),
            None => append_str(&mut header, Vec::new().as_slice()),
        }
        append_str(&mut header, self.difficulty.to_be_bytes().as_slice());
        append_str(&mut header, u64_to_be_bytes(self.number).as_slice());

        let mut body: Vec<u8> = Vec::new();
        let mut i: usize = 0;
        while i < self.transactions.len()
            invariant
                i <= self.transactions.len(),
                body@ == rlp_strs(self@.transactions.take(i as int)),
            decreases self.transactions.len() - i,
        {
            append_str(&mut body, self.transactions[i].0.as_slice());
            i = i + 1;
            assert(self@.transactions.take(i as int).drop_last() =~= self@.transactions.take(
                i - 1,
            ));
        }
        assert(self@.transactions.take(i as int) =~= self@.transactions);

        let mut content: Vec<u8> = Vec::new();
        append_list(&mut content, header.as_slice());
        append_list(&mut content, body.as_slice());

        let mut bytes: Vec<u8> = Vec::new();
        append_list(&mut bytes, content.as_slice());
        assert(bytes@ =~= self@.encoding());
        bytes
    }

    /// Completes the block: sets the hash of its parent and gives its byte form.
    pub fn complete(self, parent_hash: H256) -> (bytes: Vec<u8>)
        ensures
            bytes@ == self@.with_parent(parent_hash@).encoding(),
    {
        let block = Block { parent_hash, ..self };
        block.encode()
    }
}

} // verus!
