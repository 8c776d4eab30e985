use chaingen::block::Block;
use chaingen::complete::BlockFinalizer;
use chaingen::generator::{ChainGenerator, ChainIterator, Producer};
use chaingen::hash::{H2048, H256};
use chaingen::transaction::SignedTransaction;
use chaingen::uint::U256;

/// What the bytes of a completed block say.
struct BlockView {
    rlp: Vec<u8>,
}

impl BlockView {
    fn new(rlp: &[u8]) -> BlockView {
        BlockView { rlp: rlp.to_vec() }
    }

    fn header(&self) -> rlp::Rlp<'_> {
        rlp::Rlp::new(&self.rlp).at(0).unwrap()
    }

    fn parent_hash(&self) -> H256 {
        let bytes: Vec<u8> = self.header().val_at(0).unwrap();
        let mut hash = [0u8; 32];
        hash.copy_from_slice(&bytes);
        H256(hash)
    }

    fn bloom(&self) -> Vec<u8> {
        self.header().val_at(1).unwrap()
    }

    fn difficulty(&self) -> bigint::U256 {
        let bytes: Vec<u8> = self.header().val_at(2).unwrap();
        bigint::U256::from(&bytes[..])
    }

    fn number(&self) -> u64 {
        self.header().val_at(3).unwrap()
    }

    fn transactions(&self) -> Vec<Vec<u8>> {
        rlp::Rlp::new(&self.rlp).list_at(1).unwrap()
    }

    fn hash(&self) -> H256 {
        H256(tiny_keccak::keccak256(&self.rlp))
    }
}

#[test]
fn canon_chain_generator() {
    let mut canon_chain = ChainGenerator::default();
    let mut finalizer = BlockFinalizer::default();

    let genesis_rlp = canon_chain.generate(&mut finalizer).unwrap();
    let genesis = BlockView::new(&genesis_rlp);

    assert_eq!(genesis.parent_hash(), H256::default());
    assert_eq!(genesis.number(), 0);

    let b1_rlp = canon_chain.generate(&mut finalizer).unwrap();
    let b1 = BlockView::new(&b1_rlp);

    assert_eq!(b1.parent_hash(), genesis.hash());
    assert_eq!(b1.number(), 1);

    let mut fork_chain = canon_chain.fork(1);

    let b2_rlp_fork = fork_chain.generate(&mut finalizer.fork()).unwrap();
    let b2_fork = BlockView::new(&b2_rlp_fork);

    assert_eq!(b2_fork.parent_hash(), b1.hash());
    assert_eq!(b2_fork.number(), 2);

    let b2_rlp = canon_chain.generate(&mut finalizer).unwrap();
    let b2 = BlockView::new(&b2_rlp);

    assert_eq!(b2.parent_hash(), b1.hash());
    assert_eq!(b2.number(), 2);
    assert!(b2.difficulty() > b2_fork.difficulty());
}

#[test]
fn with_bloom_generator() {
    let bloom = H2048([0x1; 256]);
    let gen = ChainGenerator::default();
    let mut finalizer = BlockFinalizer::default();

    let mut stage = gen.with_bloom(bloom);
    let block0_rlp = stage.generate(&mut finalizer).unwrap();
    let mut gen = stage.into_inner();
    let block1_rlp = gen.generate(&mut finalizer).unwrap();
    let block0 = BlockView::new(&block0_rlp);
    let block1 = BlockView::new(&block1_rlp);

    assert_eq!(block0.number(), 0);
    assert_eq!(block0.parent_hash(), H256::default());

    assert_eq!(block1.number(), 1);
    assert_eq!(block1.parent_hash(), block0.hash());
}

#[test]
fn generate_1000_blocks() {
    let generator = ChainGenerator::default();
    let mut finalizer = BlockFinalizer::default();
    let blocks: Vec<_> = generator.take(1000).complete(&mut finalizer).collect();
    assert_eq!(blocks.len(), 1000);
}

#[test]
fn genesis_has_exact_bytes() {
    let mut generator = ChainGenerator::default();
    let mut finalizer = BlockFinalizer::default();
    let genesis = generator.generate(&mut finalizer).unwrap();

    let mut expected = vec![0xe8, 0xe6, 0xa0];
    expected.extend_from_slice(&[0u8; 32]);
    expected.extend_from_slice(&[0x80, 0x82, 0x03, 0xe8, 0x80, 0xc0]);
    assert_eq!(genesis, expected);
}

#[test]
fn genesis_defaults() {
    let mut generator = ChainGenerator::default();
    let mut finalizer = BlockFinalizer::default();
    assert_eq!(finalizer.parent_hash(), H256([0u8; 32]));
    assert_eq!(finalizer.sequence(), 0);

    let genesis = BlockView::new(&generator.generate(&mut finalizer).unwrap());
    assert_eq!(genesis.parent_hash(), H256([0u8; 32]));
    assert_eq!(genesis.number(), 0);
    assert_eq!(genesis.difficulty(), bigint::U256::from(1000u64));
    assert!(genesis.bloom().is_empty());
    assert!(genesis.transactions().is_empty());
}

#[test]
fn generator_starts_where_it_is_told() {
    let mut generator = ChainGenerator::new(41, U256::from(7u64));
    assert_eq!(generator.number(), 41);
    assert_eq!(generator.difficulty(), U256([7, 0, 0, 0]));

    let first = generator.next().unwrap();
    assert_eq!(first.number, 41);
    assert_eq!(first.difficulty, U256([7, 0, 0, 0]));
    assert_eq!(first.parent_hash, H256([0u8; 32]));
    assert_eq!(first.bloom, None);
    assert!(first.transactions.is_empty());

    let second = generator.next().unwrap();
    assert_eq!(second.number, 42);
    assert_eq!(second.difficulty, U256([7, 0, 0, 0]));
    assert_eq!(generator.number(), 43);
}

#[test]
fn completed_blocks_are_linked() {
    let mut generator = ChainGenerator::new(5, U256::from(300u64));
    let mut finalizer = BlockFinalizer::default();
    let mut previous: Option<BlockView> = None;
    for i in 0..20u64 {
        let block = BlockView::new(&generator.generate(&mut finalizer).unwrap());
        assert_eq!(block.number(), 5 + i);
        match &previous {
            Some(parent) => assert_eq!(block.parent_hash(), parent.hash()),
            None => assert_eq!(block.parent_hash(), H256::default()),
        }
        assert_eq!(finalizer.parent_hash(), block.hash());
        assert_eq!(finalizer.sequence(), i + 1);
        previous = Some(block);
    }
}

#[test]
fn finalizer_holds_the_digest_of_the_last_block() {
    let mut generator = ChainGenerator::default();
    let mut finalizer = BlockFinalizer::default();
    let genesis = generator.generate(&mut finalizer).unwrap();
    assert_eq!(finalizer.parent_hash(), H256(tiny_keccak::keccak256(&genesis)));
    assert_ne!(finalizer.parent_hash().0.to_vec(), genesis);
    assert_ne!(finalizer.parent_hash(), H256::default());
}

#[test]
fn genesis_has_exact_hash() {
    let mut generator = ChainGenerator::default();
    let mut finalizer = BlockFinalizer::default();
    generator.generate(&mut finalizer).unwrap();
    let expected = [
        0xc6, 0xd8, 0xad, 0x40, 0xd8, 0xc0, 0xdb, 0xb7, 0x0c, 0x39, 0x27, 0x5f, 0x42, 0xe1, 0x0c,
        0x85, 0x85, 0xe2, 0x2b, 0xa0, 0xcb, 0x79, 0x60, 0xb3, 0x96, 0x2c, 0xcb, 0x24, 0xb7, 0x58,
        0xbb, 0xa5,
    ];
    assert_eq!(finalizer.parent_hash(), H256(expected));
}

#[test]
fn fork_is_lighter_at_every_block() {
    let mut canon_chain = ChainGenerator::default();
    let mut finalizer = BlockFinalizer::default();
    for _ in 0..3 {
        canon_chain.generate(&mut finalizer).unwrap();
    }
    let mut fork_chain = canon_chain.fork(10);
    let mut fork_finalizer = finalizer.fork();
    let shared_ancestor = finalizer.parent_hash();

    let mut fork_parent = shared_ancestor;
    let mut canon_parent = shared_ancestor;
    for i in 0..5u64 {
        let fork_block = BlockView::new(&fork_chain.generate(&mut fork_finalizer).unwrap());
        let canon_block = BlockView::new(&canon_chain.generate(&mut finalizer).unwrap());
        assert_eq!(fork_block.number(), 3 + i);
        assert_eq!(canon_block.number(), 3 + i);
        assert_eq!(fork_block.difficulty(), bigint::U256::from(990u64));
        assert_eq!(canon_block.difficulty(), bigint::U256::from(1000u64));
        assert!(fork_block.difficulty() < canon_block.difficulty());
        assert_eq!(fork_block.parent_hash(), fork_parent);
        assert_eq!(canon_block.parent_hash(), canon_parent);
        assert_ne!(fork_block.hash(), canon_block.hash());
        fork_parent = fork_block.hash();
        canon_parent = canon_block.hash();
    }
}

#[test]
fn fork_lowers_by_one_at_least() {
    let block = Block { difficulty: U256::from(1000u64), ..Block::default() };
    assert_eq!(block.fork(0).difficulty, U256::from(999u64));

    let block = Block { difficulty: U256::from(1000u64), ..Block::default() };
    assert_eq!(block.fork(1).difficulty, U256::from(999u64));

    let block = Block { difficulty: U256::from(1000u64), ..Block::default() };
    assert_eq!(block.fork(250).difficulty, U256::from(750u64));
}

#[test]
fn fork_stops_at_zero() {
    let block = Block { difficulty: U256::from(3u64), ..Block::default() };
    assert_eq!(block.fork(3).difficulty, U256::zero());

    let block = Block { difficulty: U256::from(3u64), ..Block::default() };
    assert_eq!(block.fork(4).difficulty, U256::zero());

    let block = Block::default();
    assert_eq!(block.fork(0).difficulty, U256::zero());
}

#[test]
fn fork_borrows_across_words() {
    let block = Block { difficulty: U256([0, 1, 0, 0]), ..Block::default() };
    assert_eq!(block.fork(1).difficulty, U256([u64::MAX, 0, 0, 0]));

    let block = Block { difficulty: U256([0, 0, 0, 1]), ..Block::default() };
    assert_eq!(block.fork(2).difficulty, U256([u64::MAX - 1, u64::MAX, u64::MAX, 0]));
}

#[test]
fn fork_keeps_the_rest_of_the_block() {
    let block = Block {
        number: 9,
        difficulty: U256::from(20u64),
        parent_hash: H256([3; 32]),
        bloom: Some(H2048([4; 256])),
        transactions: vec![SignedTransaction(vec![1, 2, 3])],
    };
    let forked = block.fork(5);
    assert_eq!(forked.number, 9);
    assert_eq!(forked.difficulty, U256::from(15u64));
    assert_eq!(forked.parent_hash, H256([3; 32]));
    assert_eq!(forked.bloom, Some(H2048([4; 256])));
    assert_eq!(forked.transactions, vec![SignedTransaction(vec![1, 2, 3])]);
}

#[test]
fn fork_does_not_move_the_chain_it_came_from() {
    let mut canon_chain = ChainGenerator::default();
    canon_chain.next().unwrap();
    let mut fork_chain = canon_chain.fork(1);
    assert_eq!(fork_chain.next().unwrap().number, 1);
    assert_eq!(fork_chain.next().unwrap().number, 2);
    assert_eq!(fork_chain.next().unwrap().number, 3);
    assert_eq!(canon_chain.number(), 1);
    assert_eq!(canon_chain.next().unwrap().number, 1);
    assert_eq!(fork_chain.next().unwrap().number, 4);
    assert_eq!(fork_chain.into_inner().number(), 5);
}

#[test]
fn fork_of_a_fork_is_lighter_still() {
    let canon_chain = ChainGenerator::default();
    let fork_chain = canon_chain.fork(1);
    let mut second = fork_chain.fork(2);
    let block = second.next().unwrap();
    assert_eq!(block.number, 0);
    assert_eq!(block.difficulty, U256::from(997u64));
}

#[test]
fn finalizer_fork_goes_its_own_way() {
    let mut generator = ChainGenerator::default();
    let mut finalizer = BlockFinalizer::default();
    generator.generate(&mut finalizer).unwrap();
    let at_fork = finalizer.parent_hash();

    let mut branch = finalizer.fork();
    assert_eq!(branch.parent_hash(), at_fork);
    assert_eq!(branch.sequence(), 1);

    generator.fork(1).generate(&mut branch).unwrap();
    assert_ne!(branch.parent_hash(), at_fork);
    assert_eq!(branch.sequence(), 2);
    assert_eq!(finalizer.parent_hash(), at_fork);
    assert_eq!(finalizer.sequence(), 1);
}

#[test]
fn finalizer_commit_records_the_hash() {
    let mut finalizer = BlockFinalizer::default();
    finalizer.commit(H256([7; 32]));
    assert_eq!(finalizer.parent_hash(), H256([7; 32]));
    assert_eq!(finalizer.sequence(), 1);
    finalizer.commit(H256([8; 32]));
    assert_eq!(finalizer.parent_hash(), H256([8; 32]));
    assert_eq!(finalizer.sequence(), 2);
}

#[test]
fn bloom_stays_on_its_branch() {
    let bloom = H2048([0x5a; 256]);
    let mut canon_chain = ChainGenerator::default();
    let mut finalizer = BlockFinalizer::default();
    canon_chain.generate(&mut finalizer).unwrap();

    let mut fork_chain = canon_chain.fork(1).with_bloom(bloom);
    let mut fork_finalizer = finalizer.fork();
    for _ in 0..3 {
        let fork_block = BlockView::new(&fork_chain.generate(&mut fork_finalizer).unwrap());
        let canon_block = BlockView::new(&canon_chain.generate(&mut finalizer).unwrap());
        assert_eq!(fork_block.bloom(), vec![0x5a; 256]);
        assert!(canon_block.bloom().is_empty());
        assert_eq!(fork_block.number(), canon_block.number());
    }

    let mut plain_fork = canon_chain.fork(1);
    let mut stamped_canon = canon_chain.with_bloom(bloom);
    assert_eq!(plain_fork.next().unwrap().bloom, None);
    assert_eq!(stamped_canon.next().unwrap().bloom, Some(bloom));
    assert_eq!(plain_fork.next().unwrap().bloom, None);
}

#[test]
fn bloom_overwrites_a_bloom() {
    let generator = ChainGenerator::default();
    let mut stage = generator.with_bloom(H2048([1; 256])).with_bloom(H2048([2; 256]));
    let block = stage.next().unwrap();
    assert_eq!(block.bloom, Some(H2048([2; 256])));
    assert_eq!(block.number, 0);
    assert_eq!(block.difficulty, U256::from(1000u64));
    assert!(block.transactions.is_empty());
}

#[test]
fn transaction_is_added_after_the_others() {
    let generator = ChainGenerator::default();
    let mut stage = generator
        .with_transaction(SignedTransaction(vec![1, 2]))
        .with_transaction(SignedTransaction(vec![3]));
    for number in 0..3u64 {
        let block = stage.next().unwrap();
        assert_eq!(block.number, number);
        assert_eq!(block.bloom, None);
        assert_eq!(
            block.transactions,
            vec![SignedTransaction(vec![1, 2]), SignedTransaction(vec![3])]
        );
    }
}

#[test]
fn bloom_and_transaction_in_either_order() {
    let bloom = H2048([0x11; 256]);
    let transaction = SignedTransaction(vec![0xde, 0xad, 0xbe, 0xef]);

    let mut bloom_first =
        ChainGenerator::default().with_bloom(bloom).with_transaction(transaction.clone());
    let mut bloom_last =
        ChainGenerator::default().with_transaction(transaction.clone()).with_bloom(bloom);
    let mut finalizer_a = BlockFinalizer::default();
    let mut finalizer_b = BlockFinalizer::default();

    for _ in 0..3 {
        let a = bloom_first.generate(&mut finalizer_a).unwrap();
        let b = bloom_last.generate(&mut finalizer_b).unwrap();
        assert_eq!(a, b);
        let view = BlockView::new(&a);
        assert_eq!(view.bloom(), vec![0x11; 256]);
        assert_eq!(view.transactions(), vec![vec![0xde, 0xad, 0xbe, 0xef]]);
    }
    assert_eq!(bloom_first.into_inner().into_inner().number(), 3);
}

#[test]
fn bulk_generation_is_numbered_and_linked() {
    let mut finalizer = BlockFinalizer::default();
    let mut cut = ChainGenerator::default().take(1000);
    let blocks = cut.complete(&mut finalizer).collect();
    assert_eq!(blocks.len(), 1000);
    assert_eq!(finalizer.sequence(), 1000);

    let mut parent = H256::default();
    for (i, rlp) in blocks.iter().enumerate() {
        let block = BlockView::new(rlp);
        assert_eq!(block.number(), i as u64);
        assert_eq!(block.parent_hash(), parent);
        parent = block.hash();
    }
    assert_eq!(finalizer.parent_hash(), parent);

    let mut sorted = blocks.clone();
    sorted.sort();
    sorted.dedup();
    assert_eq!(sorted.len(), 1000);

    assert_eq!(cut.remaining, 0);
    assert_eq!(cut.into_inner().number(), 1000);
}

#[test]
fn take_ends_the_sequence() {
    let mut finalizer = BlockFinalizer::default();
    let mut cut = ChainGenerator::default().take(2);
    assert!(cut.can_advance());
    assert!(cut.generate(&mut finalizer).is_some());
    assert!(cut.generate(&mut finalizer).is_some());
    let after_two = finalizer.parent_hash();

    assert!(cut.can_advance());
    assert_eq!(cut.generate(&mut finalizer), None);
    assert_eq!(cut.next(), None);
    assert_eq!(finalizer.parent_hash(), after_two);
    assert_eq!(finalizer.sequence(), 2);
    assert_eq!(cut.into_inner().number(), 2);
}

#[test]
fn take_of_nothing_gives_nothing() {
    let mut finalizer = BlockFinalizer::default();
    let mut cut = ChainGenerator::default().take(0);
    assert!(cut.complete(&mut finalizer).collect().is_empty());
    assert_eq!(finalizer.sequence(), 0);
    assert_eq!(finalizer.parent_hash(), H256::default());
    assert_eq!(cut.into_inner().number(), 0);
}

#[test]
fn collect_goes_on_where_the_finalizer_was() {
    let mut generator = ChainGenerator::default();
    let mut finalizer = BlockFinalizer::default();
    let genesis = BlockView::new(&generator.generate(&mut finalizer).unwrap());

    let mut cut = generator.take(3);
    let blocks = cut.complete(&mut finalizer).collect();
    assert_eq!(blocks.len(), 3);
    assert_eq!(BlockView::new(&blocks[0]).number(), 1);
    assert_eq!(BlockView::new(&blocks[0]).parent_hash(), genesis.hash());
    assert_eq!(BlockView::new(&blocks[2]).number(), 3);
    assert_eq!(finalizer.sequence(), 4);
}

#[test]
fn generator_at_the_last_number_cannot_advance() {
    let generator = ChainGenerator::new(u64::MAX, U256::zero());
    assert!(!generator.can_advance());
    assert!(!generator.fork(1).can_advance());
    assert!(!ChainGenerator::new(u64::MAX, U256::zero()).with_bloom(H2048([0; 256])).can_advance());
    assert!(ChainGenerator::new(u64::MAX, U256::zero()).take(0).can_advance());
    assert!(!ChainGenerator::new(u64::MAX, U256::zero()).take(1).can_advance());

    let mut last = ChainGenerator::new(u64::MAX - 1, U256::zero());
    assert!(last.can_advance());
    assert_eq!(last.next().unwrap().number, u64::MAX - 1);
    assert!(!last.can_advance());
}

#[test]
fn completion_can_advance_needs_both() {
    let mut generator = ChainGenerator::default();
    let mut finalizer = BlockFinalizer::default();
    assert!(generator.complete(&mut finalizer).can_advance());

    let mut stuck = ChainGenerator::new(u64::MAX, U256::zero());
    assert!(!stuck.complete(&mut finalizer).can_advance());
}

#[test]
fn block_complete_sets_the_parent() {
    let block = Block { number: 2, difficulty: U256::from(1000u64), ..Block::default() };
    let rlp = block.complete(H256([0xab; 32]));
    let view = BlockView::new(&rlp);
    assert_eq!(view.parent_hash(), H256([0xab; 32]));
    assert_eq!(view.number(), 2);
    assert_eq!(view.difficulty(), bigint::U256::from(1000u64));

    let same = Block {
        number: 2,
        difficulty: U256::from(1000u64),
        parent_hash: H256([0xab; 32]),
        ..Block::default()
    };
    assert_eq!(same.encode(), rlp);
}

#[test]
fn block_default_is_empty() {
    let block = Block::default();
    assert_eq!(block.number, 0);
    assert_eq!(block.difficulty, U256([0, 0, 0, 0]));
    assert_eq!(block.parent_hash, H256([0; 32]));
    assert_eq!(block.bloom, None);
    assert!(block.transactions.is_empty());
}

#[test]
fn signed_transaction_clone_is_equal() {
    let transaction = SignedTransaction(vec![9, 8, 7]);
    assert_eq!(transaction.clone(), transaction);
    assert_eq!(transaction.clone().0, vec![9, 8, 7]);
}

#[test]
fn duplicate_goes_on_apart() {
    let mut stage = ChainGenerator::new(10, U256::from(50u64))
        .with_transaction(SignedTransaction(vec![0xaa]))
        .with_bloom(H2048([3; 256]))
        .take(3);
    assert_eq!(stage.next().unwrap().number, 10);

    let mut copy = stage.duplicate();
    let block = copy.next().unwrap();
    assert_eq!(block.number, 11);
    assert_eq!(block.difficulty, U256::from(50u64));
    assert_eq!(block.bloom, Some(H2048([3; 256])));
    assert_eq!(block.transactions, vec![SignedTransaction(vec![0xaa])]);
    assert_eq!(copy.next().unwrap().number, 12);
    assert_eq!(copy.next(), None);

    assert_eq!(stage.remaining, 2);
    assert_eq!(stage.next().unwrap().number, 11);
    assert_eq!(copy.remaining, 0);
}

#[test]
fn into_inner_gives_the_producer_back() {
    let mut stage = ChainGenerator::default().with_bloom(H2048([0; 256]));
    stage.next().unwrap();
    stage.next().unwrap();
    assert_eq!(stage.into_inner().number(), 2);

    let mut stage = ChainGenerator::default().with_transaction(SignedTransaction(vec![]));
    stage.next().unwrap();
    assert_eq!(stage.into_inner().number(), 1);

    let mut stage = ChainGenerator::default().take(5);
    stage.next().unwrap();
    assert_eq!(stage.remaining, 4);
    assert_eq!(stage.into_inner().number(), 1);
}
