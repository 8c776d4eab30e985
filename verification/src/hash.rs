//! Hashes, bloom filters and the digest that links a block to its parent.

use vstd::prelude::*;

verus! {

/// The Keccak-256 digest of `data`, as `tiny_keccak` computes it.
pub uninterp spec fn keccak256_digest(data: Seq<u8>) -> Seq<u8>;

/// `len` zero bytes.
pub open spec fn zero_bytes(len: nat) -> Seq<u8> {
    Seq::new(len, |i: int| 0u8)
}

/// A 256-bit hash.
#[derive(Clone, Copy, Debug, PartialEq, Eq)]
pub struct H256(pub [u8; 32]);

impl View for H256 {
    type V = Seq<u8>;

    open spec fn view(&self) -> Seq<u8> {
        self.0@
    }
}

impl H256 {
    /// The hash of all zeros, which stands for "no parent".
    pub fn zero() -> (h: H256)
        ensures
            h@ == zero_bytes(32),
    {
        let h = H256([0u8; 32]);
        assert(h@ =~= zero_bytes(32));
        h
    }
}

impl Default for H256 {
    /// The hash of all zeros.
    fn default() -> (h: H256)
        ensures
            h@ == zero_bytes(32),
    {
        H256::zero()
    }
}

/// A 2048-bit bloom filter.
#[derive(Clone, Copy, Debug, PartialEq, Eq)]
pub struct H2048(pub [u8; 256]);

impl View for H2048 {
    type V = Seq<u8>;

    open spec fn view(&self) -> Seq<u8> {
        self.0@
    }
}

/// `keccak256` of `tiny_keccak`: the Keccak-256 digest of `data`.
#[verifier::external_body]
pub(crate) fn keccak256(data: &[u8]) -> (h: H256)
    ensures
        h@ == keccak256_digest(data@),
{
    H256(tiny_keccak::keccak256(data))
}

} // verus!
