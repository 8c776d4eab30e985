//! The 256-bit unsigned integer that measures difficulty.

use crate::endian::{be_bytes, push_word};
use vstd::prelude::*;
use vstd::std_specs::convert::FromSpecImpl;

verus! {

/// A 256-bit unsigned integer: four 64-bit words, the least significant first.
#[derive(Clone, Copy, Debug, PartialEq, Eq)]
pub struct U256(pub [u64; 4]);

impl View for U256 {
    type V = nat;

    /// The number that the four words stand for.
    open spec fn view(&self) -> nat {
        (self.0[0] + self.0[1] * 0x1_0000_0000_0000_0000 + self.0[2]
            * 0x1_0000_0000_0000_0000_0000_0000_0000_0000 + self.0[3]
            * 0x1_0000_0000_0000_0000_0000_0000_0000_0000_0000_0000_0000_0000) as nat
    }
}

/// `U256::from(u64)` of `bigint`: the number goes to the lowest word, the three
/// others are zero.
#[verifier::external_body]
fn words_from_u64(n: u64) -> (r: U256)
    ensures
        r.0@ == seq![n, 0u64, 0u64, 0u64],
{
    U256(bigint::U256::from(n).0)
}

/// `U256::saturating_sub` of `bigint`: the difference of the two numbers, or zero
/// where the second is the larger.
#[verifier::external_body]
fn words_saturating_sub(a: U256, b: U256) -> (r: U256)
    ensures
        r@ == if a@ >= b@ {
            a@ - b@
        } else {
            0
        },
{
    U256(bigint::U256(a.0).saturating_sub(bigint::U256(b.0)).0)
}

impl U256 {
    /// Zero.
    pub fn zero() -> (r: U256)
        ensures
            r@ == 0,
    {
        U256([0, 0, 0, 0])
    }

    /// `self - other`, stopping at zero.
    pub fn saturating_sub(self, other: U256) -> (r: U256)
        ensures
            r@ == if self@ >= other@ {
                self@ - other@
            } else {
                0
            },
    {
        words_saturating_sub(self, other)
    }

    /// The shortest big-endian byte string of the number.
    pub fn to_be_bytes(&self) -> (out: Vec<u8>)
        ensures
            out@ == be_bytes(self@),
    {
        let mut out: Vec<u8> = Vec::new();
        let ghost w3 = self.0[3] as nat;
        let ghost w2 = (w3 * 0x1_0000_0000_0000_0000 + self.0[2]) as nat;
        let ghost w1 = (w2 * 0x1_0000_0000_0000_0000 + self.0[1]) as nat;
        assert(out@ =~= be_bytes(0));
        push_word(&mut out, self.0[3], Ghost(0));
        push_word(&mut out, self.0[2], Ghost(w3));
        push_word(&mut out, self.0[1], Ghost(w2));
        push_word(&mut out, self.0[0], Ghost(w1));
        out
    }
}

impl From<u64> for U256 {
    /// The number `n` as a 256-bit integer.
    fn from(n: u64) -> (r: U256) {
        let r = words_from_u64(n);
        assert(r.0 == [n, 0u64, 0u64, 0u64]);
        r
    }
}

impl FromSpecImpl<u64> for U256 {
    open spec fn obeys_from_spec() -> bool {
        true
    }

    open spec fn from_spec(n: u64) -> U256 {
        U256([n, 0u64, 0u64, 0u64])
    }
}

impl Default for U256 {
    /// Zero.
    fn default() -> (r: U256)
        ensures
            r@ == 0,
    {
        U256::zero()
    }
}

} // verus!
