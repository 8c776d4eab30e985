//! Big-endian byte strings of natural numbers.

use vstd::prelude::*;

verus! {

/// The shortest big-endian byte string of `n`: no leading zero, empty for zero.
pub open spec fn be_bytes(n: nat) -> Seq<u8>
    decreases n,
{
    if n == 0 {
        Seq::empty()
    } else {
        be_bytes(n / 256).push((n % 256) as u8)
    }
}

/// The last `width` big-endian digits of `n`, padded with zeros in front.
pub open spec fn be_fixed(n: nat, width: nat) -> Seq<u8>
    decreases width,
{
    if width == 0 {
        Seq::empty()
    } else {
        be_fixed(n / 256, (width - 1) as nat).push((n % 256) as u8)
    }
}

/// 256 to the power `width`.
pub open spec fn pow256(width: nat) -> nat
    decreases width,
{
    if width == 0 {
        1
    } else {
        256 * pow256((width - 1) as nat)
    }
}

/// The number that the big-endian digits `digits` stand for.
pub open spec fn be_value(digits: Seq<u8>) -> nat
    decreases digits.len(),
{
    if digits.len() == 0 {
        0
    } else {
        be_value(digits.drop_last()) * 256 + digits.last() as nat
    }
}

/// The byte string of a number stands for that number, so two numbers with one
/// byte string are the same.
pub proof fn lemma_be_value_of_be_bytes(n: nat)
    ensures
        be_value(be_bytes(n)) == n,
    decreases n,
{
    if n > 0 {
        lemma_be_value_of_be_bytes(n / 256);
        let digits = be_bytes(n / 256).push((n % 256) as u8);
        assert(digits.drop_last() =~= be_bytes(n / 256));
    }
}

/// Only zero has the empty byte string.
pub proof fn lemma_be_bytes_empty(n: nat)
    ensures
        be_bytes(n).len() == 0 <==> n == 0,
{
}

/// A number below `256^width` takes at most `width` bytes.
pub proof fn lemma_be_bytes_len(n: nat, width: nat)
    requires
        n < pow256(width),
    ensures
        be_bytes(n).len() <= width,
    decreases width,
{
    if n != 0 {
        lemma_be_bytes_len(n / 256, (width - 1) as nat);
    }
}

/// Eight bytes reach up to two to the power 64.
pub proof fn lemma_pow256_eight()
    ensures
        pow256(8) == 0x1_0000_0000_0000_0000,
{
    reveal_with_fuel(pow256, 9);
}

/// Appending `width` digits to a number that is not zero appends them to its
/// byte string.
pub proof fn lemma_be_bytes_shift(high: nat, low: nat, width: nat)
    requires
        high > 0,
        low < pow256(width),
    ensures
        be_bytes(high * pow256(width) + low) == be_bytes(high) + be_fixed(low, width),
    decreases width,
{
    if width == 0 {
        assert(be_bytes(high) + be_fixed(low, width) =~= be_bytes(high));
    } else {
        let rest = pow256((width - 1) as nat);
        let whole = high * pow256(width) + low;
        assert(high * pow256(width) == 256 * (high * rest)) by (nonlinear_arith)
            requires
                pow256(width) == 256 * rest,
        ;
        assert(whole / 256 == high * rest + low / 256);
        assert(whole % 256 == low % 256);
        assert(high * rest > 0) by (nonlinear_arith)
            requires
                high > 0,
                rest > 0,
        ;
        lemma_be_bytes_shift(high, low / 256, (width - 1) as nat);
        assert(be_bytes(whole) =~= be_bytes(high) + be_fixed(low, width));
    }
}

/// Appends the shortest big-endian byte string of `n` to `out`.
pub fn push_be(out: &mut Vec<u8>, n: u64)
    ensures
        final(out)@ == old(out)@ + be_bytes(n as nat),
    decreases n,
{
    if n == 0 {
        assert(out@ =~= old(out)@ + be_bytes(0));
    } else {
        push_be(out, n / 256);
        out.push((n % 256) as u8);
        assert(out@ =~= old(out)@ + be_bytes(n as nat));
    }
}

/// Appends the last `width` big-endian digits of `n` to `out`.
pub fn push_be_fixed(out: &mut Vec<u8>, n: u64, width: usize)
    ensures
        final(out)@ == old(out)@ + be_fixed(n as nat, width as nat),
    decreases width,
{
    if width == 0 {
        assert(out@ =~= old(out)@ + be_fixed(n as nat, 0));
    } else {
        push_be_fixed(out, n / 256, width - 1);
        out.push((n % 256) as u8);
        assert(out@ =~= old(out)@ + be_fixed(n as nat, width as nat));
    }
}

/// Extends the byte string of `high`, held in `out`, by one 64-bit word: `out`
/// then holds the byte string of `high * 2^64 + word`.
pub(crate) fn push_word(out: &mut Vec<u8>, word: u64, Ghost(high): Ghost<nat>)
    requires
        old(out)@ == be_bytes(high),
    ensures
        final(out)@ == be_bytes((high * 0x1_0000_0000_0000_0000 + word) as nat),
{
    proof {
        lemma_be_bytes_empty(high);
        lemma_pow256_eight();
    }
    if out.len() == 0 {
        push_be(out, word);
        assert(out@ =~= be_bytes(word as nat));
    } else {
        push_be_fixed(out, word, 8);
        proof {
            lemma_be_bytes_shift(high, word as nat, 8);
        }
    }
}

/// The shortest big-endian byte string of `n`.
pub fn u64_to_be_bytes(n: u64) -> (out: Vec<u8>)
    ensures
        out@ == be_bytes(n as nat),
{
    let mut out: Vec<u8> = Vec::new();
    push_be(&mut out, n);
    assert(out@ =~= be_bytes(n as nat));
    out
}

} // verus!
