//! Recursive-length-prefix framing of byte strings and lists.
//!
//! An item is either a byte string or a list of items. Each is written as a
//! prefix that tells its kind and length, followed by its content; a single byte
//! below `0x80` is written as itself.

use crate::endian::{
    be_bytes, lemma_be_bytes_empty, lemma_be_bytes_len, lemma_be_value_of_be_bytes,
    lemma_pow256_eight, u64_to_be_bytes,
};
use vstd::prelude::*;

verus! {

/// First prefix byte of a byte string.
pub const STRING_OFFSET: u8 = 0x80;

/// First prefix byte of a list.
pub const LIST_OFFSET: u8 = 0xc0;

/// The prefix of content that is `len` bytes long: one byte up to 55 bytes of
/// content, else one byte that counts the bytes of the length, then the length.
pub open spec fn rlp_prefix(offset: u8, len: nat) -> Seq<u8> {
    if len <= 55 {
        seq![(offset + len) as u8]
    } else {
        seq![(offset + 55 + be_bytes(len).len()) as u8] + be_bytes(len)
    }
}

/// The encoding of the byte string `data`.
pub open spec fn rlp_str(data: Seq<u8>) -> Seq<u8> {
    if data.len() == 1 && data[0] < STRING_OFFSET {
        data
    } else {
        rlp_prefix(STRING_OFFSET, data.len()) + data
    }
}

/// The encoding of the list whose encoded items, one after another, are `payload`.
pub open spec fn rlp_list(payload: Seq<u8>) -> Seq<u8> {
    rlp_prefix(LIST_OFFSET, payload.len()) + payload
}

/// The encodings of the byte strings `items`, one after another.
pub open spec fn rlp_strs(items: Seq<Seq<u8>>) -> Seq<u8>
    decreases items.len(),
{
    if items.len() == 0 {
        Seq::empty()
    } else {
        rlp_strs(items.drop_last()) + rlp_str(items.last())
    }
}

/// A prefix tells the length: where two prefixes for content of the same kind,
/// each followed by anything, give the same bytes, the lengths are the same and so
/// is what follows.
pub proof fn lemma_prefix_unique(
    offset: u8,
    len_a: nat,
    len_b: nat,
    tail_a: Seq<u8>,
    tail_b: Seq<u8>,
)
    requires
        offset == STRING_OFFSET || offset == LIST_OFFSET,
        len_a <= u64::MAX,
        len_b <= u64::MAX,
        rlp_prefix(offset, len_a) + tail_a == rlp_prefix(offset, len_b) + tail_b,
    ensures
        len_a == len_b,
        tail_a == tail_b,
{
    let whole = rlp_prefix(offset, len_a) + tail_a;
    lemma_pow256_eight();
    lemma_be_bytes_len(len_a, 8);
    lemma_be_bytes_len(len_b, 8);
    lemma_be_bytes_empty(len_a);
    lemma_be_bytes_empty(len_b);
    assert(whole[0] == rlp_prefix(offset, len_a)[0]);
    assert(whole[0] == rlp_prefix(offset, len_b)[0]);
    if len_a <= 55 {
        assert(len_b <= 55);
        assert(tail_a =~= whole.subrange(1, whole.len() as int));
        assert(tail_b =~= whole.subrange(1, whole.len() as int));
    } else {
        assert(len_b > 55);
        let digits = be_bytes(len_a).len() as int;
        assert(be_bytes(len_b).len() == digits);
        assert(be_bytes(len_a) =~= whole.subrange(1, 1 + digits));
        assert(be_bytes(len_b) =~= whole.subrange(1, 1 + digits));
        lemma_be_value_of_be_bytes(len_a);
        lemma_be_value_of_be_bytes(len_b);
        assert(tail_a =~= whole.subrange(1 + digits, whole.len() as int));
        assert(tail_b =~= whole.subrange(1 + digits, whole.len() as int));
    }
}

/// An encoded byte string tells the string: where two encodings, each followed by
/// anything, give the same bytes, the strings are the same and so is what follows.
pub proof fn lemma_str_unique(a: Seq<u8>, b: Seq<u8>, tail_a: Seq<u8>, tail_b: Seq<u8>)
    requires
        a.len() <= u64::MAX,
        b.len() <= u64::MAX,
        rlp_str(a) + tail_a == rlp_str(b) + tail_b,
    ensures
        a == b,
        tail_a == tail_b,
{
    let whole = rlp_str(a) + tail_a;
    let single_a = a.len() == 1 && a[0] < STRING_OFFSET;
    let single_b = b.len() == 1 && b[0] < STRING_OFFSET;
    lemma_pow256_eight();
    lemma_be_bytes_len(a.len(), 8);
    lemma_be_bytes_len(b.len(), 8);
    assert(whole[0] == rlp_str(a)[0]);
    assert(whole[0] == rlp_str(b)[0]);
    if !single_a {
        assert(rlp_str(a)[0] == rlp_prefix(STRING_OFFSET, a.len())[0]);
        assert(rlp_str(a)[0] >= STRING_OFFSET);
    }
    if !single_b {
        assert(rlp_str(b)[0] == rlp_prefix(STRING_OFFSET, b.len())[0]);
        assert(rlp_str(b)[0] >= STRING_OFFSET);
    }
    if single_a {
        assert(single_b);
        assert(a =~= b);
        assert(tail_a =~= whole.subrange(1, whole.len() as int));
        assert(tail_b =~= whole.subrange(1, whole.len() as int));
    } else {
        assert(!single_b);
        assert(rlp_prefix(STRING_OFFSET, a.len()) + (a + tail_a) =~= whole);
        assert(rlp_prefix(STRING_OFFSET, b.len()) + (b + tail_b) =~= whole);
        lemma_prefix_unique(STRING_OFFSET, a.len(), b.len(), a + tail_a, b + tail_b);
        let both = a + tail_a;
        assert(a =~= both.subrange(0, a.len() as int));
        assert(b =~= both.subrange(0, a.len() as int));
        assert(tail_a =~= both.subrange(a.len() as int, both.len() as int));
        assert(tail_b =~= both.subrange(a.len() as int, both.len() as int));
    }
}

/// An encoded list tells its items: where two encodings, each followed by
/// anything, give the same bytes, the encoded items are the same and so is what
/// follows.
pub proof fn lemma_list_unique(a: Seq<u8>, b: Seq<u8>, tail_a: Seq<u8>, tail_b: Seq<u8>)
    requires
        a.len() <= u64::MAX,
        b.len() <= u64::MAX,
        rlp_list(a) + tail_a == rlp_list(b) + tail_b,
    ensures
        a == b,
        tail_a == tail_b,
{
    let whole = rlp_list(a) + tail_a;
    assert(rlp_prefix(LIST_OFFSET, a.len()) + (a + tail_a) =~= whole);
    assert(rlp_prefix(LIST_OFFSET, b.len()) + (b + tail_b) =~= whole);
    lemma_prefix_unique(LIST_OFFSET, a.len(), b.len(), a + tail_a, b + tail_b);
    let both = a + tail_a;
    assert(a =~= both.subrange(0, a.len() as int));
    assert(b =~= both.subrange(0, a.len() as int));
    assert(tail_a =~= both.subrange(a.len() as int, both.len() as int));
    assert(tail_b =~= both.subrange(a.len() as int, both.len() as int));
}

/// An encoded byte string is not empty, and no shorter than the string.
pub proof fn lemma_str_len(data: Seq<u8>)
    ensures
        rlp_str(data).len() >= 1,
        rlp_str(data).len() >= data.len(),
{
}

/// An encoded list is not empty, and no shorter than its encoded items.
pub proof fn lemma_list_len(payload: Seq<u8>)
    ensures
        rlp_list(payload).len() >= 1,
        rlp_list(payload).len() >= payload.len(),
{
}

/// Two encoded byte strings, one after the other and followed by anything, tell
/// both strings and what follows.
pub proof fn lemma_two_strs_unique(
    a: (Seq<u8>, Seq<u8>),
    b: (Seq<u8>, Seq<u8>),
    tail_a: Seq<u8>,
    tail_b: Seq<u8>,
)
    requires
        a.0.len() <= u64::MAX,
        a.1.len() <= u64::MAX,
        b.0.len() <= u64::MAX,
        b.1.len() <= u64::MAX,
        rlp_str(a.0) + rlp_str(a.1) + tail_a == rlp_str(b.0) + rlp_str(b.1) + tail_b,
    ensures
        a == b,
        tail_a == tail_b,
{
    let first_a = rlp_str(a.0);
    let first_b = rlp_str(b.0);
    let second_a = rlp_str(a.1);
    let second_b = rlp_str(b.1);
    assert(first_a + (second_a + tail_a) =~= first_a + second_a + tail_a);
    assert(first_b + (second_b + tail_b) =~= first_b + second_b + tail_b);
    lemma_str_unique(a.0, b.0, second_a + tail_a, second_b + tail_b);
    lemma_str_unique(a.1, b.1, tail_a, tail_b);
}

/// Encoded strings, one after another, start with the first of them.
pub proof fn lemma_strs_first(items: Seq<Seq<u8>>)
    requires
        items.len() > 0,
    ensures
        rlp_strs(items) == rlp_str(items.first()) + rlp_strs(items.drop_first()),
    decreases items.len(),
{
    if items.len() == 1 {
        assert(items.drop_last() =~= Seq::<Seq<u8>>::empty());
        assert(items.drop_first() =~= Seq::<Seq<u8>>::empty());
        assert(rlp_strs(items) =~= rlp_str(items.first()) + rlp_strs(items.drop_first()));
    } else {
        lemma_strs_first(items.drop_last());
        assert(items.drop_last().drop_first() =~= items.drop_first().drop_last());
        assert(items.drop_last().first() == items.first());
        assert(items.drop_first().last() == items.last());
        assert(rlp_strs(items) =~= rlp_str(items.first()) + rlp_strs(items.drop_first()));
    }
}

/// Encoded strings, one after another, are as long as all of them together, so
/// none of them is longer.
pub proof fn lemma_strs_len(items: Seq<Seq<u8>>, i: int)
    requires
        0 <= i < items.len(),
    ensures
        items[i].len() <= rlp_str(items[i]).len() <= rlp_strs(items).len(),
    decreases items.len(),
{
    if i < items.len() - 1 {
        lemma_strs_len(items.drop_last(), i);
    }
}

/// Encoded strings, one after another, tell the strings: two sequences of
/// strings with the same bytes are the same.
pub proof fn lemma_strs_unique(a: Seq<Seq<u8>>, b: Seq<Seq<u8>>)
    requires
        rlp_strs(a).len() <= u64::MAX,
        rlp_strs(a) == rlp_strs(b),
    ensures
        a == b,
    decreases a.len(),
{
    if a.len() == 0 {
        if b.len() > 0 {
            lemma_strs_len(b, 0);
        }
        assert(a =~= b);
    } else {
        lemma_strs_len(a, 0);
        if b.len() == 0 {
            assert(false);
        }
        lemma_strs_len(b, 0);
        lemma_strs_first(a);
        lemma_strs_first(b);
        lemma_str_unique(
            a.first(),
            b.first(),
            rlp_strs(a.drop_first()),
            rlp_strs(b.drop_first()),
        );
        lemma_strs_unique(a.drop_first(), b.drop_first());
        assert(a =~= seq![a.first()] + a.drop_first());
        assert(b =~= seq![b.first()] + b.drop_first());
    }
}

/// Appends `data` to `out`.
pub fn append_bytes(out: &mut Vec<u8>, data: &[u8])
    ensures
        final(out)@ == old(out)@ + data@,
{
    let mut i: usize = 0;
    while i < data.len()
        invariant
            i <= data.len(),
            out@ == old(out)@ + data@.take(i as int),
        decreases data.len() - i,
    {
        out.push(data[i]);
        i = i + 1;
        assert(out@ =~= old(out)@ + data@.take(i as int));
    }
    assert(data@.take(i as int) =~= data@);
}

/// Appends the prefix of content that is `len` bytes long.
fn append_prefix(out: &mut Vec<u8>, offset: u8, len: usize)
    requires
        offset == STRING_OFFSET || offset == LIST_OFFSET,
    ensures
        final(out)@ == old(out)@ + rlp_prefix(offset, len as nat),
{
    if len <= 55 {
        out.push(offset + (len as u8));
        assert(out@ =~= old(out)@ + rlp_prefix(offset, len as nat));
    } else {
        let digits = u64_to_be_bytes(len as u64);
        proof {
            lemma_pow256_eight();
            lemma_be_bytes_len(len as nat, 8);
        }
        out.push(offset + 55 + (digits.len() as u8));
        append_bytes(out, digits.as_slice());
        assert(out@ =~= old(out)@ + rlp_prefix(offset, len as nat));
    }
}

/// Appends the encoding of the byte string `data` to `out`.
pub fn append_str(out: &mut Vec<u8>, data: &[u8])
    ensures
        final(out)@ == old(out)@ + rlp_str(data@),
{
    if data.len() == 1 && data[0] < STRING_OFFSET {
        out.push(data[0]);
        assert(out@ =~= old(out)@ + rlp_str(data@));
    } else {
        append_prefix(out, STRING_OFFSET, data.len());
        append_bytes(out, data);
        assert(out@ =~= old(out)@ + rlp_str(data@));
    }
}

/// Appends the encoding of the list whose encoded items are `payload` to `out`.
pub fn append_list(out: &mut Vec<u8>, payload: &[u8])
    ensures
        final(out)@ == old(out)@ + rlp_list(payload@),
{
    append_prefix(out, LIST_OFFSET, payload.len());
    append_bytes(out, payload);
    assert(out@ =~= old(out)@ + rlp_list(payload@));
}

} // verus!
