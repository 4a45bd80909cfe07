//! Byte strings: comparison, copying, and the fixed-width integer encodings
//! that every hashed or transmitted structure of the crate is laid out with.

use vstd::prelude::*;

verus! {

/// The value of `bytes` read as a big-endian number.
pub open spec fn be_value(bytes: Seq<u8>) -> nat
    decreases bytes.len(),
{
    if bytes.len() == 0 {
        0
    } else {
        be_value(bytes.drop_last()) * 256 + bytes.last() as nat
    }
}

/// The `width` low-order base-256 digits of `value`, least significant first.
pub open spec fn le_bytes(value: nat, width: nat) -> Seq<u8>
    decreases width,
{
    if width == 0 {
        Seq::empty()
    } else {
        seq![(value % 256) as u8] + le_bytes(value / 256, (width - 1) as nat)
    }
}

/// The `width` low-order base-256 digits of `value`, most significant first.
pub open spec fn be_bytes(value: nat, width: nat) -> Seq<u8>
    decreases width,
{
    if width == 0 {
        Seq::empty()
    } else {
        be_bytes(value / 256, (width - 1) as nat).push((value % 256) as u8)
    }
}

/// Every byte string of a given length has its own value.
pub proof fn lemma_be_value_injective(a: Seq<u8>, b: Seq<u8>)
    requires
        a.len() == b.len(),
        be_value(a) == be_value(b),
    ensures
        a == b,
    decreases a.len(),
{
    if a.len() > 0 {
        lemma_be_value_injective(a.drop_last(), b.drop_last());
        assert(a =~= a.drop_last().push(a.last()));
        assert(b =~= b.drop_last().push(b.last()));
    } else {
        assert(a =~= b);
    }
}

/// The first differing byte decides which of two strings has the larger value.
pub proof fn lemma_be_value_order(a: Seq<u8>, b: Seq<u8>, i: int)
    requires
        a.len() == b.len(),
        0 <= i < a.len(),
        a.take(i) == b.take(i),
        a[i] < b[i],
    ensures
        be_value(a) < be_value(b),
    decreases a.len(),
{
    if i == a.len() - 1 {
        assert(a.drop_last() =~= a.take(i));
        assert(b.drop_last() =~= b.take(i));
    } else {
        assert(a.drop_last().take(i) =~= a.take(i));
        assert(b.drop_last().take(i) =~= b.take(i));
        lemma_be_value_order(a.drop_last(), b.drop_last(), i);
    }
}

/// Both encodings have the requested width.
pub proof fn lemma_encoding_width(value: nat, width: nat)
    ensures
        le_bytes(value, width).len() == width,
        be_bytes(value, width).len() == width,
    decreases width,
{
    if width > 0 {
        lemma_encoding_width(value / 256, (width - 1) as nat);
    }
}

/// Big-endian encoding is undone by reading the value back, for every value
/// that fits the width.
pub proof fn lemma_be_round_trip(value: nat, width: nat)
    requires
        value < vstd::arithmetic::power::pow(256, width),
    ensures
        be_value(be_bytes(value, width)) == value,
    decreases width,
{
    reveal(vstd::arithmetic::power::pow);
    if width > 0 {
        let rest: nat = value / 256;
        vstd::arithmetic::power::lemma_pow_positive(256, (width - 1) as nat);
        assert(rest < vstd::arithmetic::power::pow(256, (width - 1) as nat));
        lemma_be_round_trip(rest, (width - 1) as nat);
        assert(be_bytes(value, width).drop_last() =~= be_bytes(rest, (width - 1) as nat));
    }
}

/// Whether two byte strings are the same.
pub fn bytes_equal(a: &[u8], b: &[u8]) -> (same: bool)
    ensures
        same == (a@ == b@),
{
    if a.len() != b.len() {
        return false;
    }
    let mut i: usize = 0;
    while i < a.len()
        invariant
            i <= a@.len(),
            a@.len() == b@.len(),
            forall|j: int| 0 <= j < i ==> a@[j] == b@[j],
        decreases a@.len() - i,
    {
        if a[i] != b[i] {
            return false;
        }
        i += 1;
    }
    assert(a@ =~= b@);
    true
}

/// Whether `a` has a smaller big-endian value than `b`; for strings of equal
/// length this is their lexicographic order.
pub fn bytes_precede(a: &[u8], b: &[u8]) -> (less: bool)
    requires
        a@.len() == b@.len(),
    ensures
        less == (be_value(a@) < be_value(b@)),
{
    let mut i: usize = 0;
    while i < a.len()
        invariant
            i <= a@.len(),
            a@.len() == b@.len(),
            a@.take(i as int) == b@.take(i as int),
        decreases a@.len() - i,
    {
        if a[i] < b[i] {
            proof {
                lemma_be_value_order(a@, b@, i as int);
            }
            return true;
        }
        if b[i] < a[i] {
            proof {
                lemma_be_value_order(b@, a@, i as int);
            }
            return false;
        }
        assert(a@.take(i + 1) =~= a@.take(i as int).push(a@[i as int]));
        assert(b@.take(i + 1) =~= b@.take(i as int).push(b@[i as int]));
        i += 1;
    }
    assert(a@.take(a@.len() as int) =~= a@);
    assert(b@.take(b@.len() as int) =~= b@);
    false
}

/// Appends `tail` to `buffer`.
pub fn append_bytes(buffer: &mut Vec<u8>, tail: &[u8])
    ensures
        final(buffer)@ == old(buffer)@ + tail@,
{
    let mut i: usize = 0;
    while i < tail.len()
        invariant
            i <= tail@.len(),
            buffer@ == old(buffer)@ + tail@.take(i as int),
        decreases tail@.len() - i,
    {
        buffer.push(tail[i]);
        assert(tail@.take(i + 1) =~= tail@.take(i as int).push(tail@[i as int]));
        assert(buffer@ =~= old(buffer)@ + tail@.take(i + 1));
        i += 1;
    }
    assert(tail@.take(tail@.len() as int) =~= tail@);
}

/// A fresh copy of `bytes[start..end]`.
pub fn copy_range(bytes: &[u8], start: usize, end: usize) -> (copy: Vec<u8>)
    requires
        start <= end <= bytes@.len(),
    ensures
        copy@ == bytes@.subrange(start as int, end as int),
{
    let mut copy: Vec<u8> = Vec::new();
    let mut i: usize = start;
    while i < end
        invariant
            start <= i <= end <= bytes@.len(),
            copy@ == bytes@.subrange(start as int, i as int),
        decreases end - i,
    {
        copy.push(bytes[i]);
        assert(copy@ =~= bytes@.subrange(start as int, i + 1));
        i += 1;
    }
    copy
}

/// A fresh copy of `bytes`.
pub fn copy_bytes(bytes: &[u8]) -> (copy: Vec<u8>)
    ensures
        copy@ == bytes@,
{
    let copy = copy_range(bytes, 0, bytes.len());
    assert(bytes@.subrange(0, bytes@.len() as int) =~= bytes@);
    copy
}

/// Appends `value` in eight bytes, least significant first.
pub fn append_u64_le(buffer: &mut Vec<u8>, value: u64)
    ensures
        final(buffer)@ == old(buffer)@ + le_bytes(value as nat, 8),
{
    append_le(buffer, value, 8);
}

/// Appends `value` in four bytes, least significant first.
pub fn append_u32_le(buffer: &mut Vec<u8>, value: u32)
    ensures
        final(buffer)@ == old(buffer)@ + le_bytes(value as nat, 4),
{
    append_le(buffer, value as u64, 4);
}

fn append_le(buffer: &mut Vec<u8>, value: u64, width: usize)
    ensures
        final(buffer)@ == old(buffer)@ + le_bytes(value as nat, width as nat),
    decreases width,
{
    if width == 0 {
        assert(buffer@ =~= old(buffer)@ + le_bytes(value as nat, 0));
    } else {
        buffer.push((value % 256) as u8);
        append_le(buffer, value / 256, width - 1);
        assert(buffer@ =~= old(buffer)@ + le_bytes(value as nat, width as nat));
    }
}

/// `value` in eight bytes, most significant first.
pub fn u64_be(value: u64) -> (bytes: Vec<u8>)
    ensures
        bytes@ == be_bytes(value as nat, 8),
{
    to_be(value, 8)
}

fn to_be(value: u64, width: usize) -> (bytes: Vec<u8>)
    ensures
        bytes@ == be_bytes(value as nat, width as nat),
    decreases width,
{
    if width == 0 {
        Vec::new()
    } else {
        let mut bytes = to_be(value / 256, width - 1);
        bytes.push((value % 256) as u8);
        bytes
    }
}

/// Reads eight bytes, most significant first.
pub fn u64_from_be(bytes: &[u8]) -> (value: u64)
    requires
        bytes@.len() == 8,
    ensures
        value == be_value(bytes@),
{
    let mut value: u64 = 0;
    let mut i: usize = 0;
    proof {
        vstd::arithmetic::power::lemma_pow0(256);
    }
    while i < 8
        invariant
            i <= 8,
            bytes@.len() == 8,
            value == be_value(bytes@.take(i as int)),
            value < vstd::arithmetic::power::pow(256, i as nat),
        decreases 8 - i,
    {
        proof {
            assert(bytes@.take(i + 1).drop_last() =~= bytes@.take(i as int));
            reveal(vstd::arithmetic::power::pow);
            vstd::arithmetic::power::lemma_pow_increases(256, (i + 1) as nat, 8);
            assert(vstd::arithmetic::power::pow(256, 8) == 0x1_0000_0000_0000_0000) by {
                reveal_with_fuel(vstd::arithmetic::power::pow, 9);
            }
            assert(value * 256 + bytes@[i as int] < vstd::arithmetic::power::pow(256, (i + 1) as nat));
        }
        value = value * 256 + bytes[i] as u64;
        i += 1;
    }
    assert(bytes@.take(8) =~= bytes@);
    value
}

/// Little-endian bytes are the big-endian ones in reverse: the least significant
/// comes first.
pub proof fn law_byte_orders_mirror(value: nat, width: nat)
    ensures
        le_bytes(value, width) == be_bytes(value, width).reverse(),
        width > 0 ==> le_bytes(value, width)[0] == (value % 256) as u8,
        width > 0 ==> be_bytes(value, width)[width - 1] == (value % 256) as u8,
    decreases width,
{
    lemma_encoding_width(value, width);
    if width > 0 {
        let rest = (width - 1) as nat;
        law_byte_orders_mirror(value / 256, rest);
        lemma_encoding_width(value / 256, rest);
        let big = be_bytes(value / 256, rest);
        assert(big.push((value % 256) as u8).reverse() =~= seq![(value % 256) as u8]
            + big.reverse());
    } else {
        assert(le_bytes(value, width) =~= be_bytes(value, width).reverse());
    }
}

} // verus!
