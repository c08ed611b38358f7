//! Unsigned integers as big-endian byte strings.

use vstd::prelude::*;

verus! {

/// The number that `bytes` writes, most significant byte first.
pub open spec fn be_value(bytes: Seq<u8>) -> nat
    decreases bytes.len(),
{
    if bytes.len() == 0 {
        0
    } else {
        256 * be_value(bytes.drop_last()) + bytes.last() as nat
    }
}

/// The `width` low bytes of `value`, most significant byte first.
pub open spec fn be_bytes(value: nat, width: nat) -> Seq<u8>
    decreases width,
{
    if width == 0 {
        Seq::empty()
    } else {
        be_bytes(value / 256, (width - 1) as nat).push((value % 256) as u8)
    }
}

/// How many numbers `width` bytes can write.
pub open spec fn be_range(width: nat) -> nat
    decreases width,
{
    if width == 0 {
        1
    } else {
        256 * be_range((width - 1) as nat)
    }
}

pub proof fn lemma_be_bytes_len(value: nat, width: nat)
    ensures
        be_bytes(value, width).len() == width,
    decreases width,
{
    if width > 0 {
        lemma_be_bytes_len(value / 256, (width - 1) as nat);
    }
}

/// Reading back what was written gives the number, as long as it fits the
/// width.
pub proof fn lemma_be_value_of_bytes(value: nat, width: nat)
    requires
        value < be_range(width),
    ensures
        be_value(be_bytes(value, width)) == value,
    decreases width,
{
    if width > 0 {
        let head = be_bytes(value / 256, (width - 1) as nat);
        assert(value / 256 < be_range((width - 1) as nat));
        lemma_be_value_of_bytes(value / 256, (width - 1) as nat);
        assert(be_bytes(value, width).drop_last() =~= head);
    }
}

/// Writing back what was read gives the bytes.
pub proof fn lemma_be_bytes_of_value(bytes: Seq<u8>)
    ensures
        be_bytes(be_value(bytes), bytes.len()) == bytes,
    decreases bytes.len(),
{
    if bytes.len() > 0 {
        let head = be_value(bytes.drop_last());
        lemma_be_bytes_of_value(bytes.drop_last());
        assert(be_value(bytes) / 256 == head);
        assert(be_value(bytes) % 256 == bytes.last() as nat);
        assert(bytes.drop_last().push(bytes.last()) =~= bytes);
    }
}

pub proof fn lemma_be_value_bound(bytes: Seq<u8>)
    ensures
        be_value(bytes) < be_range(bytes.len()),
    decreases bytes.len(),
{
    if bytes.len() > 0 {
        lemma_be_value_bound(bytes.drop_last());
    }
}

pub proof fn lemma_be_range_2()
    ensures
        be_range(2) == 0x1_0000,
{
    reveal_with_fuel(be_range, 3);
}

pub proof fn lemma_be_range_8()
    ensures
        be_range(8) == 0x1_0000_0000_0000_0000,
{
    reveal_with_fuel(be_range, 9);
}

/// Appends the `width` low bytes of `value` to `out`.
pub fn push_be(out: &mut Vec<u8>, value: u64, width: usize)
    ensures
        final(out)@ == old(out)@ + be_bytes(value as nat, width as nat),
    decreases width,
{
    if width > 0 {
        push_be(out, value / 256, width - 1);
        out.push((value % 256) as u8);
    }
}

/// Reads all of `bytes` as one number.
pub fn read_be(bytes: &[u8]) -> (value: u64)
    requires
        bytes@.len() <= 8,
    ensures
        value == be_value(bytes@),
{
    let mut value: u64 = 0;
    let mut i: usize = 0;
    while i < bytes.len()
        invariant
            i <= bytes@.len() <= 8,
            value == be_value(bytes@.take(i as int)),
        decreases bytes@.len() - i,
    {
        proof {
            let next = bytes@.take(i + 1);
            assert(next.drop_last() =~= bytes@.take(i as int));
            lemma_be_value_bound(next);
            lemma_be_range_grows(next.len(), 8);
            lemma_be_range_8();
        }
        value = value * 256 + bytes[i] as u64;
        i = i + 1;
    }
    assert(bytes@.take(i as int) =~= bytes@);
    value
}

proof fn lemma_be_range_grows(narrow: nat, wide: nat)
    requires
        narrow <= wide,
    ensures
        be_range(narrow) <= be_range(wide),
    decreases wide,
{
    if narrow < wide {
        lemma_be_range_grows(narrow, (wide - 1) as nat);
    }
}

/// How much a byte counts for that has `places` bytes behind it.
pub open spec fn byte_weight(places: nat) -> nat {
    vstd::arithmetic::power::pow(256, places) as nat
}

proof fn lemma_byte_weight(places: nat)
    ensures
        byte_weight(0) == 1,
        byte_weight(places + 1) == 256 * byte_weight(places),
        byte_weight(places) > 0,
{
    vstd::arithmetic::power::lemma_pow0(256);
    vstd::arithmetic::power::lemma_pow_positive(256, places);
    vstd::arithmetic::power::lemma_pow_adds(256, 1, places);
    vstd::arithmetic::power::lemma_pow1(256);
}

/// Each byte of a number is the one for its place: the first is the most
/// significant.
pub proof fn law_be_bytes_places(value: nat, width: nat, i: int)
    requires
        0 <= i < width,
    ensures
        be_bytes(value, width).len() == width,
        be_bytes(value, width)[i] == (value / byte_weight((width - 1 - i) as nat)) % 256,
    decreases width,
{
    lemma_be_bytes_len(value, width);
    lemma_be_bytes_len(value / 256, (width - 1) as nat);
    if i < width - 1 {
        let k = (width - 2 - i) as nat;
        law_be_bytes_places(value / 256, (width - 1) as nat, i);
        lemma_byte_weight(k);
        vstd::arithmetic::div_mod::lemma_div_denominator(
            value as int,
            256,
            byte_weight(k) as int,
        );
        let w = byte_weight(k) as int;
        assert((width - 1 - i) as nat == k + 1);
        assert(value as int / (256 * w) == (value as int / 256) / w);
        assert(be_bytes(value, width)[i] == be_bytes(value / 256, (width - 1) as nat)[i]);
    } else {
        lemma_byte_weight(0);
        assert(byte_weight((width - 1 - i) as nat) == 1);
        assert(value / 1 == value);
    }
}

/// Two bytes are read as a high one and a low one.
pub proof fn law_be_value_2(bytes: Seq<u8>)
    requires
        bytes.len() == 2,
    ensures
        be_value(bytes) == 256 * bytes[0] + bytes[1],
{
    reveal_with_fuel(be_value, 3);
}

} // verus!
