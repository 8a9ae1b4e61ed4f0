//! Little-endian numbers in byte sequences.

use vstd::prelude::*;

verus! {

/// The lowest `width` bytes of a number, least significant first.
pub open spec fn le_bytes(number: nat, width: nat) -> Seq<u8>
    decreases width,
{
    if width == 0 {
        Seq::empty()
    } else {
        seq![(number % 256) as u8] + le_bytes(number / 256, (width - 1) as nat)
    }
}

/// The number that bytes spell, least significant first.
pub open spec fn le_value(bytes: Seq<u8>) -> nat
    decreases bytes.len(),
{
    if bytes.len() == 0 {
        0
    } else {
        bytes[0] as nat + 256 * le_value(bytes.drop_first())
    }
}

/// How many numbers `width` bytes can spell.
pub open spec fn le_limit(width: nat) -> nat
    decreases width,
{
    if width == 0 {
        1
    } else {
        256 * le_limit((width - 1) as nat)
    }
}

/// Bytes spell a number below the limit of their width.
pub proof fn lemma_le_value_bound(bytes: Seq<u8>)
    ensures
        le_value(bytes) < le_limit(bytes.len()),
    decreases bytes.len(),
{
    if bytes.len() > 0 {
        lemma_le_value_bound(bytes.drop_first());
    }
}

/// The bytes of a number are as many as asked for.
pub proof fn lemma_le_bytes_len(number: nat, width: nat)
    ensures
        le_bytes(number, width).len() == width,
    decreases width,
{
    if width > 0 {
        lemma_le_bytes_len(number / 256, (width - 1) as nat);
    }
}

/// A number that fits the width is read back from its bytes.
pub proof fn law_le_roundtrip(number: nat, width: nat)
    requires
        number < le_limit(width),
    ensures
        le_value(le_bytes(number, width)) == number,
    decreases width,
{
    if width > 0 {
        law_le_roundtrip(number / 256, (width - 1) as nat);
        assert(le_bytes(number, width).drop_first() =~= le_bytes(
            number / 256,
            (width - 1) as nat,
        ));
    }
}

/// The limits of the two widths in use.
pub proof fn lemma_le_limits()
    ensures
        le_limit(4) == 0x1_0000_0000,
        le_limit(8) == 0x1_0000_0000_0000_0000,
{
    reveal_with_fuel(le_limit, 9);
}

proof fn lemma_le_limit_monotone(small: nat, large: nat)
    requires
        small <= large,
    ensures
        le_limit(small) <= le_limit(large),
    decreases large - small,
{
    if small < large {
        lemma_le_limit_monotone(small, (large - 1) as nat);
    }
}

/// Reads up to eight bytes as a number.
pub fn read_le(bytes: &[u8]) -> (number: u64)
    requires
        bytes@.len() <= 8,
    ensures
        number == le_value(bytes@),
        number < le_limit(bytes@.len()),
{
    let mut value: u64 = 0;
    let mut position: usize = bytes.len();
    while position > 0
        invariant
            position <= bytes@.len() <= 8,
            value == le_value(bytes@.skip(position as int)),
        decreases position,
    {
        position = position - 1;
        proof {
            let tail = bytes@.skip(position as int);
            assert(tail.drop_first() =~= bytes@.skip(position + 1));
            lemma_le_value_bound(tail);
            lemma_le_limit_monotone(tail.len(), 8);
            lemma_le_limits();
        }
        value = value * 256 + bytes[position] as u64;
    }
    proof {
        assert(bytes@.skip(0) =~= bytes@);
        lemma_le_value_bound(bytes@);
    }
    value
}

/// Appends the lowest `width` bytes of a number.
pub fn push_le(output: &mut Vec<u8>, number: u64, width: usize)
    ensures
        final(output)@ == old(output)@ + le_bytes(number as nat, width as nat),
{
    let mut rest: u64 = number;
    let mut left: usize = width;
    assert(output@ + le_bytes(number as nat, width as nat) == old(output)@ + le_bytes(
        number as nat,
        width as nat,
    ));
    while left > 0
        invariant
            output@ + le_bytes(rest as nat, left as nat) == old(output)@ + le_bytes(
                number as nat,
                width as nat,
            ),
        decreases left,
    {
        let ghost before = output@;
        output.push((rest % 256) as u8);
        assert(output@ + le_bytes((rest / 256) as nat, (left - 1) as nat) =~= before + le_bytes(
            rest as nat,
            left as nat,
        ));
        rest = rest / 256;
        left = left - 1;
    }
    assert(output@ + le_bytes(rest as nat, 0) =~= output@);
}

} // verus!
