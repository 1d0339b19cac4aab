//! Unsigned integers as fixed-width big-endian byte strings.

use crate::error::SliceTooShortError;
use vstd::prelude::*;

verus! {

/// The number that `bytes` denotes in base 256, most significant byte first.
pub open spec fn be_value(bytes: Seq<u8>) -> nat
    decreases bytes.len(),
{
    if bytes.len() == 0 {
        0
    } else {
        be_value(bytes.drop_last()) * 256 + bytes.last() as nat
    }
}

/// The `width` least significant base-256 digits of `value`, most
/// significant first.
pub open spec fn be_bytes(value: nat, width: nat) -> Seq<u8>
    decreases width,
{
    if width == 0 {
        Seq::empty()
    } else {
        be_bytes(value / 256, (width - 1) as nat).push((value % 256) as u8)
    }
}

/// The number of values that `width` bytes can tell apart: 256 to the power
/// `width`.
pub open spec fn be_limit(width: nat) -> nat
    decreases width,
{
    if width == 0 {
        1
    } else {
        256 * be_limit((width - 1) as nat)
    }
}

/// `be_bytes` yields exactly `width` bytes.
pub proof fn lemma_be_bytes_len(value: nat, width: nat)
    ensures
        be_bytes(value, width).len() == width,
    decreases width,
{
    if width > 0 {
        lemma_be_bytes_len(value / 256, (width - 1) as nat);
    }
}

/// A byte string denotes a number below the limit of its length.
pub proof fn lemma_be_value_bound(bytes: Seq<u8>)
    ensures
        be_value(bytes) < be_limit(bytes.len()),
    decreases bytes.len(),
{
    if bytes.len() > 0 {
        lemma_be_value_bound(bytes.drop_last());
    }
}

/// More bytes never lower the limit.
pub proof fn lemma_be_limit_increases(narrow: nat, wide: nat)
    requires
        narrow <= wide,
    ensures
        1 <= be_limit(narrow) <= be_limit(wide),
    decreases wide,
{
    if narrow < wide {
        lemma_be_limit_increases(narrow, (wide - 1) as nat);
    } else if wide > 0 {
        lemma_be_limit_increases((narrow - 1) as nat, (wide - 1) as nat);
    }
}

/// Reading back what was written gives the number, as far as it fits into
/// `width` bytes.
pub proof fn lemma_be_value_of_be_bytes(value: nat, width: nat)
    ensures
        be_value(be_bytes(value, width)) == value % be_limit(width),
    decreases width,
{
    if width > 0 {
        let rest = (width - 1) as nat;
        lemma_be_value_of_be_bytes(value / 256, rest);
        lemma_be_limit_increases(0, rest);
        assert(be_bytes(value, width).drop_last() == be_bytes(value / 256, rest));
        vstd::arithmetic::div_mod::lemma_mod_breakdown(value as int, 256, be_limit(rest) as int);
    }
}

/// Writing the number that a byte string denotes gives the byte string back.
pub proof fn lemma_be_bytes_of_be_value(bytes: Seq<u8>)
    ensures
        be_bytes(be_value(bytes), bytes.len()) == bytes,
    decreases bytes.len(),
{
    if bytes.len() > 0 {
        lemma_be_bytes_of_be_value(bytes.drop_last());
    }
}

/// Reads a `width`-byte big-endian number from the front of `bytes` and
/// returns it with the bytes that follow.
pub fn read_be(bytes: &[u8], width: usize) -> (r: Result<(u64, &[u8]), SliceTooShortError>)
    requires
        width <= 8,
    ensures
        r is Err <==> bytes@.len() < width,
        r matches Ok((value, rest)) ==> {
            &&& value == be_value(bytes@.take(width as int))
            &&& value < be_limit(width as nat)
            &&& rest@ == bytes@.skip(width as int)
        },
{
    if bytes.len() < width {
        return Err(SliceTooShortError);
    }
    let (head, rest) = bytes.split_at(width);
    let mut value: u64 = 0;
    let mut read: usize = 0;
    while read < width
        invariant
            read <= width <= 8,
            head@.len() == width,
            value == be_value(head@.take(read as int)),
        decreases width - read,
    {
        proof {
            lemma_be_value_bound(head@.take(read as int));
            reveal_with_fuel(be_limit, 8);
            assert(head@.take(read + 1).drop_last() == head@.take(read as int));
        }
        value = value * 256 + head[read] as u64;
        read += 1;
    }
    proof {
        assert(head@.take(width as int) == head@);
        lemma_be_value_bound(head@);
    }
    Ok((value, rest))
}

/// Appends the `width` least significant bytes of `value` to `out`, most
/// significant first.
pub fn write_be(out: &mut Vec<u8>, value: u64, width: usize)
    ensures
        final(out)@ == old(out)@ + be_bytes(value as nat, width as nat),
    decreases width,
{
    if width > 0 {
        write_be(out, value / 256, width - 1);
        out.push((value % 256) as u8);
        proof {
            let shorter = be_bytes((value / 256) as nat, (width - 1) as nat);
            assert((old(out)@ + shorter).push((value % 256) as u8) == old(out)@ + shorter.push(
                (value % 256) as u8,
            ));
        }
    }
}

} // verus!
