//! Little-endian integers on the wire.

use vstd::prelude::*;

verus! {

/// The number that `bytes` spell, least significant byte first.
pub open spec fn le_value(bytes: Seq<u8>) -> nat
    decreases bytes.len(),
{
    if bytes.len() == 0 {
        0
    } else {
        bytes[0] as nat + 256 * le_value(bytes.drop_first())
    }
}

/// The `width` low bytes of `value`, least significant byte first.
pub open spec fn le_bytes(value: nat, width: nat) -> Seq<u8>
    decreases width,
{
    if width == 0 {
        Seq::empty()
    } else {
        seq![(value % 256) as u8] + le_bytes(value / 256, (width - 1) as nat)
    }
}

/// `256` to the power `width`: the number of values that `width` bytes can spell.
pub open spec fn radix(width: nat) -> nat
    decreases width,
{
    if width == 0 {
        1
    } else {
        256 * radix((width - 1) as nat)
    }
}

pub proof fn lemma_radix_values()
    ensures
        radix(0) == 1,
        radix(1) == 0x100,
        radix(2) == 0x1_0000,
        radix(3) == 0x100_0000,
        radix(4) == 0x1_0000_0000,
        radix(5) == 0x100_0000_0000,
        radix(6) == 0x1_0000_0000_0000,
        radix(7) == 0x100_0000_0000_0000,
        radix(8) == 0x1_0000_0000_0000_0000,
{
    reveal_with_fuel(radix, 10);
}

pub proof fn lemma_le_bytes_len(value: nat, width: nat)
    ensures
        le_bytes(value, width).len() == width,
    decreases width,
{
    if width > 0 {
        lemma_le_bytes_len(value / 256, (width - 1) as nat);
    }
}

/// Every byte string spells a number below the radix of its length.
pub proof fn lemma_le_value_bound(bytes: Seq<u8>)
    ensures
        le_value(bytes) < radix(bytes.len()),
    decreases bytes.len(),
{
    if bytes.len() > 0 {
        lemma_le_value_bound(bytes.drop_first());
    }
}

/// Writing a number that fits and reading it back gives the number.
pub proof fn lemma_le_value_of_bytes(value: nat, width: nat)
    requires
        value < radix(width),
    ensures
        le_value(le_bytes(value, width)) == value,
    decreases width,
{
    if width > 0 {
        let rest = le_bytes(value / 256, (width - 1) as nat);
        let all = le_bytes(value, width);
        lemma_le_value_of_bytes(value / 256, (width - 1) as nat);
        assert(all.drop_first() =~= rest);
        assert(all[0] == (value % 256) as u8);
    }
}

/// Reading a byte string and writing the number at the same width gives the string.
pub proof fn lemma_le_bytes_of_value(bytes: Seq<u8>)
    ensures
        le_bytes(le_value(bytes), bytes.len()) == bytes,
    decreases bytes.len(),
{
    if bytes.len() > 0 {
        let rest = bytes.drop_first();
        lemma_le_bytes_of_value(rest);
        let value = le_value(bytes);
        assert(value % 256 == bytes[0] as nat);
        assert(value / 256 == le_value(rest));
        assert(le_bytes(value, bytes.len()) =~= bytes);
    } else {
        assert(le_bytes(le_value(bytes), 0) =~= bytes);
    }
}

/// The number that two byte strings spell when one follows the other.
pub proof fn lemma_le_value_concat(low: Seq<u8>, high: Seq<u8>)
    ensures
        le_value(low + high) == le_value(low) + radix(low.len()) * le_value(high),
    decreases low.len(),
{
    if low.len() == 0 {
        assert(low + high =~= high);
        assert(radix(0) == 1);
        assert(1 * le_value(high) == le_value(high));
    } else {
        let rest = low.drop_first();
        let all = low + high;
        lemma_le_value_concat(rest, high);
        assert(all.drop_first() =~= rest + high);
        assert(all[0] == low[0]);
        assert(le_value(all) == low[0] as nat + 256 * le_value(rest + high));
        assert(radix(low.len()) == 256 * radix(rest.len()));
        assert(256 * (radix(rest.len()) * le_value(high)) == (256 * radix(rest.len())) * le_value(
            high,
        )) by (nonlinear_arith);
        assert(256 * (le_value(rest) + radix(rest.len()) * le_value(high)) == 256 * le_value(rest)
            + 256 * (radix(rest.len()) * le_value(high))) by (nonlinear_arith);
    }
}

/// The radix of a sum of widths is the product of their radices.
pub proof fn lemma_radix_sum(a: nat, b: nat)
    ensures
        radix(a + b) == radix(a) * radix(b),
    decreases a,
{
    if a > 0 {
        lemma_radix_sum((a - 1) as nat, b);
        assert(256 * (radix((a - 1) as nat) * radix(b)) == (256 * radix((a - 1) as nat)) * radix(
            b,
        )) by (nonlinear_arith);
        assert(((a - 1) as nat) + b == (a + b - 1) as nat);
        assert(radix(a + b) == 256 * radix((a + b - 1) as nat));
    } else {
        assert(radix(a) == 1);
        assert(1 * radix(b) == radix(b));
    }
}

/// Appends the `width` low bytes of `value` to `out`, least significant first.
pub fn write_uint_le(value: u64, width: usize, out: &mut Vec<u8>)
    ensures
        final(out)@ == old(out)@ + le_bytes(value as nat, width as nat),
{
    let mut rest: u64 = value;
    let mut i: usize = 0;
    while i < width
        invariant
            i <= width,
            old(out)@ + le_bytes(value as nat, width as nat) == out@ + le_bytes(
                rest as nat,
                (width - i) as nat,
            ),
        decreases width - i,
    {
        let ghost before = out@;
        let byte: u8 = (rest % 256) as u8;
        out.push(byte);
        assert(before + le_bytes(rest as nat, (width - i) as nat) =~= out@ + le_bytes(
            (rest / 256) as nat,
            (width - i - 1) as nat,
        ));
        rest = rest / 256;
        i += 1;
    }
    assert(out@ + le_bytes(rest as nat, 0) =~= out@);
}

/// Reads the `width` bytes of `bytes` from `at` on as a little-endian number.
pub fn read_uint_le(bytes: &[u8], at: usize, width: usize) -> (value: u64)
    requires
        width <= 8,
        at + width <= bytes@.len(),
    ensures
        value as nat == le_value(bytes@.subrange(at as int, at + width)),
        (value as nat) < radix(width as nat),
{
    let total: usize = bytes.len();
    let mut value: u64 = 0;
    let mut i: usize = width;
    proof {
        lemma_radix_values();
        assert(bytes@.subrange(at + width, at + width) =~= Seq::<u8>::empty());
    }
    while i > 0
        invariant
            i <= width <= 8,
            at + width <= bytes@.len() == total,
            value as nat == le_value(bytes@.subrange(at + i, at + width)),
            (value as nat) < radix((width - i) as nat),
        decreases i,
    {
        i -= 1;
        let byte: u8 = bytes[at + i];
        proof {
            lemma_radix_values();
            let tail = bytes@.subrange(at + i, at + width);
            assert(tail.drop_first() =~= bytes@.subrange(at + i + 1, at + width));
            assert(tail[0] == byte);
            assert(radix((width - i) as nat) == 256 * radix((width - i - 1) as nat));
            assert(radix((width - i) as nat) <= radix(8)) by {
                lemma_radix_monotonic((width - i) as nat, 8);
            }
        }
        value = value * 256 + byte as u64;
    }
    value
}

pub proof fn lemma_radix_monotonic(a: nat, b: nat)
    requires
        a <= b,
    ensures
        radix(a) <= radix(b),
        radix(a) > 0,
    decreases b,
{
    if a < b {
        lemma_radix_monotonic(a, (b - 1) as nat);
    } else if a > 0 {
        lemma_radix_monotonic((a - 1) as nat, (a - 1) as nat);
    }
}

/// Appends a copy of `source` to `out`.
pub fn append_bytes(out: &mut Vec<u8>, source: &[u8])
    ensures
        final(out)@ == old(out)@ + source@,
{
    let total: usize = source.len();
    let mut i: usize = 0;
    while i < total
        invariant
            i <= total == source@.len(),
            out@ == old(out)@ + source@.subrange(0, i as int),
        decreases total - i,
    {
        let ghost before = out@;
        out.push(source[i]);
        i += 1;
        assert(out@ =~= old(out)@ + source@.subrange(0, i as int));
    }
    assert(source@.subrange(0, total as int) =~= source@);
}

} // verus!
