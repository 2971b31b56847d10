//! Fixed-width elements on the wire, and sequences of them.

use crate::encoding::{le_bytes, le_value, read_uint_le, write_uint_le};
use crate::encoding::{lemma_le_bytes_len, lemma_le_bytes_of_value, lemma_le_value_of_bytes};
use crate::encoding::lemma_radix_values;
use vstd::prelude::*;
use vstd::slice::slice_subrange;

verus! {

/// Why bytes were not accepted.
#[derive(Clone, Copy, Debug, PartialEq, Eq, Structural)]
pub enum Fault {
    /// The bytes end before the value does.
    Truncated,
    /// A point does not decompress, a scalar is not below the field's
    /// order, or a size, an index or a degree bound contradicts the rest of
    /// the key.
    InvalidEncoding,
    /// A point is on the curve but outside the prime-order subgroup.
    SubgroupCheckFailed,
}

/// Bytes of a count in front of a sequence.
pub const COUNT_WIDTH: usize = 8;

/// A value that always takes the same number of bytes on the wire.
pub trait WireElement: View + Sized {
    /// The number of bytes of one element.
    spec fn width() -> nat;

    /// The values that may stand in a key.
    spec fn valid(value: Self::V) -> bool;

    /// The bytes of a value.
    spec fn encode(value: Self::V) -> Seq<u8>;

    /// What `width()` bytes are read as.
    spec fn decode(bytes: Seq<u8>) -> Result<Self::V, Fault>;

    /// An element has at least one byte.
    proof fn lemma_width()
        ensures
            Self::width() > 0,
    ;

    /// A valid value is written in `width()` bytes and read back unchanged.
    proof fn lemma_decode_encoded(value: Self::V)
        requires
            Self::valid(value),
        ensures
            Self::encode(value).len() == Self::width(),
            Self::decode(Self::encode(value)) == Ok::<Self::V, Fault>(value),
    ;

    /// What is read is valid, and is written as the bytes it was read from.
    proof fn lemma_encode_decoded(bytes: Seq<u8>)
        requires
            bytes.len() == Self::width(),
            Self::decode(bytes) is Ok,
        ensures
            Self::valid(Self::decode(bytes)->Ok_0),
            Self::encode(Self::decode(bytes)->Ok_0) == bytes,
    ;

    /// The number of bytes of one element.
    fn byte_width() -> (width: usize)
        ensures
            width == Self::width(),
    ;

    /// Reads one element from exactly `width()` bytes.
    fn read(bytes: &[u8]) -> (element: Result<Self, Fault>)
        requires
            bytes@.len() == Self::width(),
        ensures
            match element {
                Ok(value) => Self::decode(bytes@) == Ok::<Self::V, Fault>(value@),
                Err(fault) => Self::decode(bytes@) == Err::<Self::V, Fault>(fault),
            },
    ;

    /// Appends the bytes of the element to `out`.
    fn write(&self, out: &mut Vec<u8>)
        ensures
            final(out)@ == old(out)@ + Self::encode(self@),
    ;
}

/// The view of each item.
pub open spec fn views<T: View>(items: Seq<T>) -> Seq<T::V> {
    items.map_values(|item: T| item@)
}

/// Every item may stand in a key.
pub open spec fn all_valid<T: WireElement>(items: Seq<T::V>) -> bool {
    forall|i: int| 0 <= i < items.len() ==> T::valid(#[trigger] items[i])
}

/// The bytes of the items, one after the other.
pub open spec fn encode_items<T: WireElement>(items: Seq<T::V>) -> Seq<u8>
    decreases items.len(),
{
    if items.len() == 0 {
        Seq::empty()
    } else {
        T::encode(items[0]) + encode_items::<T>(items.drop_first())
    }
}

/// Reads `count` items from the front of `bytes`: the items and the number
/// of bytes they took, or the fault of the first item that is not accepted.
pub open spec fn decode_items<T: WireElement>(bytes: Seq<u8>, count: nat) -> Result<
    (Seq<T::V>, nat),
    Fault,
>
    decreases count,
{
    if count == 0 {
        Ok((Seq::empty(), 0))
    } else if bytes.len() < T::width() {
        Err(Fault::Truncated)
    } else {
        match T::decode(bytes.subrange(0, T::width() as int)) {
            Err(fault) => Err(fault),
            Ok(first) => match decode_items::<T>(
                bytes.skip(T::width() as int),
                (count - 1) as nat,
            ) {
                Err(fault) => Err(fault),
                Ok((rest, used)) => Ok((seq![first] + rest, T::width() + used)),
            },
        }
    }
}

/// A sequence with its length in front, as eight little-endian bytes.
pub open spec fn encode_counted<T: WireElement>(items: Seq<T::V>) -> Seq<u8> {
    le_bytes(items.len(), COUNT_WIDTH as nat) + encode_items::<T>(items)
}

/// Reads a count and then that many items.
pub open spec fn decode_counted<T: WireElement>(bytes: Seq<u8>) -> Result<(Seq<T::V>, nat), Fault> {
    if bytes.len() < COUNT_WIDTH {
        Err(Fault::Truncated)
    } else {
        match decode_items::<T>(
            bytes.skip(COUNT_WIDTH as int),
            le_value(bytes.subrange(0, COUNT_WIDTH as int)),
        ) {
            Err(fault) => Err(fault),
            Ok((items, used)) => Ok((items, (COUNT_WIDTH + used) as nat)),
        }
    }
}

/// `head` and `used` put in front of what `tail` read.
pub open spec fn after<V>(head: Seq<V>, used: nat, tail: Result<(Seq<V>, nat), Fault>) -> Result<
    (Seq<V>, nat),
    Fault,
> {
    match tail {
        Ok((rest, more)) => Ok((head + rest, used + more)),
        Err(fault) => Err(fault),
    }
}

/// Valid items, written and followed by anything, are read back unchanged.
pub proof fn lemma_decode_encoded_items<T: WireElement>(items: Seq<T::V>, rest: Seq<u8>)
    requires
        all_valid::<T>(items),
    ensures
        decode_items::<T>(encode_items::<T>(items) + rest, items.len()) == Ok::<
            (Seq<T::V>, nat),
            Fault,
        >((items, encode_items::<T>(items).len())),
    decreases items.len(),
{
    if items.len() > 0 {
        let first = T::encode(items[0]);
        let tail = items.drop_first();
        let bytes = encode_items::<T>(items) + rest;
        T::lemma_decode_encoded(items[0]);
        assert(all_valid::<T>(tail)) by {
            assert forall|i: int| 0 <= i < tail.len() implies T::valid(#[trigger] tail[i]) by {
                assert(tail[i] == items[i + 1]);
            }
        }
        lemma_decode_encoded_items::<T>(tail, rest);
        assert(bytes.subrange(0, T::width() as int) =~= first);
        assert(bytes.skip(T::width() as int) =~= encode_items::<T>(tail) + rest);
        assert(seq![items[0]] + tail =~= items);
        assert(encode_items::<T>(items).len() == T::width() + encode_items::<T>(tail).len());
    } else {
        assert(items =~= Seq::<T::V>::empty());
    }
}

/// Where the items before item `index` are valid and item `index` is written
/// as bytes that are read as a fault, reading more than `index` items gives
/// that fault.
pub proof fn lemma_decode_faulty_items<T: WireElement>(
    items: Seq<T::V>,
    index: int,
    rest: Seq<u8>,
    count: nat,
)
    requires
        0 <= index < items.len(),
        index < count,
        forall|i: int| 0 <= i < index ==> T::valid(#[trigger] items[i]),
        T::encode(items[index]).len() == T::width(),
        T::decode(T::encode(items[index])) is Err,
    ensures
        decode_items::<T>(encode_items::<T>(items) + rest, count) == Err::<(Seq<T::V>, nat), Fault>(
            T::decode(T::encode(items[index]))->Err_0,
        ),
    decreases index,
{
    let first = T::encode(items[0]);
    let tail = items.drop_first();
    let bytes = encode_items::<T>(items) + rest;
    if index == 0 {
        assert(bytes.subrange(0, T::width() as int) =~= first);
    } else {
        T::lemma_decode_encoded(items[0]);
        assert forall|i: int| 0 <= i < index - 1 implies T::valid(#[trigger] tail[i]) by {
            assert(tail[i] == items[i + 1]);
        }
        assert(tail[index - 1] == items[index]);
        lemma_decode_faulty_items::<T>(tail, index - 1, rest, (count - 1) as nat);
        assert(bytes.subrange(0, T::width() as int) =~= first);
        assert(bytes.skip(T::width() as int) =~= encode_items::<T>(tail) + rest);
    }
}

/// What is read is `count` valid items, written as the bytes they were read from.
pub proof fn lemma_encode_decoded_items<T: WireElement>(bytes: Seq<u8>, count: nat)
    requires
        decode_items::<T>(bytes, count) is Ok,
    ensures
        decode_items::<T>(bytes, count)->Ok_0.0.len() == count,
        decode_items::<T>(bytes, count)->Ok_0.1 <= bytes.len(),
        all_valid::<T>(decode_items::<T>(bytes, count)->Ok_0.0),
        encode_items::<T>(decode_items::<T>(bytes, count)->Ok_0.0) == bytes.subrange(
            0,
            decode_items::<T>(bytes, count)->Ok_0.1 as int,
        ),
    decreases count,
{
    let (items, used) = decode_items::<T>(bytes, count)->Ok_0;
    if count == 0 {
        assert(bytes.subrange(0, 0) =~= Seq::<u8>::empty());
    } else {
        let width = T::width() as int;
        let head = bytes.subrange(0, width);
        let tail = bytes.skip(width);
        T::lemma_encode_decoded(head);
        lemma_encode_decoded_items::<T>(tail, (count - 1) as nat);
        let (rest, more) = decode_items::<T>(tail, (count - 1) as nat)->Ok_0;
        assert(items.drop_first() =~= rest);
        assert(tail.subrange(0, more as int) =~= bytes.subrange(width, width + more));
        assert(bytes.subrange(0, used as int) =~= head + bytes.subrange(width, width + more));
        assert forall|i: int| 0 <= i < items.len() implies T::valid(#[trigger] items[i]) by {
            if i > 0 {
                assert(items[i] == rest[i - 1]);
            }
        }
    }
}

/// Reads `count` items from `bytes`, starting at `at`; gives the items and
/// the place behind the last of them.
pub fn read_items<T: WireElement>(bytes: &[u8], at: usize, count: u64) -> (outcome: Result<
    (Vec<T>, usize),
    Fault,
>)
    requires
        at <= bytes@.len(),
    ensures
        match outcome {
            Ok((items, next)) => at <= next <= bytes@.len() && decode_items::<T>(
                bytes@.skip(at as int),
                count as nat,
            ) == Ok::<(Seq<T::V>, nat), Fault>((views(items@), (next - at) as nat)),
            Err(fault) => decode_items::<T>(bytes@.skip(at as int), count as nat) == Err::<
                (Seq<T::V>, nat),
                Fault,
            >(fault),
        },
{
    let width: usize = T::byte_width();
    let total: usize = bytes.len();
    let mut items: Vec<T> = Vec::new();
    let mut position: usize = at;
    let mut done: u64 = 0;
    proof {
        T::lemma_width();
        assert(views(items@) =~= Seq::<T::V>::empty());
        let whole = decode_items::<T>(bytes@.skip(at as int), count as nat);
        assert(after(Seq::<T::V>::empty(), 0, whole) == whole) by {
            if whole is Ok {
                assert(Seq::<T::V>::empty() + whole->Ok_0.0 =~= whole->Ok_0.0);
            }
        }
    }
    while done < count
        invariant
            done <= count,
            at <= position <= total == bytes@.len(),
            width == T::width(),
            width > 0,
            decode_items::<T>(bytes@.skip(at as int), count as nat) == after(
                views(items@),
                (position - at) as nat,
                decode_items::<T>(bytes@.skip(position as int), (count - done) as nat),
            ),
        decreases count - done,
    {
        let ghost tail = bytes@.skip(position as int);
        let ghost head = views(items@);
        if total - position < width {
            return Err(Fault::Truncated);
        }
        let chunk = slice_subrange(bytes, position, position + width);
        assert(chunk@ =~= tail.subrange(0, width as int));
        match T::read(chunk) {
            Err(fault) => {
                return Err(fault);
            },
            Ok(item) => {
                proof {
                    let further = decode_items::<T>(
                        tail.skip(width as int),
                        (count - done - 1) as nat,
                    );
                    assert(tail.skip(width as int) =~= bytes@.skip(position + width));
                    assert(views(items@.push(item)) =~= head.push(item@));
                    if further is Ok {
                        assert(head + (seq![item@] + further->Ok_0.0) =~= head.push(item@)
                            + further->Ok_0.0);
                    }
                }
                items.push(item);
                position = position + width;
                done = done + 1;
            },
        }
    }
    proof {
        assert(views(items@) + Seq::<T::V>::empty() =~= views(items@));
    }
    Ok((items, position))
}

/// Appends the bytes of each item to `out`, in order.
pub fn write_items<T: WireElement>(items: &Vec<T>, out: &mut Vec<u8>)
    ensures
        final(out)@ == old(out)@ + encode_items::<T>(views(items@)),
{
    let total: usize = items.len();
    let mut i: usize = 0;
    assert(items@.skip(0) =~= items@);
    assert(old(out)@ + encode_items::<T>(views(items@)) =~= out@ + encode_items::<T>(
        views(items@.skip(0)),
    ));
    while i < total
        invariant
            i <= total == items@.len(),
            old(out)@ + encode_items::<T>(views(items@)) == out@ + encode_items::<T>(
                views(items@.skip(i as int)),
            ),
        decreases total - i,
    {
        let ghost before = out@;
        let ghost remaining = views(items@.skip(i as int));
        items[i].write(out);
        proof {
            assert(remaining[0] == items@[i as int]@);
            assert(remaining.drop_first() =~= views(items@.skip(i + 1)));
            assert(before + encode_items::<T>(remaining) =~= out@ + encode_items::<T>(
                views(items@.skip(i + 1)),
            ));
        }
        i += 1;
    }
    assert(views(items@.skip(total as int)) =~= Seq::<T::V>::empty());
    assert(out@ + encode_items::<T>(Seq::<T::V>::empty()) =~= out@);
}

/// Reads a count of eight bytes at `at` and then that many items.
pub fn read_counted<T: WireElement>(bytes: &[u8], at: usize) -> (outcome: Result<
    (Vec<T>, usize),
    Fault,
>)
    requires
        at <= bytes@.len(),
    ensures
        match outcome {
            Ok((items, next)) => at <= next <= bytes@.len() && decode_counted::<T>(
                bytes@.skip(at as int),
            ) == Ok::<(Seq<T::V>, nat), Fault>((views(items@), (next - at) as nat)),
            Err(fault) => decode_counted::<T>(bytes@.skip(at as int)) == Err::<
                (Seq<T::V>, nat),
                Fault,
            >(fault),
        },
{
    if bytes.len() - at < COUNT_WIDTH {
        return Err(Fault::Truncated);
    }
    let count: u64 = read_uint_le(bytes, at, COUNT_WIDTH);
    let ghost tail = bytes@.skip(at as int);
    assert(tail.subrange(0, COUNT_WIDTH as int) =~= bytes@.subrange(at as int, at + COUNT_WIDTH));
    assert(tail.skip(COUNT_WIDTH as int) =~= bytes@.skip(at + COUNT_WIDTH));
    read_items::<T>(bytes, at + COUNT_WIDTH, count)
}

/// Appends the number of items, as eight bytes, and then the items.
pub fn write_counted<T: WireElement>(items: &Vec<T>, out: &mut Vec<u8>)
    ensures
        final(out)@ == old(out)@ + encode_counted::<T>(views(items@)),
{
    let ghost before = out@;
    write_uint_le(items.len() as u64, COUNT_WIDTH, out);
    write_items::<T>(items, out);
    assert(out@ =~= before + encode_counted::<T>(views(items@)));
}

/// Valid items, written behind their count and followed by anything, are
/// read back unchanged.
pub proof fn lemma_decode_encoded_counted<T: WireElement>(items: Seq<T::V>, rest: Seq<u8>)
    requires
        all_valid::<T>(items),
        items.len() <= u64::MAX,
    ensures
        decode_counted::<T>(encode_counted::<T>(items) + rest) == Ok::<(Seq<T::V>, nat), Fault>(
            (items, encode_counted::<T>(items).len()),
        ),
{
    let count = le_bytes(items.len(), COUNT_WIDTH as nat);
    let bytes = encode_counted::<T>(items) + rest;
    lemma_le_bytes_len(items.len(), COUNT_WIDTH as nat);
    lemma_radix_values();
    lemma_le_value_of_bytes(items.len(), COUNT_WIDTH as nat);
    lemma_decode_encoded_items::<T>(items, rest);
    assert(bytes.subrange(0, COUNT_WIDTH as int) =~= count);
    assert(bytes.skip(COUNT_WIDTH as int) =~= encode_items::<T>(items) + rest);
}

/// What is read behind a count is valid, and is written as the bytes it was
/// read from.
pub proof fn lemma_encode_decoded_counted<T: WireElement>(bytes: Seq<u8>)
    requires
        decode_counted::<T>(bytes) is Ok,
    ensures
        decode_counted::<T>(bytes)->Ok_0.1 <= bytes.len(),
        decode_counted::<T>(bytes)->Ok_0.0.len() <= u64::MAX,
        decode_counted::<T>(bytes)->Ok_0.0.len() == le_value(bytes.subrange(0, COUNT_WIDTH as int)),
        all_valid::<T>(decode_counted::<T>(bytes)->Ok_0.0),
        encode_counted::<T>(decode_counted::<T>(bytes)->Ok_0.0) == bytes.subrange(
            0,
            decode_counted::<T>(bytes)->Ok_0.1 as int,
        ),
{
    let head = bytes.subrange(0, COUNT_WIDTH as int);
    let tail = bytes.skip(COUNT_WIDTH as int);
    let count = le_value(head);
    let (items, used) = decode_counted::<T>(bytes)->Ok_0;
    lemma_encode_decoded_items::<T>(tail, count);
    lemma_le_bytes_of_value(head);
    crate::encoding::lemma_le_value_bound(head);
    lemma_radix_values();
    let more = (used - COUNT_WIDTH) as int;
    assert(tail.subrange(0, more) =~= bytes.subrange(COUNT_WIDTH as int, used as int));
    assert(bytes.subrange(0, used as int) =~= head + bytes.subrange(
        COUNT_WIDTH as int,
        used as int,
    ));
}

} // verus!
