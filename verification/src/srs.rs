//! The structured reference string, the committer key that is trimmed from
//! it, and the byte form of the committer key that is native to it.

use crate::curve::{native_in_subgroup, native_on_curve, srs_point_valid, NATIVE_WIDTH};
use crate::elements::{decode_srs_point, SrsPoint};
use crate::encoding::{le_bytes, le_value, read_uint_le, write_uint_le};
use crate::encoding::{lemma_le_bytes_len, lemma_le_bytes_of_value};
use crate::encoding::{lemma_le_value_of_bytes, lemma_radix_values};
use crate::wire::{all_valid, decode_items, encode_items, read_items, views, write_items};
use crate::wire::{lemma_decode_encoded_items, lemma_decode_faulty_items};
use crate::wire::{lemma_encode_decoded_items, Fault, WireElement};
use vstd::prelude::*;
use vstd::slice::slice_subrange;

verus! {

/// Bytes of the degree bound in front of a committer key.
pub const DEGREE_WIDTH: usize = 8;

/// The universal parameters of one trusted setup: the points against which
/// the coefficients of a polynomial are committed, and the base of the
/// blinding term. Parameters with `n` powers support degrees below `n`.
#[derive(Debug, PartialEq, Eq)]
pub struct UniversalParameters {
    pub powers: Vec<SrsPoint>,
    pub hiding_base: SrsPoint,
}

/// Universal parameters as contracts speak of them.
pub struct ParametersView {
    pub powers: Seq<Seq<u8>>,
    pub hiding_base: Seq<u8>,
}

/// The part of the universal parameters that suffices for one degree bound.
#[derive(Debug, PartialEq, Eq)]
pub struct CommitterKey {
    pub degree_bound: u64,
    pub powers: Vec<SrsPoint>,
    pub hiding_base: SrsPoint,
}

/// A committer key as contracts speak of it.
pub struct CommitterKeyView {
    pub degree_bound: u64,
    pub powers: Seq<Seq<u8>>,
    pub hiding_base: Seq<u8>,
}

/// The request asked for a degree that the universal parameters do not support.
#[derive(Clone, Copy, Debug, PartialEq, Eq, Structural)]
pub struct DegreeBoundExceeded {
    /// The degree that was asked for.
    pub requested: u64,
}

impl View for UniversalParameters {
    type V = ParametersView;

    open spec fn view(&self) -> ParametersView {
        ParametersView { powers: views(self.powers@), hiding_base: self.hiding_base@ }
    }
}

impl View for CommitterKey {
    type V = CommitterKeyView;

    open spec fn view(&self) -> CommitterKeyView {
        CommitterKeyView {
            degree_bound: self.degree_bound,
            powers: views(self.powers@),
            hiding_base: self.hiding_base@,
        }
    }
}

/// Whether the parameters support polynomials of degree `degree`.
pub open spec fn supports_degree(parameters: ParametersView, degree: nat) -> bool {
    degree < parameters.powers.len()
}

/// A committer key that may stand in a proving key: it has one power for
/// each degree up to its bound, and every point is a point of the subgroup.
pub open spec fn committer_key_valid(key: CommitterKeyView) -> bool {
    &&& key.powers.len() == key.degree_bound + 1
    &&& key.degree_bound < u64::MAX
    &&& all_valid::<SrsPoint>(key.powers)
    &&& srs_point_valid(key.hiding_base)
}

/// The committer key for `degree_bound`: the first `degree_bound + 1`
/// powers of the parameters, and their blinding base.
pub open spec fn trimmed(parameters: ParametersView, degree_bound: u64) -> CommitterKeyView {
    CommitterKeyView {
        degree_bound,
        powers: parameters.powers.subrange(0, degree_bound + 1),
        hiding_base: parameters.hiding_base,
    }
}

/// The native byte form of a committer key: the degree bound as eight
/// little-endian bytes, which tells the number of powers; the powers in
/// native form; the blinding base in native form.
pub open spec fn encode_committer_key(key: CommitterKeyView) -> Seq<u8> {
    le_bytes(key.degree_bound as nat, DEGREE_WIDTH as nat) + encode_items::<SrsPoint>(key.powers)
        + key.hiding_base
}

/// Reads a committer key from the front of `bytes`: the key and the number
/// of bytes it took, or the first fault.
pub open spec fn decode_committer_key(bytes: Seq<u8>) -> Result<(CommitterKeyView, nat), Fault> {
    if bytes.len() < DEGREE_WIDTH {
        Err(Fault::Truncated)
    } else {
        let degree_bound = le_value(bytes.subrange(0, DEGREE_WIDTH as int));
        if degree_bound >= u64::MAX {
            Err(Fault::InvalidEncoding)
        } else {
            match decode_items::<SrsPoint>(bytes.skip(DEGREE_WIDTH as int), degree_bound + 1) {
                Err(fault) => Err(fault),
                Ok((powers, used)) => {
                    let rest = bytes.skip(DEGREE_WIDTH + used);
                    if rest.len() < NATIVE_WIDTH {
                        Err(Fault::Truncated)
                    } else {
                        match decode_srs_point(rest.subrange(0, NATIVE_WIDTH as int)) {
                            Err(fault) => Err(fault),
                            Ok(hiding_base) => Ok(
                                (
                                    CommitterKeyView {
                                        degree_bound: degree_bound as u64,
                                        powers,
                                        hiding_base,
                                    },
                                    (DEGREE_WIDTH + used + NATIVE_WIDTH) as nat,
                                ),
                            ),
                        }
                    }
                },
            }
        }
    }
}

/// A valid committer key, written and followed by anything, is read back unchanged.
pub proof fn lemma_decode_encoded_committer_key(key: CommitterKeyView, rest: Seq<u8>)
    requires
        committer_key_valid(key),
    ensures
        decode_committer_key(encode_committer_key(key) + rest) == Ok::<
            (CommitterKeyView, nat),
            Fault,
        >((key, encode_committer_key(key).len())),
{
    let degree = le_bytes(key.degree_bound as nat, DEGREE_WIDTH as nat);
    let powers = encode_items::<SrsPoint>(key.powers);
    let bytes = encode_committer_key(key) + rest;
    lemma_radix_values();
    lemma_le_bytes_len(key.degree_bound as nat, DEGREE_WIDTH as nat);
    lemma_le_value_of_bytes(key.degree_bound as nat, DEGREE_WIDTH as nat);
    lemma_decode_encoded_items::<SrsPoint>(key.powers, key.hiding_base + rest);
    assert(bytes.subrange(0, DEGREE_WIDTH as int) =~= degree);
    assert(bytes.skip(DEGREE_WIDTH as int) =~= powers + (key.hiding_base + rest));
    let tail = bytes.skip(DEGREE_WIDTH + powers.len());
    assert(tail =~= key.hiding_base + rest);
    assert(tail.subrange(0, NATIVE_WIDTH as int) =~= key.hiding_base);
}

/// What is read as a committer key is valid, and is written as the bytes it
/// was read from.
pub proof fn lemma_encode_decoded_committer_key(bytes: Seq<u8>)
    requires
        decode_committer_key(bytes) is Ok,
    ensures
        decode_committer_key(bytes)->Ok_0.1 <= bytes.len(),
        committer_key_valid(decode_committer_key(bytes)->Ok_0.0),
        encode_committer_key(decode_committer_key(bytes)->Ok_0.0) == bytes.subrange(
            0,
            decode_committer_key(bytes)->Ok_0.1 as int,
        ),
{
    let head = bytes.subrange(0, DEGREE_WIDTH as int);
    let degree_bound = le_value(head);
    let body = bytes.skip(DEGREE_WIDTH as int);
    let (key, total) = decode_committer_key(bytes)->Ok_0;
    let (powers, used) = decode_items::<SrsPoint>(body, degree_bound + 1)->Ok_0;
    let rest = bytes.skip(DEGREE_WIDTH + used);
    lemma_le_bytes_of_value(head);
    lemma_encode_decoded_items::<SrsPoint>(body, degree_bound + 1);
    assert(body.subrange(0, used as int) =~= bytes.subrange(
        DEGREE_WIDTH as int,
        DEGREE_WIDTH + used,
    ));
    assert(rest.subrange(0, NATIVE_WIDTH as int) =~= bytes.subrange(
        DEGREE_WIDTH + used,
        total as int,
    ));
    assert(bytes.subrange(0, total as int) =~= head + bytes.subrange(
        DEGREE_WIDTH as int,
        DEGREE_WIDTH + used,
    ) + bytes.subrange(DEGREE_WIDTH + used, total as int));
}

/// Where the powers before power `index` are valid and power `index` is on
/// the curve but outside the subgroup, the written key is not read: the
/// subgroup check fails.
pub proof fn lemma_decode_off_subgroup_power(key: CommitterKeyView, index: int, rest: Seq<u8>)
    requires
        key.powers.len() == key.degree_bound + 1,
        key.degree_bound < u64::MAX,
        0 <= index < key.powers.len(),
        forall|i: int| 0 <= i < index ==> srs_point_valid(#[trigger] key.powers[i]),
        key.powers[index].len() == NATIVE_WIDTH,
        native_on_curve(key.powers[index]),
        !native_in_subgroup(key.powers[index]),
    ensures
        decode_committer_key(encode_committer_key(key) + rest) == Err::<
            (CommitterKeyView, nat),
            Fault,
        >(Fault::SubgroupCheckFailed),
{
    let degree = le_bytes(key.degree_bound as nat, DEGREE_WIDTH as nat);
    let powers = encode_items::<SrsPoint>(key.powers);
    let bytes = encode_committer_key(key) + rest;
    lemma_radix_values();
    lemma_le_bytes_len(key.degree_bound as nat, DEGREE_WIDTH as nat);
    lemma_le_value_of_bytes(key.degree_bound as nat, DEGREE_WIDTH as nat);
    assert(bytes.subrange(0, DEGREE_WIDTH as int) =~= degree);
    assert(bytes.skip(DEGREE_WIDTH as int) =~= powers + (key.hiding_base + rest));
    lemma_decode_faulty_items::<SrsPoint>(
        key.powers,
        index,
        key.hiding_base + rest,
        key.powers.len(),
    );
}

/// Where the powers are valid and the blinding base is on the curve but
/// outside the subgroup, the written key is not read: the subgroup check fails.
pub proof fn lemma_decode_off_subgroup_base(key: CommitterKeyView, rest: Seq<u8>)
    requires
        key.powers.len() == key.degree_bound + 1,
        key.degree_bound < u64::MAX,
        all_valid::<SrsPoint>(key.powers),
        key.hiding_base.len() == NATIVE_WIDTH,
        native_on_curve(key.hiding_base),
        !native_in_subgroup(key.hiding_base),
    ensures
        decode_committer_key(encode_committer_key(key) + rest) == Err::<
            (CommitterKeyView, nat),
            Fault,
        >(Fault::SubgroupCheckFailed),
{
    let degree = le_bytes(key.degree_bound as nat, DEGREE_WIDTH as nat);
    let powers = encode_items::<SrsPoint>(key.powers);
    let bytes = encode_committer_key(key) + rest;
    lemma_radix_values();
    lemma_le_bytes_len(key.degree_bound as nat, DEGREE_WIDTH as nat);
    lemma_le_value_of_bytes(key.degree_bound as nat, DEGREE_WIDTH as nat);
    lemma_decode_encoded_items::<SrsPoint>(key.powers, key.hiding_base + rest);
    assert(bytes.subrange(0, DEGREE_WIDTH as int) =~= degree);
    assert(bytes.skip(DEGREE_WIDTH as int) =~= powers + (key.hiding_base + rest));
    let tail = bytes.skip(DEGREE_WIDTH + powers.len());
    assert(tail =~= key.hiding_base + rest);
    assert(tail.subrange(0, NATIVE_WIDTH as int) =~= key.hiding_base);
}

impl UniversalParameters {
    /// The number of degrees that the parameters support: degrees below
    /// this number can be asked for.
    pub fn supported_degrees(&self) -> (count: usize)
        ensures
            count == self@.powers.len(),
            forall|degree: nat| supports_degree(self@, degree) <==> degree < count,
    {
        self.powers.len()
    }
}

/// Derives the committer key for `degree_bound` from the universal
/// parameters: a copy of the first `degree_bound + 1` powers and of the
/// blinding base. Fails exactly when the parameters do not support the degree.
pub fn trim(parameters: &UniversalParameters, degree_bound: u64) -> (outcome: Result<
    CommitterKey,
    DegreeBoundExceeded,
>)
    ensures
        match outcome {
            Ok(key) => supports_degree(parameters@, degree_bound as nat) && key@ == trimmed(
                parameters@,
                degree_bound,
            ) && committer_key_valid(key@),
            Err(error) => !supports_degree(parameters@, degree_bound as nat) && error.requested
                == degree_bound,
        },
{
    let available: usize = parameters.powers.len();
    if degree_bound >= available as u64 {
        return Err(DegreeBoundExceeded { requested: degree_bound });
    }
    let wanted: usize = degree_bound as usize + 1;
    let mut powers: Vec<SrsPoint> = Vec::new();
    let mut i: usize = 0;
    while i < wanted
        invariant
            i <= wanted <= available == parameters.powers@.len(),
            views(powers@) == views(parameters.powers@).subrange(0, i as int),
            all_valid::<SrsPoint>(views(powers@)),
        decreases wanted - i,
    {
        let ghost before = views(powers@);
        let point = parameters.powers[i].clone();
        let _ = point.as_bytes();
        powers.push(point);
        proof {
            assert(views(powers@) =~= before.push(point@));
            assert(views(powers@) =~= views(parameters.powers@).subrange(0, i + 1));
        }
        i += 1;
    }
    let hiding_base = parameters.hiding_base.clone();
    let _ = hiding_base.as_bytes();
    Ok(CommitterKey { degree_bound, powers, hiding_base })
}

impl CommitterKey {
    /// Appends the native byte form of the key to `out`.
    pub fn write_native(&self, out: &mut Vec<u8>)
        ensures
            final(out)@ == old(out)@ + encode_committer_key(self@),
    {
        let ghost before = out@;
        write_uint_le(self.degree_bound, DEGREE_WIDTH, out);
        write_items::<SrsPoint>(&self.powers, out);
        self.hiding_base.write(out);
        assert(out@ =~= before + encode_committer_key(self@));
    }

    /// Reads a committer key in native form from `bytes`, starting at `at`;
    /// gives the key and the place behind it.
    pub fn read_native(bytes: &[u8], at: usize) -> (outcome: Result<(CommitterKey, usize), Fault>)
        requires
            at <= bytes@.len(),
        ensures
            match outcome {
                Ok((key, next)) => at <= next <= bytes@.len() && decode_committer_key(
                    bytes@.skip(at as int),
                ) == Ok::<(CommitterKeyView, nat), Fault>((key@, (next - at) as nat)),
                Err(fault) => decode_committer_key(bytes@.skip(at as int)) == Err::<
                    (CommitterKeyView, nat),
                    Fault,
                >(fault),
            },
    {
        let total: usize = bytes.len();
        let ghost tail = bytes@.skip(at as int);
        if total - at < DEGREE_WIDTH {
            return Err(Fault::Truncated);
        }
        let degree_bound: u64 = read_uint_le(bytes, at, DEGREE_WIDTH);
        assert(tail.subrange(0, DEGREE_WIDTH as int) =~= bytes@.subrange(
            at as int,
            at + DEGREE_WIDTH,
        ));
        if degree_bound == u64::MAX {
            return Err(Fault::InvalidEncoding);
        }
        assert(tail.skip(DEGREE_WIDTH as int) =~= bytes@.skip(at + DEGREE_WIDTH));
        match read_items::<SrsPoint>(bytes, at + DEGREE_WIDTH, degree_bound + 1) {
            Err(fault) => Err(fault),
            Ok((powers, position)) => {
                let ghost rest = tail.skip(position - at);
                assert(rest =~= bytes@.skip(position as int));
                if total - position < NATIVE_WIDTH {
                    return Err(Fault::Truncated);
                }
                let chunk = slice_subrange(bytes, position, position + NATIVE_WIDTH);
                assert(chunk@ =~= rest.subrange(0, NATIVE_WIDTH as int));
                match SrsPoint::from_bytes(chunk) {
                    Err(fault) => Err(fault),
                    Ok(hiding_base) => Ok(
                        (
                            CommitterKey { degree_bound, powers, hiding_base },
                            position + NATIVE_WIDTH,
                        ),
                    ),
                }
            },
        }
    }
}

} // verus!
