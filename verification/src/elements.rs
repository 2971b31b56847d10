//! Scalars and points as a key holds them: validated byte strings.

use crate::curve::{commitment_valid, scalar_valid, srs_point_valid};
use crate::curve::{expand_point, native_curve_check, native_in_subgroup, native_on_curve};
use crate::curve::{native_subgroup_check, point_expanded, scalar_in_field};
use crate::curve::{COMPRESSED_WIDTH, NATIVE_WIDTH, SCALAR_WIDTH};
use crate::encoding::{append_bytes, le_bytes, le_value, write_uint_le};
use crate::encoding::{lemma_le_bytes_len, lemma_le_value_of_bytes, lemma_radix_monotonic};
use crate::encoding::lemma_radix_values;
use crate::wire::{Fault, WireElement};
use vstd::prelude::*;
use vstd::slice::slice_to_vec;

verus! {

/// An element of the scalar field, in canonical form.
#[derive(Debug, PartialEq, Eq)]
pub struct Scalar {
    bytes: Vec<u8>,
}

/// A point of the prime-order subgroup of G1 in compressed form: what a
/// verifying key holds as the commitment to a polynomial.
#[derive(Debug, PartialEq, Eq)]
pub struct Commitment {
    bytes: Vec<u8>,
}

/// A point of the prime-order subgroup of G1 in the native form of a
/// reference string.
#[derive(Debug, PartialEq, Eq)]
pub struct SrsPoint {
    bytes: Vec<u8>,
}

/// The canonical bytes of the scalar `value`.
pub open spec fn scalar_of(value: u64) -> Seq<u8> {
    le_bytes(value as nat, SCALAR_WIDTH as nat)
}

/// What 32 bytes are read as: the scalar they spell, where it is below the
/// field's order.
pub open spec fn decode_scalar(bytes: Seq<u8>) -> Result<Seq<u8>, Fault> {
    if scalar_valid(bytes) {
        Ok(bytes)
    } else {
        Err(Fault::InvalidEncoding)
    }
}

/// What 48 bytes are read as: the compressed point, where it decompresses
/// and lies in the prime-order subgroup.
pub open spec fn decode_commitment(bytes: Seq<u8>) -> Result<Seq<u8>, Fault> {
    if bytes.len() != COMPRESSED_WIDTH || point_expanded(bytes) is None {
        Err(Fault::InvalidEncoding)
    } else if !native_in_subgroup(point_expanded(bytes)->0) {
        Err(Fault::SubgroupCheckFailed)
    } else {
        Ok(bytes)
    }
}

/// What 97 bytes are read as: the point, where its coordinates are on the
/// curve and it lies in the prime-order subgroup.
pub open spec fn decode_srs_point(bytes: Seq<u8>) -> Result<Seq<u8>, Fault> {
    if bytes.len() != NATIVE_WIDTH || !native_on_curve(bytes) {
        Err(Fault::InvalidEncoding)
    } else if !native_in_subgroup(bytes) {
        Err(Fault::SubgroupCheckFailed)
    } else {
        Ok(bytes)
    }
}

/// Every number of 64 bits is a canonical scalar.
pub proof fn lemma_scalar_of_valid(value: u64)
    ensures
        scalar_valid(scalar_of(value)),
        le_value(scalar_of(value)) == value,
{
    lemma_radix_values();
    lemma_radix_monotonic(8, SCALAR_WIDTH as nat);
    lemma_le_bytes_len(value as nat, SCALAR_WIDTH as nat);
    lemma_le_value_of_bytes(value as nat, SCALAR_WIDTH as nat);
}

impl View for Scalar {
    type V = Seq<u8>;

    closed spec fn view(&self) -> Seq<u8> {
        self.bytes@
    }
}

impl Scalar {
    #[verifier::type_invariant]
    spec fn well_formed(self) -> bool {
        scalar_valid(self.bytes@)
    }

    /// The scalar that `bytes` spell, or nothing where they are not 32
    /// bytes of a number below the field's order.
    pub fn from_bytes(bytes: &[u8]) -> (scalar: Option<Scalar>)
        ensures
            match scalar {
                Some(value) => scalar_valid(bytes@) && value@ == bytes@,
                None => !scalar_valid(bytes@),
            },
    {
        if bytes.len() == SCALAR_WIDTH && scalar_in_field(bytes) {
            Some(Scalar { bytes: slice_to_vec(bytes) })
        } else {
            None
        }
    }

    /// The scalar `value`.
    pub fn from_u64(value: u64) -> (scalar: Scalar)
        ensures
            scalar@ == scalar_of(value),
    {
        let mut bytes: Vec<u8> = Vec::new();
        write_uint_le(value, SCALAR_WIDTH, &mut bytes);
        proof {
            lemma_scalar_of_valid(value);
            assert(bytes@ =~= scalar_of(value));
        }
        Scalar { bytes }
    }

    /// A scalar from bytes that are known to be canonical.
    pub(crate) fn from_valid(bytes: Vec<u8>) -> (scalar: Scalar)
        requires
            scalar_valid(bytes@),
        ensures
            scalar@ == bytes@,
    {
        Scalar { bytes }
    }

    /// The 32 bytes of the scalar.
    pub fn as_bytes(&self) -> (bytes: &[u8])
        ensures
            bytes@ == self@,
            scalar_valid(bytes@),
    {
        proof {
            use_type_invariant(self);
        }
        self.bytes.as_slice()
    }
}

impl Clone for Scalar {
    fn clone(&self) -> (copy: Self)
        ensures
            copy@ == self@,
    {
        Scalar { bytes: slice_to_vec(self.as_bytes()) }
    }
}

impl WireElement for Scalar {
    open spec fn width() -> nat {
        SCALAR_WIDTH as nat
    }

    open spec fn valid(value: Seq<u8>) -> bool {
        scalar_valid(value)
    }

    open spec fn encode(value: Seq<u8>) -> Seq<u8> {
        value
    }

    open spec fn decode(bytes: Seq<u8>) -> Result<Seq<u8>, Fault> {
        decode_scalar(bytes)
    }

    proof fn lemma_width() {
    }

    proof fn lemma_decode_encoded(value: Seq<u8>) {
    }

    proof fn lemma_encode_decoded(bytes: Seq<u8>) {
    }

    fn byte_width() -> (width: usize) {
        SCALAR_WIDTH
    }

    fn read(bytes: &[u8]) -> (element: Result<Self, Fault>) {
        match Scalar::from_bytes(bytes) {
            Some(scalar) => Ok(scalar),
            None => Err(Fault::InvalidEncoding),
        }
    }

    fn write(&self, out: &mut Vec<u8>) {
        let bytes = self.as_bytes();
        append_bytes(out, bytes);
        assert(Self::encode(self@) == bytes@);
    }
}

impl View for Commitment {
    type V = Seq<u8>;

    closed spec fn view(&self) -> Seq<u8> {
        self.bytes@
    }
}

impl Commitment {
    #[verifier::type_invariant]
    spec fn well_formed(self) -> bool {
        commitment_valid(self.bytes@)
    }

    /// The compressed point that `bytes` are, or why they are none.
    pub fn from_bytes(bytes: &[u8]) -> (commitment: Result<Commitment, Fault>)
        ensures
            match commitment {
                Ok(point) => decode_commitment(bytes@) == Ok::<Seq<u8>, Fault>(point@),
                Err(fault) => decode_commitment(bytes@) == Err::<Seq<u8>, Fault>(fault),
            },
    {
        if bytes.len() != COMPRESSED_WIDTH {
            return Err(Fault::InvalidEncoding);
        }
        match expand_point(bytes) {
            None => Err(Fault::InvalidEncoding),
            Some(native) => {
                if native_subgroup_check(native.as_slice()) {
                    Ok(Commitment { bytes: slice_to_vec(bytes) })
                } else {
                    Err(Fault::SubgroupCheckFailed)
                }
            },
        }
    }

    /// The 48 bytes of the compressed point.
    pub fn as_bytes(&self) -> (bytes: &[u8])
        ensures
            bytes@ == self@,
            commitment_valid(bytes@),
    {
        proof {
            use_type_invariant(self);
        }
        self.bytes.as_slice()
    }
}

impl Clone for Commitment {
    fn clone(&self) -> (copy: Self)
        ensures
            copy@ == self@,
    {
        Commitment { bytes: slice_to_vec(self.as_bytes()) }
    }
}

impl WireElement for Commitment {
    open spec fn width() -> nat {
        COMPRESSED_WIDTH as nat
    }

    open spec fn valid(value: Seq<u8>) -> bool {
        commitment_valid(value)
    }

    open spec fn encode(value: Seq<u8>) -> Seq<u8> {
        value
    }

    open spec fn decode(bytes: Seq<u8>) -> Result<Seq<u8>, Fault> {
        decode_commitment(bytes)
    }

    proof fn lemma_width() {
    }

    proof fn lemma_decode_encoded(value: Seq<u8>) {
    }

    proof fn lemma_encode_decoded(bytes: Seq<u8>) {
    }

    fn byte_width() -> (width: usize) {
        COMPRESSED_WIDTH
    }

    fn read(bytes: &[u8]) -> (element: Result<Self, Fault>) {
        Commitment::from_bytes(bytes)
    }

    fn write(&self, out: &mut Vec<u8>) {
        let bytes = self.as_bytes();
        append_bytes(out, bytes);
        assert(Self::encode(self@) == bytes@);
    }
}

impl View for SrsPoint {
    type V = Seq<u8>;

    closed spec fn view(&self) -> Seq<u8> {
        self.bytes@
    }
}

impl SrsPoint {
    #[verifier::type_invariant]
    spec fn well_formed(self) -> bool {
        srs_point_valid(self.bytes@)
    }

    /// The point that `bytes` are in native form, or why they are none.
    pub fn from_bytes(bytes: &[u8]) -> (point: Result<SrsPoint, Fault>)
        ensures
            match point {
                Ok(value) => decode_srs_point(bytes@) == Ok::<Seq<u8>, Fault>(value@),
                Err(fault) => decode_srs_point(bytes@) == Err::<Seq<u8>, Fault>(fault),
            },
    {
        if bytes.len() != NATIVE_WIDTH || !native_curve_check(bytes) {
            Err(Fault::InvalidEncoding)
        } else if !native_subgroup_check(bytes) {
            Err(Fault::SubgroupCheckFailed)
        } else {
            Ok(SrsPoint { bytes: slice_to_vec(bytes) })
        }
    }

    /// The 97 bytes of the point.
    pub fn as_bytes(&self) -> (bytes: &[u8])
        ensures
            bytes@ == self@,
            srs_point_valid(bytes@),
    {
        proof {
            use_type_invariant(self);
        }
        self.bytes.as_slice()
    }
}

impl Clone for SrsPoint {
    fn clone(&self) -> (copy: Self)
        ensures
            copy@ == self@,
    {
        SrsPoint { bytes: slice_to_vec(self.as_bytes()) }
    }
}

impl WireElement for SrsPoint {
    open spec fn width() -> nat {
        NATIVE_WIDTH as nat
    }

    open spec fn valid(value: Seq<u8>) -> bool {
        srs_point_valid(value)
    }

    open spec fn encode(value: Seq<u8>) -> Seq<u8> {
        value
    }

    open spec fn decode(bytes: Seq<u8>) -> Result<Seq<u8>, Fault> {
        decode_srs_point(bytes)
    }

    proof fn lemma_width() {
    }

    proof fn lemma_decode_encoded(value: Seq<u8>) {
    }

    proof fn lemma_encode_decoded(bytes: Seq<u8>) {
    }

    fn byte_width() -> (width: usize) {
        NATIVE_WIDTH
    }

    fn read(bytes: &[u8]) -> (element: Result<Self, Fault>) {
        SrsPoint::from_bytes(bytes)
    }

    fn write(&self, out: &mut Vec<u8>) {
        let bytes = self.as_bytes();
        append_bytes(out, bytes);
        assert(Self::encode(self@) == bytes@);
    }
}

} // verus!
