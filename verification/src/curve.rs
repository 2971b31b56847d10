//! The boundary to the curve library: BLS12-377 scalars and G1 points, seen
//! from this crate as byte strings. Everything in this file that is marked
//! `external_body` is believed, not proved.

use crate::encoding::le_value;
use rand::rngs::OsRng;
use snarkvm_curves::bls12_377::{Fr, G1Affine};
use snarkvm_curves::{AffineCurve, ProjectiveCurve};
use snarkvm_utilities::{CanonicalDeserialize, CanonicalSerialize, FromBytes, ToBytes, Uniform};
use vstd::prelude::*;

verus! {

/// Bytes of a scalar on the wire.
pub const SCALAR_WIDTH: usize = 32;

/// Bytes of a compressed G1 point: the x coordinate, with the sign of y and
/// the infinity flag in the two top bits of the last byte.
pub const COMPRESSED_WIDTH: usize = 48;

/// Bytes of a G1 point in the form in which a reference string stores it:
/// x, y, and one byte for the infinity flag.
pub const NATIVE_WIDTH: usize = 97;

/// The order of the scalar field of BLS12-377.
pub open spec fn scalar_modulus() -> nat {
    8444461749428370424248824938781546531375899335154063827935233455917409239041nat
}

/// `bytes` is a scalar in canonical form: 32 bytes that spell, least
/// significant byte first, a number below the field's order.
pub open spec fn scalar_valid(bytes: Seq<u8>) -> bool {
    bytes.len() == SCALAR_WIDTH && le_value(bytes) < scalar_modulus()
}

/// The native form of the point that the 48 bytes decompress to, if they
/// decompress to a point of the curve.
pub uninterp spec fn point_expanded(bytes: Seq<u8>) -> Option<Seq<u8>>;

/// Whether the 97 bytes read as coordinates of a point of the curve.
pub uninterp spec fn native_on_curve(bytes: Seq<u8>) -> bool;

/// Whether the 97 bytes read as a point of the prime-order subgroup.
pub uninterp spec fn native_in_subgroup(bytes: Seq<u8>) -> bool;

/// The native form of `scalar` times the point `point`, where both are read.
pub uninterp spec fn point_scaled(point: Seq<u8>, scalar: Seq<u8>) -> Option<Seq<u8>>;

/// The native form of the sum of the points `a` and `b`, where both are read.
pub uninterp spec fn point_summed(a: Seq<u8>, b: Seq<u8>) -> Option<Seq<u8>>;

/// The compressed form of the point with native form `point`, where it is read.
pub uninterp spec fn point_compressed(point: Seq<u8>) -> Option<Seq<u8>>;

/// `bytes` is a compressed point that a key may hold: 48 bytes that
/// decompress to a point of the prime-order subgroup.
pub open spec fn commitment_valid(bytes: Seq<u8>) -> bool {
    &&& bytes.len() == COMPRESSED_WIDTH
    &&& point_expanded(bytes) is Some
    &&& native_in_subgroup(point_expanded(bytes)->0)
}

/// `bytes` is a point in native form that a reference string may hold.
pub open spec fn srs_point_valid(bytes: Seq<u8>) -> bool {
    &&& bytes.len() == NATIVE_WIDTH
    &&& native_on_curve(bytes)
    &&& native_in_subgroup(bytes)
}

/// `Fr::deserialize_compressed`: reads 32 bytes as a little-endian number
/// and accepts it exactly when it is below the field's order.
#[verifier::external_body]
pub(crate) fn scalar_in_field(bytes: &[u8]) -> (accepted: bool)
    requires
        bytes@.len() == SCALAR_WIDTH,
    ensures
        accepted == (le_value(bytes@) < scalar_modulus()),
{
    Fr::deserialize_compressed(bytes).is_ok()
}

/// `G1Affine::deserialize_compressed_unchecked`, and `ToBytes::write_le` of
/// what it reads. It succeeds when the flag bits are well formed, x is an
/// element of the base field and, unless the point is the one at infinity,
/// x has a y on the curve. No subgroup check is made. A point is written as
/// 97 bytes.
#[verifier::external_body]
pub(crate) fn expand_point(bytes: &[u8]) -> (expanded: Option<Vec<u8>>)
    requires
        bytes@.len() == COMPRESSED_WIDTH,
    ensures
        match expanded {
            Some(native) => point_expanded(bytes@) == Some(native@) && native@.len()
                == NATIVE_WIDTH,
            None => point_expanded(bytes@) is None,
        },
{
    let point = G1Affine::deserialize_compressed_unchecked(bytes).ok()?;
    let mut native = Vec::new();
    point.write_le(&mut native).unwrap();
    Some(native)
}

/// `AffineCurve::is_on_curve`, on the point that `G1Affine::read_le` reads
/// from x, y and the infinity byte; `false` where it reads none.
#[verifier::external_body]
pub(crate) fn native_curve_check(bytes: &[u8]) -> (accepted: bool)
    requires
        bytes@.len() == NATIVE_WIDTH,
    ensures
        accepted == native_on_curve(bytes@),
{
    match G1Affine::read_le(bytes) {
        Ok(point) => point.is_on_curve(),
        Err(_) => false,
    }
}

/// `AffineCurve::is_in_correct_subgroup_assuming_on_curve`, on the point that
/// `G1Affine::read_le` reads; `false` where it reads none.
#[verifier::external_body]
pub(crate) fn native_subgroup_check(bytes: &[u8]) -> (accepted: bool)
    requires
        bytes@.len() == NATIVE_WIDTH,
    ensures
        accepted == native_in_subgroup(bytes@),
{
    match G1Affine::read_le(bytes) {
        Ok(point) => point.is_in_correct_subgroup_assuming_on_curve(),
        Err(_) => false,
    }
}

/// Scalar multiplication in G1 (`Mul<Fr>` for `G1Affine`), on the point
/// that `G1Affine::read_le` and the scalar that `Fr::read_le` read, written
/// in native form; nothing where one of them is not read.
#[verifier::external_body]
pub(crate) fn scale_point(point: &[u8], scalar: &[u8]) -> (product: Option<Vec<u8>>)
    ensures
        match product {
            Some(bytes) => point_scaled(point@, scalar@) == Some(bytes@),
            None => point_scaled(point@, scalar@) is None,
        },
{
    let base = G1Affine::read_le(point).ok()?;
    let factor = Fr::read_le(scalar).ok()?;
    let mut product = Vec::new();
    (base * factor).to_affine().write_le(&mut product).ok()?;
    Some(product)
}

/// Addition in G1 (`ProjectiveCurve::add_mixed`), on the two points that
/// `G1Affine::read_le` reads, written in native form; nothing where one of
/// them is not read.
#[verifier::external_body]
pub(crate) fn add_points(a: &[u8], b: &[u8]) -> (sum: Option<Vec<u8>>)
    ensures
        match sum {
            Some(bytes) => point_summed(a@, b@) == Some(bytes@),
            None => point_summed(a@, b@) is None,
        },
{
    let left = G1Affine::read_le(a).ok()?;
    let right = G1Affine::read_le(b).ok()?;
    let mut sum = Vec::new();
    left.to_projective().add_mixed(&right).to_affine().write_le(&mut sum).ok()?;
    Some(sum)
}

/// `CanonicalSerialize::serialize_compressed` of the point that
/// `G1Affine::read_le` reads; nothing where it is not read.
#[verifier::external_body]
pub(crate) fn compress_point(point: &[u8]) -> (compressed: Option<Vec<u8>>)
    ensures
        match compressed {
            Some(bytes) => point_compressed(point@) == Some(bytes@),
            None => point_compressed(point@) is None,
        },
{
    let mut compressed = Vec::new();
    G1Affine::read_le(point).ok()?.serialize_compressed(&mut compressed).ok()?;
    Some(compressed)
}

/// `Uniform::rand` for `Fr` on the operating system's generator, written
/// with `serialize_compressed`. Whatever is drawn is a canonical scalar.
#[verifier::external_body]
pub(crate) fn draw_secure_scalar() -> (bytes: Vec<u8>)
    ensures
        scalar_valid(bytes@),
{
    let scalar: Fr = Uniform::rand(&mut OsRng);
    let mut bytes = Vec::new();
    scalar.serialize_compressed(&mut bytes).unwrap();
    bytes
}

} // verus!
