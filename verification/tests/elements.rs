use circuit_keys::elements::{Commitment, Scalar, SrsPoint};
use circuit_keys::encoding::{append_bytes, read_uint_le, write_uint_le};
use circuit_keys::wire::Fault;
use snarkvm_curves::bls12_377::{Fq, Fr, G1Affine};
use snarkvm_curves::{AffineCurve, ProjectiveCurve};
use snarkvm_utilities::{CanonicalSerialize, ToBytes};

const MODULUS_LE: [u8; 32] = [
    1, 0, 0, 0, 0, 128, 17, 10, 1, 0, 0, 208, 254, 118, 170, 89, 1, 176, 55, 92, 30, 77, 180, 96,
    86, 165, 44, 154, 94, 101, 171, 18,
];

fn elements_native(point: &G1Affine) -> Vec<u8> {
    let mut out = Vec::new();
    point.write_le(&mut out).unwrap();
    out
}

fn elements_compressed(point: &G1Affine) -> Vec<u8> {
    let mut out = Vec::new();
    point.serialize_compressed(&mut out).unwrap();
    out
}

fn elements_off_subgroup() -> G1Affine {
    let mut x: u64 = 1;
    loop {
        if let Some(point) = G1Affine::from_x_coordinate(Fq::from(x), false) {
            if !point.is_in_correct_subgroup_assuming_on_curve() {
                return point;
            }
        }
        x += 1;
    }
}

#[test]
fn write_uint_le_puts_the_low_byte_first() {
    let mut out = vec![0xaa];
    write_uint_le(0x0102_0304_0506_0708, 8, &mut out);
    assert_eq!(out, vec![0xaa, 8, 7, 6, 5, 4, 3, 2, 1]);
    let mut short = Vec::new();
    write_uint_le(0x0102_0304_0506_0708, 2, &mut short);
    assert_eq!(short, vec![8, 7]);
    let mut wide = Vec::new();
    write_uint_le(1, 10, &mut wide);
    assert_eq!(wide, vec![1, 0, 0, 0, 0, 0, 0, 0, 0, 0]);
}

#[test]
fn read_uint_le_reads_what_was_written() {
    let bytes = [0xff, 8, 7, 6, 5, 4, 3, 2, 1, 0xee];
    assert_eq!(read_uint_le(&bytes, 1, 8), 0x0102_0304_0506_0708);
    assert_eq!(read_uint_le(&bytes, 1, 4), 0x0506_0708);
    assert_eq!(read_uint_le(&bytes, 9, 1), 0xee);
    assert_eq!(read_uint_le(&bytes, 3, 0), 0);
    let mut out = Vec::new();
    write_uint_le(u64::MAX, 8, &mut out);
    assert_eq!(read_uint_le(&out, 0, 8), u64::MAX);
}

#[test]
fn append_bytes_keeps_what_was_there() {
    let mut out = vec![1, 2];
    append_bytes(&mut out, &[3, 4, 5]);
    append_bytes(&mut out, &[]);
    assert_eq!(out, vec![1, 2, 3, 4, 5]);
}

#[test]
fn scalar_below_the_modulus_is_accepted() {
    let mut below = MODULUS_LE;
    below[0] = 0;
    let scalar = Scalar::from_bytes(&below).expect("the modulus less one is a scalar");
    assert_eq!(scalar.as_bytes(), &below[..]);
    assert!(Scalar::from_bytes(&[0u8; 32]).is_some());
}

#[test]
fn scalar_at_or_above_the_modulus_is_refused() {
    assert!(Scalar::from_bytes(&MODULUS_LE).is_none());
    let mut above = MODULUS_LE;
    above[0] = 2;
    assert!(Scalar::from_bytes(&above).is_none());
    assert!(Scalar::from_bytes(&[0xff; 32]).is_none());
}

#[test]
fn scalar_of_another_length_is_refused() {
    assert!(Scalar::from_bytes(&[0u8; 31]).is_none());
    assert!(Scalar::from_bytes(&[0u8; 33]).is_none());
    assert!(Scalar::from_bytes(&[]).is_none());
}

#[test]
fn scalar_from_u64_is_the_number_in_32_bytes() {
    let scalar = Scalar::from_u64(0x0102);
    let mut expected = [0u8; 32];
    expected[0] = 2;
    expected[1] = 1;
    assert_eq!(scalar.as_bytes(), &expected[..]);
    let mut written = Vec::new();
    Fr::from(0x0102u64).serialize_compressed(&mut written).unwrap();
    assert_eq!(scalar.as_bytes(), &written[..]);
    assert_eq!(scalar.clone(), scalar);
}

#[test]
fn commitment_of_the_generator_is_accepted() {
    let bytes = elements_compressed(&G1Affine::prime_subgroup_generator());
    assert_eq!(bytes.len(), 48);
    let commitment = Commitment::from_bytes(&bytes).expect("the generator is in the subgroup");
    assert_eq!(commitment.as_bytes(), &bytes[..]);
    assert_eq!(commitment.clone(), commitment);
}

#[test]
fn commitment_outside_the_subgroup_is_refused_as_such() {
    let bytes = elements_compressed(&elements_off_subgroup());
    assert_eq!(Commitment::from_bytes(&bytes), Err(Fault::SubgroupCheckFailed));
}

#[test]
fn commitment_that_does_not_decompress_is_invalid() {
    // both flag bits set
    let mut bytes = elements_compressed(&G1Affine::prime_subgroup_generator());
    bytes[47] |= 0xc0;
    assert_eq!(Commitment::from_bytes(&bytes), Err(Fault::InvalidEncoding));
    // x is not below the modulus of the base field
    let mut large = vec![0xff; 48];
    large[47] = 0x3f;
    assert_eq!(Commitment::from_bytes(&large), Err(Fault::InvalidEncoding));
    assert_eq!(Commitment::from_bytes(&[0u8; 47]), Err(Fault::InvalidEncoding));
    assert_eq!(Commitment::from_bytes(&[0u8; 49]), Err(Fault::InvalidEncoding));
}

#[test]
fn commitment_with_an_x_off_the_curve_is_invalid() {
    let mut x: u64 = 1;
    let bytes = loop {
        if G1Affine::from_x_coordinate(Fq::from(x), false).is_none() {
            let mut out = Vec::new();
            Fq::from(x).serialize_compressed(&mut out).unwrap();
            break out;
        }
        x += 1;
    };
    assert_eq!(bytes.len(), 48);
    assert_eq!(Commitment::from_bytes(&bytes), Err(Fault::InvalidEncoding));
}

#[test]
fn srs_point_of_the_subgroup_is_accepted() {
    let point = (G1Affine::prime_subgroup_generator() * Fr::from(7u64)).to_affine();
    let bytes = elements_native(&point);
    assert_eq!(bytes.len(), 97);
    let srs_point = SrsPoint::from_bytes(&bytes).expect("a multiple of the generator");
    assert_eq!(srs_point.as_bytes(), &bytes[..]);
    assert_eq!(srs_point.clone(), srs_point);
}

#[test]
fn srs_point_outside_the_subgroup_is_refused_as_such() {
    let bytes = elements_native(&elements_off_subgroup());
    assert_eq!(SrsPoint::from_bytes(&bytes), Err(Fault::SubgroupCheckFailed));
}

#[test]
fn srs_point_off_the_curve_is_invalid() {
    let mut bytes = elements_native(&G1Affine::prime_subgroup_generator());
    bytes[48] ^= 1;
    assert_eq!(SrsPoint::from_bytes(&bytes), Err(Fault::InvalidEncoding));
    let mut flag = elements_native(&G1Affine::prime_subgroup_generator());
    flag[96] = 2;
    assert_eq!(SrsPoint::from_bytes(&flag), Err(Fault::InvalidEncoding));
    assert_eq!(SrsPoint::from_bytes(&[0u8; 96]), Err(Fault::InvalidEncoding));
    assert_eq!(SrsPoint::from_bytes(&[0xff; 97]), Err(Fault::InvalidEncoding));
}
