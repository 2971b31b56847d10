use circuit_keys::elements::SrsPoint;
use circuit_keys::srs::{trim, CommitterKey, DegreeBoundExceeded, UniversalParameters};
use circuit_keys::wire::Fault;
use snarkvm_curves::bls12_377::{Fq, Fr, G1Affine};
use snarkvm_curves::{AffineCurve, ProjectiveCurve};
use snarkvm_utilities::ToBytes;

fn srs_native(k: u64) -> Vec<u8> {
    let mut bytes = Vec::new();
    (G1Affine::prime_subgroup_generator() * Fr::from(k)).to_affine().write_le(&mut bytes).unwrap();
    bytes
}

fn srs_parameters(powers: u64) -> UniversalParameters {
    UniversalParameters {
        powers: (1..=powers).map(|k| SrsPoint::from_bytes(&srs_native(k)).unwrap()).collect(),
        hiding_base: SrsPoint::from_bytes(&srs_native(77)).unwrap(),
    }
}

fn srs_off_subgroup() -> Vec<u8> {
    let mut x: u64 = 1;
    loop {
        if let Some(point) = G1Affine::from_x_coordinate(Fq::from(x), false) {
            if !point.is_in_correct_subgroup_assuming_on_curve() {
                let mut bytes = Vec::new();
                point.write_le(&mut bytes).unwrap();
                return bytes;
            }
        }
        x += 1;
    }
}

#[test]
fn trim_takes_the_first_powers() {
    let parameters = srs_parameters(9);
    assert_eq!(parameters.supported_degrees(), 9);
    let key = trim(&parameters, 3).unwrap();
    assert_eq!(key.degree_bound, 3);
    assert_eq!(key.powers.len(), 4);
    assert_eq!(&key.powers[..], &parameters.powers[..4]);
    assert_eq!(key.hiding_base, parameters.hiding_base);
    let all = trim(&parameters, 8).unwrap();
    assert_eq!(all.powers, parameters.powers);
    let least = trim(&parameters, 0).unwrap();
    assert_eq!(least.powers.len(), 1);
}

#[test]
fn trim_fails_above_the_supported_degree() {
    let parameters = srs_parameters(9);
    assert_eq!(trim(&parameters, 9), Err(DegreeBoundExceeded { requested: 9 }));
    assert_eq!(trim(&parameters, u64::MAX), Err(DegreeBoundExceeded { requested: u64::MAX }));
}

#[test]
fn trim_is_deterministic() {
    let parameters = srs_parameters(5);
    assert_eq!(trim(&parameters, 2), trim(&parameters, 2));
}

#[test]
fn committer_key_native_form_is_bound_powers_base() {
    let key = trim(&srs_parameters(3), 1).unwrap();
    let mut bytes = vec![0xaa];
    key.write_native(&mut bytes);
    let mut expected = vec![0xaa, 1, 0, 0, 0, 0, 0, 0, 0];
    expected.extend_from_slice(&srs_native(1));
    expected.extend_from_slice(&srs_native(2));
    expected.extend_from_slice(&srs_native(77));
    assert_eq!(bytes, expected);
    assert_eq!(bytes.len(), 1 + 8 + 3 * 97);
}

#[test]
fn committer_key_is_read_back_from_its_native_form() {
    let key = trim(&srs_parameters(4), 2).unwrap();
    let mut bytes = vec![1, 2, 3];
    key.write_native(&mut bytes);
    let end = bytes.len();
    bytes.push(9);
    assert_eq!(CommitterKey::read_native(&bytes, 3), Ok((key, end)));
}

#[test]
fn committer_key_that_ends_early_is_truncated() {
    let key = trim(&srs_parameters(4), 2).unwrap();
    let mut bytes = Vec::new();
    key.write_native(&mut bytes);
    for cut in [0, 7, 8, 8 + 96, 8 + 3 * 97, bytes.len() - 1] {
        assert_eq!(CommitterKey::read_native(&bytes[..cut], 0), Err(Fault::Truncated), "{}", cut);
    }
    assert_eq!(CommitterKey::read_native(&bytes, bytes.len()), Err(Fault::Truncated));
}

#[test]
fn committer_key_with_a_bad_point_is_refused() {
    let key = trim(&srs_parameters(4), 2).unwrap();
    let mut bytes = Vec::new();
    key.write_native(&mut bytes);
    let mut off_subgroup = bytes.clone();
    off_subgroup[8 + 97..8 + 2 * 97].copy_from_slice(&srs_off_subgroup());
    assert_eq!(CommitterKey::read_native(&off_subgroup, 0), Err(Fault::SubgroupCheckFailed));
    let mut base = bytes.clone();
    let at = bytes.len() - 97;
    base[at..].copy_from_slice(&srs_off_subgroup());
    assert_eq!(CommitterKey::read_native(&base, 0), Err(Fault::SubgroupCheckFailed));
    let mut off_curve = bytes.clone();
    off_curve[8 + 48] ^= 1;
    assert_eq!(CommitterKey::read_native(&off_curve, 0), Err(Fault::InvalidEncoding));
    let mut bound = bytes.clone();
    bound[..8].copy_from_slice(&[0xff; 8]);
    assert_eq!(CommitterKey::read_native(&bound, 0), Err(Fault::InvalidEncoding));
    let mut longer = bytes.clone();
    longer[0] = 3;
    assert_eq!(CommitterKey::read_native(&longer, 0), Err(Fault::Truncated));
}
