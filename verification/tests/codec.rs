use circuit_keys::circuit::{CircuitMatrices, MatrixEntry};
use circuit_keys::codec::{read_circuit, read_matrix, read_verifying_key, DecodeError, KeyField};
use circuit_keys::elements::{Scalar, SrsPoint};
use circuit_keys::indexer::index;
use circuit_keys::keys::{CircuitProvingKey, CircuitVerifyingKey, ProtocolMode};
use circuit_keys::randomness::SeededRandomness;
use circuit_keys::srs::{trim, UniversalParameters};
use circuit_keys::wire::Fault;
use snarkvm_curves::bls12_377::{Fq, Fr, G1Affine};
use snarkvm_curves::{AffineCurve, ProjectiveCurve};
use snarkvm_utilities::{CanonicalSerialize, ToBytes};

const CODEC_MODULUS_LE: [u8; 32] = [
    1, 0, 0, 0, 0, 128, 17, 10, 1, 0, 0, 208, 254, 118, 170, 89, 1, 176, 55, 92, 30, 77, 180, 96,
    86, 165, 44, 154, 94, 101, 171, 18,
];

// Where the fields of the key of `codec_key` begin.
const VK_POINTS: usize = 24;
const RANDOMNESS: usize = 24 + 9 * 48;
const CIRCUIT: usize = RANDOMNESS + 9 * 32;
const MATRIX_A: usize = CIRCUIT + 16;
const COMMITTER_KEY: usize = MATRIX_A + 3 * 8 + 6 * 48;
const KEY_LEN: usize = COMMITTER_KEY + 8 + 5 * 97;

fn codec_srs_point(k: u64) -> SrsPoint {
    let mut bytes = Vec::new();
    (G1Affine::prime_subgroup_generator() * Fr::from(k)).to_affine().write_le(&mut bytes).unwrap();
    SrsPoint::from_bytes(&bytes).unwrap()
}

fn codec_parameters() -> UniversalParameters {
    UniversalParameters {
        powers: (1..=9).map(codec_srs_point).collect(),
        hiding_base: codec_srs_point(500),
    }
}

fn codec_entry(row: u64, column: u64, value: u64) -> MatrixEntry {
    MatrixEntry { row, column, value: Scalar::from_u64(value) }
}

fn codec_circuit() -> CircuitMatrices {
    CircuitMatrices {
        num_constraints: 3,
        num_variables: 4,
        a: vec![codec_entry(0, 0, 5), codec_entry(1, 2, 7), codec_entry(2, 3, 11)],
        b: vec![codec_entry(0, 1, 1)],
        c: vec![codec_entry(1, 1, 3), codec_entry(2, 0, 2)],
    }
}

fn codec_key(mode: ProtocolMode) -> CircuitProvingKey {
    let (key, _) =
        index(codec_circuit(), &codec_parameters(), mode, &mut SeededRandomness::new(3)).unwrap();
    key
}

fn codec_bytes() -> Vec<u8> {
    let mut bytes = Vec::new();
    codec_key(ProtocolMode::NonRecursive).write_le(&mut bytes);
    bytes
}

fn codec_off_subgroup() -> G1Affine {
    let mut x: u64 = 1;
    loop {
        if let Some(point) = G1Affine::from_x_coordinate(Fq::from(x), false) {
            if !point.is_in_correct_subgroup_assuming_on_curve() {
                return point;
            }
        }
        x += 1;
    }
}

fn codec_fault(bytes: &[u8]) -> DecodeError {
    CircuitProvingKey::read_le(bytes, ProtocolMode::NonRecursive).unwrap_err()
}

#[test]
fn proving_key_is_read_back_as_it_was_written() {
    for mode in [ProtocolMode::NonRecursive, ProtocolMode::Recursive] {
        let key = codec_key(mode);
        let mut bytes = Vec::new();
        key.write_le(&mut bytes);
        let decoded = CircuitProvingKey::read_le(&bytes, mode).unwrap();
        assert_eq!(decoded, key);
        let mut again = Vec::new();
        decoded.write_le(&mut again);
        assert_eq!(again, bytes);
    }
}

#[test]
fn proving_key_is_four_fields_in_order() {
    let key = codec_key(ProtocolMode::NonRecursive);
    let bytes = codec_bytes();
    assert_eq!(bytes.len(), KEY_LEN);
    let mut verifying_key = Vec::new();
    key.circuit_verifying_key.write_le(&mut verifying_key);
    assert_eq!(&bytes[..RANDOMNESS], &verifying_key[..]);
    // constraints, variables, domain size, then the nine commitments
    assert_eq!(&bytes[..8], &[3, 0, 0, 0, 0, 0, 0, 0]);
    assert_eq!(&bytes[8..16], &[4, 0, 0, 0, 0, 0, 0, 0]);
    assert_eq!(&bytes[16..24], &[4, 0, 0, 0, 0, 0, 0, 0]);
    for i in 0..9 {
        assert_eq!(
            &bytes[VK_POINTS + i * 48..VK_POINTS + (i + 1) * 48],
            key.circuit_verifying_key.commitments[i].as_bytes()
        );
        assert_eq!(
            &bytes[RANDOMNESS + i * 32..RANDOMNESS + (i + 1) * 32],
            key.circuit_commitment_randomness[i].as_bytes()
        );
    }
    assert_eq!(KEY_LEN, 24 + 9 * 48 + 9 * 32 + 16 + 3 * 8 + 6 * 48 + 8 + 5 * 97);
    let mut circuit = Vec::new();
    key.circuit.write_canonical(&mut circuit);
    assert_eq!(&bytes[CIRCUIT..COMMITTER_KEY], &circuit[..]);
    assert_eq!(&circuit[..8], &[3, 0, 0, 0, 0, 0, 0, 0]);
    assert_eq!(&circuit[8..16], &[4, 0, 0, 0, 0, 0, 0, 0]);
    assert_eq!(&circuit[16..24], &[3, 0, 0, 0, 0, 0, 0, 0]);
    // second entry of A: row 1, column 2, value 7
    assert_eq!(
        &circuit[24 + 48..24 + 48 + 17],
        &[1, 0, 0, 0, 0, 0, 0, 0, 2, 0, 0, 0, 0, 0, 0, 0, 7]
    );
    let mut committer_key = Vec::new();
    key.committer_key.write_native(&mut committer_key);
    assert_eq!(&bytes[COMMITTER_KEY..], &committer_key[..]);
    assert_eq!(&committer_key[..8], &[3, 0, 0, 0, 0, 0, 0, 0]);
}

#[test]
fn write_le_appends_to_what_is_there() {
    let mut bytes = vec![1, 2, 3];
    codec_key(ProtocolMode::NonRecursive).write_le(&mut bytes);
    assert_eq!(&bytes[..3], &[1, 2, 3]);
    assert_eq!(&bytes[3..], &codec_bytes()[..]);
}

#[test]
fn bytes_behind_the_key_are_not_looked_at() {
    let mut bytes = codec_bytes();
    bytes.extend_from_slice(&[0xff; 5]);
    assert_eq!(
        CircuitProvingKey::read_le(&bytes, ProtocolMode::NonRecursive),
        Ok(codec_key(ProtocolMode::NonRecursive))
    );
}

#[test]
fn the_mode_is_the_one_asked_for() {
    let decoded = CircuitProvingKey::read_le(&codec_bytes(), ProtocolMode::Recursive).unwrap();
    assert_eq!(decoded.circuit_verifying_key.mode, ProtocolMode::Recursive);
    assert_eq!(decoded, codec_key(ProtocolMode::Recursive));
}

#[test]
fn truncated_bytes_name_the_field_that_ends_early() {
    let bytes = codec_bytes();
    let cases = [
        (0, KeyField::VerifyingKey),
        (23, KeyField::VerifyingKey),
        (VK_POINTS, KeyField::VerifyingKey),
        (VK_POINTS + 47, KeyField::VerifyingKey),
        (RANDOMNESS - 1, KeyField::VerifyingKey),
        (RANDOMNESS, KeyField::CommitmentRandomness),
        (RANDOMNESS + 40, KeyField::CommitmentRandomness),
        (CIRCUIT - 1, KeyField::CommitmentRandomness),
        (CIRCUIT, KeyField::CircuitMatrices),
        (CIRCUIT + 15, KeyField::CircuitMatrices),
        (MATRIX_A + 8 + 47, KeyField::CircuitMatrices),
        (COMMITTER_KEY - 1, KeyField::CircuitMatrices),
        (COMMITTER_KEY, KeyField::CommitterKey),
        (COMMITTER_KEY + 8 + 96, KeyField::CommitterKey),
        (KEY_LEN - 1, KeyField::CommitterKey),
    ];
    for (cut, field) in cases {
        assert_eq!(
            codec_fault(&bytes[..cut]),
            DecodeError { fault: Fault::Truncated, field },
            "cut at {}",
            cut
        );
    }
}

#[test]
fn off_subgroup_commitment_fails_the_subgroup_check() {
    let mut point = Vec::new();
    codec_off_subgroup().serialize_compressed(&mut point).unwrap();
    for index in [0, 4, 8] {
        let mut bytes = codec_bytes();
        let at = VK_POINTS + index * 48;
        bytes[at..at + 48].copy_from_slice(&point);
        assert_eq!(
            codec_fault(&bytes),
            DecodeError { fault: Fault::SubgroupCheckFailed, field: KeyField::VerifyingKey }
        );
    }
}

#[test]
fn off_subgroup_power_fails_the_subgroup_check() {
    let mut point = Vec::new();
    codec_off_subgroup().write_le(&mut point).unwrap();
    let mut bytes = codec_bytes();
    let at = COMMITTER_KEY + 8 + 2 * 97;
    bytes[at..at + 97].copy_from_slice(&point);
    assert_eq!(
        codec_fault(&bytes),
        DecodeError { fault: Fault::SubgroupCheckFailed, field: KeyField::CommitterKey }
    );
}

#[test]
fn commitment_that_does_not_decompress_is_an_invalid_encoding() {
    let mut bytes = codec_bytes();
    bytes[VK_POINTS + 47] |= 0xc0;
    assert_eq!(
        codec_fault(&bytes),
        DecodeError { fault: Fault::InvalidEncoding, field: KeyField::VerifyingKey }
    );
}

#[test]
fn scalar_at_the_modulus_is_an_invalid_encoding() {
    let mut bytes = codec_bytes();
    let at = RANDOMNESS + 3 * 32;
    bytes[at..at + 32].copy_from_slice(&CODEC_MODULUS_LE);
    assert_eq!(
        codec_fault(&bytes),
        DecodeError { fault: Fault::InvalidEncoding, field: KeyField::CommitmentRandomness }
    );
    let mut below = codec_bytes();
    below[at..at + 32].copy_from_slice(&CODEC_MODULUS_LE);
    below[at] = 0;
    let decoded = CircuitProvingKey::read_le(&below, ProtocolMode::NonRecursive).unwrap();
    assert_eq!(decoded.circuit_commitment_randomness[3].as_bytes()[..2], [0, 0]);
    let mut value = codec_bytes();
    let entry = MATRIX_A + 8 + 16;
    value[entry..entry + 32].copy_from_slice(&CODEC_MODULUS_LE);
    assert_eq!(
        codec_fault(&value),
        DecodeError { fault: Fault::InvalidEncoding, field: KeyField::CircuitMatrices }
    );
}

#[test]
fn domain_size_that_does_not_belong_to_the_constraints_is_invalid() {
    let mut bytes = codec_bytes();
    bytes[16] = 8;
    assert_eq!(
        codec_fault(&bytes),
        DecodeError { fault: Fault::InvalidEncoding, field: KeyField::VerifyingKey }
    );
}

#[test]
fn circuit_that_contradicts_the_verifying_key_is_invalid() {
    let mut constraints = codec_bytes();
    constraints[CIRCUIT] = 4;
    assert_eq!(
        codec_fault(&constraints),
        DecodeError { fault: Fault::InvalidEncoding, field: KeyField::CircuitMatrices }
    );
    let mut variables = codec_bytes();
    variables[CIRCUIT + 8] = 5;
    assert_eq!(
        codec_fault(&variables),
        DecodeError { fault: Fault::InvalidEncoding, field: KeyField::CircuitMatrices }
    );
}

#[test]
fn entry_outside_the_sizes_is_invalid() {
    let mut row = codec_bytes();
    row[MATRIX_A + 8] = 3;
    assert_eq!(
        codec_fault(&row),
        DecodeError { fault: Fault::InvalidEncoding, field: KeyField::CircuitMatrices }
    );
    let mut column = codec_bytes();
    column[MATRIX_A + 8 + 8] = 4;
    assert_eq!(
        codec_fault(&column),
        DecodeError { fault: Fault::InvalidEncoding, field: KeyField::CircuitMatrices }
    );
}

#[test]
fn committer_key_below_the_required_degree_is_invalid() {
    let mut key = codec_key(ProtocolMode::NonRecursive);
    key.committer_key = trim(&codec_parameters(), 2).unwrap();
    let mut bytes = Vec::new();
    key.write_le(&mut bytes);
    assert_eq!(
        codec_fault(&bytes),
        DecodeError { fault: Fault::InvalidEncoding, field: KeyField::CommitterKey }
    );
    key.committer_key = trim(&codec_parameters(), 5).unwrap();
    let mut larger = Vec::new();
    key.write_le(&mut larger);
    assert_eq!(CircuitProvingKey::read_le(&larger, ProtocolMode::NonRecursive), Ok(key));
}

#[test]
fn verifying_key_is_read_back_as_it_was_written() {
    let key = codec_key(ProtocolMode::Recursive).circuit_verifying_key;
    let mut bytes = vec![0xee, 0xee];
    key.write_le(&mut bytes);
    assert_eq!(bytes.len(), 2 + RANDOMNESS);
    assert_eq!(
        read_verifying_key(&bytes, 2, ProtocolMode::Recursive),
        Ok((codec_key(ProtocolMode::Recursive).circuit_verifying_key, bytes.len()))
    );
    assert_eq!(CircuitVerifyingKey::read_le(&bytes[2..], ProtocolMode::Recursive), Ok(key));
    assert_eq!(
        CircuitVerifyingKey::read_le(&bytes[2..100], ProtocolMode::Recursive),
        Err(DecodeError { fault: Fault::Truncated, field: KeyField::VerifyingKey })
    );
    let mut point = Vec::new();
    codec_off_subgroup().serialize_compressed(&mut point).unwrap();
    bytes[2 + VK_POINTS..2 + VK_POINTS + 48].copy_from_slice(&point);
    assert_eq!(
        CircuitVerifyingKey::read_le(&bytes[2..], ProtocolMode::Recursive),
        Err(DecodeError { fault: Fault::SubgroupCheckFailed, field: KeyField::VerifyingKey })
    );
}

#[test]
fn circuit_is_read_back_as_it_was_written() {
    let mut bytes = vec![9];
    codec_circuit().write_canonical(&mut bytes);
    assert_eq!(read_circuit(&bytes, 1), Ok((codec_circuit(), bytes.len())));
    assert_eq!(read_circuit(&bytes[..bytes.len() - 1], 1), Err(Fault::Truncated));
    assert_eq!(read_matrix(&bytes, 17, 3, 4), Ok((codec_circuit().a, 17 + 8 + 3 * 48)));
    assert_eq!(read_matrix(&bytes, 17, 2, 4), Err(Fault::InvalidEncoding));
    let empty =
        CircuitMatrices { num_constraints: 0, num_variables: 0, a: vec![], b: vec![], c: vec![] };
    let mut none = Vec::new();
    empty.write_canonical(&mut none);
    assert_eq!(none, vec![0; 40]);
    assert_eq!(read_circuit(&none, 0), Ok((empty, 40)));
}
