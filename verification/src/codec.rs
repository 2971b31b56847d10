//! The byte form of the keys. A proving key is written as four fields in a
//! fixed order: verifying key, commitment randomness and circuit matrices in
//! the compressed canonical form, then the committer key in the form native
//! to the reference string. Nothing frames the whole.

use crate::circuit::{constraint_domain_size, domain_size, entries_fit, entries_in_range};
use crate::circuit::{required_degree, CircuitMatrices, CircuitView, EntryView, MatrixEntry};
use crate::circuit::INDEX_WIDTH;
use crate::codec_laws::lemma_encode_decoded_proving_key;
use crate::codec_laws::lemma_encode_decoded_verifying_key;
use crate::elements::{Commitment, Scalar};
use crate::encoding::{le_bytes, le_value, read_uint_le, write_uint_le};
use crate::keys::{CircuitProvingKey, CircuitVerifyingKey, ProtocolMode, ProvingKeyView};
use crate::keys::{proving_key_valid, verifying_key_valid, VerifyingKeyView};
use crate::keys::INDEX_POLYNOMIALS;
use crate::srs::{decode_committer_key, encode_committer_key, CommitterKey};
use crate::wire::{decode_counted, decode_items, encode_counted, encode_items, read_counted};
use crate::wire::{read_items, views, write_counted, write_items, Fault};
use vstd::prelude::*;

verus! {

/// Bytes in front of the commitments of a verifying key: the numbers of
/// constraints and variables and the domain size.
pub const VERIFYING_KEY_HEADER: usize = 24;

/// Bytes in front of the matrices of a circuit: the numbers of constraints
/// and variables.
pub const CIRCUIT_HEADER: usize = 16;

/// The field of a proving key in which decoding failed.
#[derive(Clone, Copy, Debug, PartialEq, Eq, Structural)]
pub enum KeyField {
    VerifyingKey,
    CommitmentRandomness,
    CircuitMatrices,
    CommitterKey,
}

/// Why bytes are not a key, and in which field they are not.
#[derive(Clone, Copy, Debug, PartialEq, Eq, Structural)]
pub struct DecodeError {
    pub fault: Fault,
    pub field: KeyField,
}

/// A number of 64 bits as eight little-endian bytes.
pub open spec fn encode_u64(value: u64) -> Seq<u8> {
    le_bytes(value as nat, INDEX_WIDTH as nat)
}

/// The number that the eight bytes from `at` on spell.
pub open spec fn decode_u64(bytes: Seq<u8>, at: int) -> u64 {
    le_value(bytes.subrange(at, at + INDEX_WIDTH)) as u64
}

/// The canonical bytes of a verifying key: constraints, variables, domain
/// size, then the commitments, whose number is fixed.
pub open spec fn encode_verifying_key(key: VerifyingKeyView) -> Seq<u8> {
    encode_u64(key.num_constraints) + encode_u64(key.num_variables) + encode_u64(key.domain_size)
        + encode_items::<Commitment>(key.commitments)
}

/// Reads a verifying key from the front of `bytes`: the key and the number
/// of bytes it took, or the first fault.
#[verifier::opaque]
pub open spec fn decode_verifying_key(bytes: Seq<u8>, mode: ProtocolMode) -> Result<
    (VerifyingKeyView, nat),
    Fault,
> {
    if bytes.len() < VERIFYING_KEY_HEADER {
        Err(Fault::Truncated)
    } else if decode_u64(bytes, 16) != domain_size(decode_u64(bytes, 0) as nat) {
        Err(Fault::InvalidEncoding)
    } else {
        match decode_items::<Commitment>(
            bytes.skip(VERIFYING_KEY_HEADER as int),
            INDEX_POLYNOMIALS as nat,
        ) {
            Err(fault) => Err(fault),
            Ok((commitments, used)) => Ok(
                (
                    VerifyingKeyView {
                        mode,
                        num_constraints: decode_u64(bytes, 0),
                        num_variables: decode_u64(bytes, 8),
                        domain_size: decode_u64(bytes, 16),
                        commitments,
                    },
                    (VERIFYING_KEY_HEADER + used) as nat,
                ),
            ),
        }
    }
}

/// The canonical bytes of the commitment randomness: the scalars, whose
/// number is fixed.
pub open spec fn encode_randomness(randomness: Seq<Seq<u8>>) -> Seq<u8> {
    encode_items::<Scalar>(randomness)
}

/// Reads the commitment randomness from the front of `bytes`.
#[verifier::opaque]
pub open spec fn decode_randomness(bytes: Seq<u8>) -> Result<(Seq<Seq<u8>>, nat), Fault> {
    decode_items::<Scalar>(bytes, INDEX_POLYNOMIALS as nat)
}

/// Reads one matrix from the front of `bytes`: its entries behind their
/// count, each inside `rows` and `columns`.
pub open spec fn decode_matrix(bytes: Seq<u8>, rows: u64, columns: u64) -> Result<
    (Seq<EntryView>, nat),
    Fault,
> {
    match decode_counted::<MatrixEntry>(bytes) {
        Err(fault) => Err(fault),
        Ok((entries, used)) => if entries_in_range(entries, rows, columns) {
            Ok((entries, used))
        } else {
            Err(Fault::InvalidEncoding)
        },
    }
}

/// The three matrices of a circuit, each as its entries behind their count.
pub open spec fn encode_matrices(circuit: CircuitView) -> Seq<u8> {
    encode_counted::<MatrixEntry>(circuit.a) + (encode_counted::<MatrixEntry>(circuit.b)
        + encode_counted::<MatrixEntry>(circuit.c))
}

/// The canonical bytes of a circuit: constraints, variables, then the
/// matrices A, B and C.
pub open spec fn encode_circuit(circuit: CircuitView) -> Seq<u8> {
    encode_u64(circuit.num_constraints) + (encode_u64(circuit.num_variables) + encode_matrices(
        circuit,
    ))
}

/// Reads the matrices A, B and C of a circuit with the given sizes from the
/// front of `bytes`.
pub open spec fn decode_matrices(bytes: Seq<u8>, rows: u64, columns: u64) -> Result<
    (CircuitView, nat),
    Fault,
> {
    match decode_matrix(bytes, rows, columns) {
        Err(fault) => Err(fault),
        Ok((a, used_a)) => match decode_matrix(bytes.skip(used_a as int), rows, columns) {
            Err(fault) => Err(fault),
            Ok((b, used_b)) => match decode_matrix(
                bytes.skip((used_a + used_b) as int),
                rows,
                columns,
            ) {
                Err(fault) => Err(fault),
                Ok((c, used_c)) => Ok(
                    (
                        CircuitView { num_constraints: rows, num_variables: columns, a, b, c },
                        (used_a + used_b + used_c) as nat,
                    ),
                ),
            },
        },
    }
}

/// Reads a circuit from the front of `bytes`.
#[verifier::opaque]
pub open spec fn decode_circuit(bytes: Seq<u8>) -> Result<(CircuitView, nat), Fault> {
    if bytes.len() < CIRCUIT_HEADER {
        Err(Fault::Truncated)
    } else {
        match decode_matrices(
            bytes.skip(CIRCUIT_HEADER as int),
            decode_u64(bytes, 0),
            decode_u64(bytes, 8),
        ) {
            Err(fault) => Err(fault),
            Ok((circuit, used)) => Ok((circuit, (CIRCUIT_HEADER + used) as nat)),
        }
    }
}

/// The bytes of a proving key: its four fields, one after the other.
pub open spec fn encode_proving_key(key: ProvingKeyView) -> Seq<u8> {
    encode_verifying_key(key.circuit_verifying_key) + (encode_randomness(
        key.circuit_commitment_randomness,
    ) + (encode_circuit(key.circuit) + encode_committer_key(key.committer_key)))
}

/// `fault` in `field`.
pub open spec fn fault_in(fault: Fault, field: KeyField) -> DecodeError {
    DecodeError { fault, field }
}

/// Reads a proving key from the front of `bytes`: the key and the number of
/// bytes it took, or the first fault and the field it is in. A circuit whose
/// sizes are not those of the verifying key, and a committer key below the
/// degree that the circuit requires, are invalid encodings of their fields.
pub open spec fn decode_proving_key(bytes: Seq<u8>, mode: ProtocolMode) -> Result<
    (ProvingKeyView, nat),
    DecodeError,
> {
    match decode_verifying_key(bytes, mode) {
        Err(fault) => Err(fault_in(fault, KeyField::VerifyingKey)),
        Ok((verifying_key, used_vk)) => match decode_randomness(bytes.skip(used_vk as int)) {
            Err(fault) => Err(fault_in(fault, KeyField::CommitmentRandomness)),
            Ok((randomness, used_r)) => match decode_circuit(
                bytes.skip((used_vk + used_r) as int),
            ) {
                Err(fault) => Err(fault_in(fault, KeyField::CircuitMatrices)),
                Ok((circuit, used_c)) => if circuit.num_constraints
                    != verifying_key.num_constraints || circuit.num_variables
                    != verifying_key.num_variables {
                    Err(fault_in(Fault::InvalidEncoding, KeyField::CircuitMatrices))
                } else {
                    match decode_committer_key(
                        bytes.skip((used_vk + used_r + used_c) as int),
                    ) {
                        Err(fault) => Err(fault_in(fault, KeyField::CommitterKey)),
                        Ok((committer_key, used_ck)) => if committer_key.degree_bound
                            < required_degree(circuit) {
                            Err(fault_in(Fault::InvalidEncoding, KeyField::CommitterKey))
                        } else {
                            Ok(
                                (
                                    ProvingKeyView {
                                        circuit_verifying_key: verifying_key,
                                        circuit_commitment_randomness: randomness,
                                        circuit,
                                        committer_key,
                                    },
                                    (used_vk + used_r + used_c + used_ck) as nat,
                                ),
                            )
                        },
                    }
                },
            },
        },
    }
}

/// Reads a verifying key in canonical form from `bytes`, starting at `at`;
/// gives the key and the place behind it.
pub fn read_verifying_key(bytes: &[u8], at: usize, mode: ProtocolMode) -> (outcome: Result<
    (CircuitVerifyingKey, usize),
    Fault,
>)
    requires
        at <= bytes@.len(),
    ensures
        match outcome {
            Ok((key, next)) => at <= next <= bytes@.len() && decode_verifying_key(
                bytes@.skip(at as int),
                mode,
            ) == Ok::<(VerifyingKeyView, nat), Fault>((key@, (next - at) as nat)),
            Err(fault) => decode_verifying_key(bytes@.skip(at as int), mode) == Err::<
                (VerifyingKeyView, nat),
                Fault,
            >(fault),
        },
{
    proof {
        reveal(decode_verifying_key);
    }
    let ghost tail = bytes@.skip(at as int);
    if bytes.len() - at < VERIFYING_KEY_HEADER {
        return Err(Fault::Truncated);
    }
    let num_constraints: u64 = read_uint_le(bytes, at, INDEX_WIDTH);
    let num_variables: u64 = read_uint_le(bytes, at + INDEX_WIDTH, INDEX_WIDTH);
    let size: u64 = read_uint_le(bytes, at + 2 * INDEX_WIDTH, INDEX_WIDTH);
    proof {
        assert(tail.subrange(0, 8) =~= bytes@.subrange(at as int, at + 8));
        assert(tail.subrange(8, 16) =~= bytes@.subrange(at + 8, at + 16));
        assert(tail.subrange(16, 24) =~= bytes@.subrange(at + 16, at + 24));
        assert(tail.skip(VERIFYING_KEY_HEADER as int) =~= bytes@.skip(
            at + VERIFYING_KEY_HEADER,
        ));
    }
    match constraint_domain_size(num_constraints) {
        None => {
            return Err(Fault::InvalidEncoding);
        },
        Some(expected) => {
            if expected != size {
                return Err(Fault::InvalidEncoding);
            }
        },
    }
    match read_items::<Commitment>(bytes, at + VERIFYING_KEY_HEADER, INDEX_POLYNOMIALS as u64) {
        Err(fault) => Err(fault),
        Ok((commitments, next)) => Ok(
            (
                CircuitVerifyingKey {
                    mode,
                    num_constraints,
                    num_variables,
                    domain_size: size,
                    commitments,
                },
                next,
            ),
        ),
    }
}

/// Reads one matrix with the given sizes from `bytes`, starting at `at`.
pub fn read_matrix(bytes: &[u8], at: usize, rows: u64, columns: u64) -> (outcome: Result<
    (Vec<MatrixEntry>, usize),
    Fault,
>)
    requires
        at <= bytes@.len(),
    ensures
        match outcome {
            Ok((entries, next)) => at <= next <= bytes@.len() && decode_matrix(
                bytes@.skip(at as int),
                rows,
                columns,
            ) == Ok::<(Seq<EntryView>, nat), Fault>((views(entries@), (next - at) as nat)),
            Err(fault) => decode_matrix(bytes@.skip(at as int), rows, columns) == Err::<
                (Seq<EntryView>, nat),
                Fault,
            >(fault),
        },
{
    match read_counted::<MatrixEntry>(bytes, at) {
        Err(fault) => Err(fault),
        Ok((entries, next)) => {
            if entries_fit(&entries, rows, columns) {
                Ok((entries, next))
            } else {
                Err(Fault::InvalidEncoding)
            }
        },
    }
}

/// Reads a circuit in canonical form from `bytes`, starting at `at`; gives
/// the circuit and the place behind it.
pub fn read_circuit(bytes: &[u8], at: usize) -> (outcome: Result<(CircuitMatrices, usize), Fault>)
    requires
        at <= bytes@.len(),
    ensures
        match outcome {
            Ok((circuit, next)) => at <= next <= bytes@.len() && decode_circuit(
                bytes@.skip(at as int),
            ) == Ok::<(CircuitView, nat), Fault>((circuit@, (next - at) as nat)),
            Err(fault) => decode_circuit(bytes@.skip(at as int)) == Err::<
                (CircuitView, nat),
                Fault,
            >(fault),
        },
{
    proof {
        reveal(decode_circuit);
    }
    let ghost tail = bytes@.skip(at as int);
    if bytes.len() - at < CIRCUIT_HEADER {
        return Err(Fault::Truncated);
    }
    let num_constraints: u64 = read_uint_le(bytes, at, INDEX_WIDTH);
    let num_variables: u64 = read_uint_le(bytes, at + INDEX_WIDTH, INDEX_WIDTH);
    let start: usize = at + CIRCUIT_HEADER;
    let ghost body = tail.skip(CIRCUIT_HEADER as int);
    proof {
        assert(tail.subrange(0, 8) =~= bytes@.subrange(at as int, at + 8));
        assert(tail.subrange(8, 16) =~= bytes@.subrange(at + 8, at + 16));
        assert(body =~= bytes@.skip(start as int));
    }
    match read_matrix(bytes, start, num_constraints, num_variables) {
        Err(fault) => Err(fault),
        Ok((a, after_a)) => {
            assert(body.skip(after_a - start) =~= bytes@.skip(after_a as int));
            match read_matrix(bytes, after_a, num_constraints, num_variables) {
                Err(fault) => Err(fault),
                Ok((b, after_b)) => {
                    assert(body.skip(((after_a - start) + (after_b - after_a)) as int)
                        =~= bytes@.skip(after_b as int));
                    match read_matrix(bytes, after_b, num_constraints, num_variables) {
                        Err(fault) => Err(fault),
                        Ok((c, after_c)) => Ok(
                            (CircuitMatrices { num_constraints, num_variables, a, b, c }, after_c),
                        ),
                    }
                },
            }
        },
    }
}

impl CircuitMatrices {
    /// Appends the canonical bytes of the circuit to `out`.
    pub fn write_canonical(&self, out: &mut Vec<u8>)
        ensures
            final(out)@ == old(out)@ + encode_circuit(self@),
    {
        let ghost before = out@;
        write_uint_le(self.num_constraints, INDEX_WIDTH, out);
        write_uint_le(self.num_variables, INDEX_WIDTH, out);
        write_counted::<MatrixEntry>(&self.a, out);
        write_counted::<MatrixEntry>(&self.b, out);
        write_counted::<MatrixEntry>(&self.c, out);
        assert(out@ =~= before + encode_circuit(self@));
    }
}

impl CircuitVerifyingKey {
    /// Appends the canonical bytes of the key to `writer`.
    pub fn write_le(&self, writer: &mut Vec<u8>)
        ensures
            final(writer)@ == old(writer)@ + encode_verifying_key(self@),
    {
        let ghost before = writer@;
        write_uint_le(self.num_constraints, INDEX_WIDTH, writer);
        write_uint_le(self.num_variables, INDEX_WIDTH, writer);
        write_uint_le(self.domain_size, INDEX_WIDTH, writer);
        write_items::<Commitment>(&self.commitments, writer);
        assert(writer@ =~= before + encode_verifying_key(self@));
    }

    /// Reads a key for `mode` from the front of `reader`. Bytes behind the
    /// key are not looked at.
    pub fn read_le(reader: &[u8], mode: ProtocolMode) -> (outcome: Result<
        CircuitVerifyingKey,
        DecodeError,
    >)
        ensures
            match outcome {
                Ok(key) => {
                    &&& decode_verifying_key(reader@, mode) is Ok
                    &&& decode_verifying_key(reader@, mode)->Ok_0.0 == key@
                    &&& verifying_key_valid(key@)
                    &&& key@.mode == mode
                },
                Err(error) => error.field == KeyField::VerifyingKey && decode_verifying_key(
                    reader@,
                    mode,
                ) == Err::<(VerifyingKeyView, nat), Fault>(error.fault),
            },
    {
        proof {
            assert(reader@.skip(0) =~= reader@);
            if decode_verifying_key(reader@, mode) is Ok {
                lemma_encode_decoded_verifying_key(reader@, mode);
            }
        }
        match read_verifying_key(reader, 0, mode) {
            Ok((key, _)) => Ok(key),
            Err(fault) => Err(DecodeError { fault, field: KeyField::VerifyingKey }),
        }
    }
}

impl CircuitProvingKey {
    /// Appends the bytes of the key to `writer`: verifying key, commitment
    /// randomness and circuit in canonical form, then the committer key in
    /// the form native to the reference string.
    pub fn write_le(&self, writer: &mut Vec<u8>)
        ensures
            final(writer)@ == old(writer)@ + encode_proving_key(self@),
    {
        let ghost before = writer@;
        self.circuit_verifying_key.write_le(writer);
        write_items::<Scalar>(&self.circuit_commitment_randomness, writer);
        self.circuit.write_canonical(writer);
        self.committer_key.write_native(writer);
        assert(writer@ =~= before + encode_proving_key(self@));
    }

    /// Reads a key for `mode` from the front of `reader`, field by field in
    /// the order in which they are written. Either the whole key is read,
    /// or the first fault is reported with the field it is in. Bytes behind
    /// the key are not looked at.
    pub fn read_le(reader: &[u8], mode: ProtocolMode) -> (outcome: Result<
        CircuitProvingKey,
        DecodeError,
    >)
        ensures
            match outcome {
                Ok(key) => {
                    &&& decode_proving_key(reader@, mode) is Ok
                    &&& decode_proving_key(reader@, mode)->Ok_0.0 == key@
                    &&& proving_key_valid(key@)
                    &&& key@.circuit_verifying_key.mode == mode
                },
                Err(error) => decode_proving_key(reader@, mode) == Err::<
                    (ProvingKeyView, nat),
                    DecodeError,
                >(error),
            },
    {
        proof {
            reveal(decode_randomness);
            assert(reader@.skip(0) =~= reader@);
            if decode_proving_key(reader@, mode) is Ok {
                lemma_encode_decoded_proving_key(reader@, mode);
            }
        }
        let (circuit_verifying_key, after_vk) = match read_verifying_key(reader, 0, mode) {
            Ok(read) => read,
            Err(fault) => {
                return Err(DecodeError { fault, field: KeyField::VerifyingKey });
            },
        };
        let (circuit_commitment_randomness, after_r) = match read_items::<Scalar>(
            reader,
            after_vk,
            INDEX_POLYNOMIALS as u64,
        ) {
            Ok(read) => read,
            Err(fault) => {
                return Err(DecodeError { fault, field: KeyField::CommitmentRandomness });
            },
        };
        let (circuit, after_c) = match read_circuit(reader, after_r) {
            Ok(read) => read,
            Err(fault) => {
                return Err(DecodeError { fault, field: KeyField::CircuitMatrices });
            },
        };
        if circuit.num_constraints != circuit_verifying_key.num_constraints
            || circuit.num_variables != circuit_verifying_key.num_variables {
            return Err(
                DecodeError { fault: Fault::InvalidEncoding, field: KeyField::CircuitMatrices },
            );
        }
        let (committer_key, _) = match CommitterKey::read_native(reader, after_c) {
            Ok(read) => read,
            Err(fault) => {
                return Err(DecodeError { fault, field: KeyField::CommitterKey });
            },
        };
        let supported: bool = match circuit.required_degree() {
            Some(required) => committer_key.degree_bound >= required,
            None => false,
        };
        if !supported {
            return Err(
                DecodeError { fault: Fault::InvalidEncoding, field: KeyField::CommitterKey },
            );
        }
        Ok(
            CircuitProvingKey {
                circuit_verifying_key,
                circuit_commitment_randomness,
                circuit,
                committer_key,
            },
        )
    }
}

} // verus!
