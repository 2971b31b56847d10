//! The verifying key and the proving key of one circuit.

use crate::circuit::{circuit_valid, domain_size, required_degree, CircuitMatrices, CircuitView};
use crate::elements::{Commitment, Scalar};
use crate::srs::{committer_key_valid, CommitterKey, CommitterKeyView};
use crate::wire::{all_valid, views};
use vstd::prelude::*;

verus! {

/// The number of index polynomials of a circuit: a row, a column and a value
/// polynomial for each of the matrices A, B and C. A verifying key holds one
/// commitment, and a proving key one blinding scalar, for each.
pub const INDEX_POLYNOMIALS: usize = 9;

/// The variant of the protocol that a key was made for. It tells the prover
/// how to hide; it does not change how a key is written.
#[derive(Clone, Copy, Debug, PartialEq, Eq, Structural)]
pub enum ProtocolMode {
    Recursive,
    NonRecursive,
}

/// The public part of the key material: the sizes of the circuit, the size
/// of its evaluation domain and the commitments to its index polynomials.
#[derive(Debug, PartialEq, Eq)]
pub struct CircuitVerifyingKey {
    pub mode: ProtocolMode,
    pub num_constraints: u64,
    pub num_variables: u64,
    pub domain_size: u64,
    pub commitments: Vec<Commitment>,
}

/// A verifying key as contracts speak of it.
pub struct VerifyingKeyView {
    pub mode: ProtocolMode,
    pub num_constraints: u64,
    pub num_variables: u64,
    pub domain_size: u64,
    pub commitments: Seq<Seq<u8>>,
}

/// Proving key for a specific circuit (i.e., R1CS matrices).
#[derive(Debug, PartialEq, Eq)]
pub struct CircuitProvingKey {
    /// The circuit verifying key.
    pub circuit_verifying_key: CircuitVerifyingKey,
    /// The randomness for the circuit polynomial commitments.
    pub circuit_commitment_randomness: Vec<Scalar>,
    /// The circuit itself.
    pub circuit: CircuitMatrices,
    /// The committer key for this index, trimmed from the universal SRS.
    pub committer_key: CommitterKey,
}

/// A proving key as contracts speak of it.
pub struct ProvingKeyView {
    pub circuit_verifying_key: VerifyingKeyView,
    pub circuit_commitment_randomness: Seq<Seq<u8>>,
    pub circuit: CircuitView,
    pub committer_key: CommitterKeyView,
}

impl View for CircuitVerifyingKey {
    type V = VerifyingKeyView;

    open spec fn view(&self) -> VerifyingKeyView {
        VerifyingKeyView {
            mode: self.mode,
            num_constraints: self.num_constraints,
            num_variables: self.num_variables,
            domain_size: self.domain_size,
            commitments: views(self.commitments@),
        }
    }
}

impl View for CircuitProvingKey {
    type V = ProvingKeyView;

    open spec fn view(&self) -> ProvingKeyView {
        ProvingKeyView {
            circuit_verifying_key: self.circuit_verifying_key@,
            circuit_commitment_randomness: views(self.circuit_commitment_randomness@),
            circuit: self.circuit@,
            committer_key: self.committer_key@,
        }
    }
}

/// A verifying key as indexing makes it: one valid commitment for each
/// index polynomial, and the domain size that belongs to the number of
/// constraints.
pub open spec fn verifying_key_valid(key: VerifyingKeyView) -> bool {
    &&& key.commitments.len() == INDEX_POLYNOMIALS
    &&& all_valid::<Commitment>(key.commitments)
    &&& key.domain_size == domain_size(key.num_constraints as nat)
}

/// A proving key as indexing makes it: its four parts are valid, the
/// verifying key tells the sizes of the circuit, there is one blinding
/// scalar for each index polynomial, and the committer key supports the
/// degree that the circuit requires.
pub open spec fn proving_key_valid(key: ProvingKeyView) -> bool {
    &&& verifying_key_valid(key.circuit_verifying_key)
    &&& key.circuit_commitment_randomness.len() == INDEX_POLYNOMIALS
    &&& all_valid::<Scalar>(key.circuit_commitment_randomness)
    &&& circuit_valid(key.circuit)
    &&& committer_key_valid(key.committer_key)
    &&& key.circuit.num_constraints == key.circuit_verifying_key.num_constraints
    &&& key.circuit.num_variables == key.circuit_verifying_key.num_variables
    &&& key.committer_key.degree_bound >= required_degree(key.circuit)
}

} // verus!
