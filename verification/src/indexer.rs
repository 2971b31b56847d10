//! Indexing: from a constraint system and the universal parameters to the
//! proving key and the verifying key of the circuit.

use crate::circuit::{circuit_valid, constraint_domain_size, domain_size, lemma_domain_size};
use crate::circuit::{required_degree, CircuitMatrices, CircuitView, EntryView, MatrixEntry};
use crate::curve::{add_points, compress_point, scale_point};
use crate::curve::{point_compressed, point_scaled, point_summed, scalar_valid};
use crate::elements::{decode_commitment, scalar_of, Commitment, Scalar};
use crate::keys::{proving_key_valid, CircuitProvingKey, CircuitVerifyingKey, ProtocolMode};
use crate::keys::{ProvingKeyView, VerifyingKeyView, INDEX_POLYNOMIALS};
use crate::randomness::CommitmentRandomnessSource;
use crate::srs::{supports_degree, trim, trimmed, CommitterKey, CommitterKeyView};
use crate::srs::{ParametersView, UniversalParameters};
use crate::wire::{all_valid, views, WireElement};
use vstd::prelude::*;

verus! {

/// Why a circuit could not be indexed.
#[derive(Clone, Copy, Debug, PartialEq, Eq, Structural)]
pub enum IndexingError {
    /// The circuit has more constraints or more variables than the
    /// universal parameters have powers.
    CircuitTooLarge,
    /// The universal parameters do not support the degree that the index
    /// polynomials of the circuit require.
    DegreeBoundExceeded,
    /// The commitment to an index polynomial did not come out as a point
    /// that a verifying key may hold.
    CommitmentRejected,
}

/// The rows of the entries, as scalars: the row polynomial of a matrix,
/// given by one value for each non-zero entry.
pub open spec fn row_polynomial(entries: Seq<EntryView>) -> Seq<Seq<u8>> {
    Seq::new(entries.len(), |k: int| scalar_of(entries[k].row))
}

/// The columns of the entries, as scalars: the column polynomial of a matrix.
pub open spec fn column_polynomial(entries: Seq<EntryView>) -> Seq<Seq<u8>> {
    Seq::new(entries.len(), |k: int| scalar_of(entries[k].column))
}

/// The values of the entries: the value polynomial of a matrix.
pub open spec fn value_polynomial(entries: Seq<EntryView>) -> Seq<Seq<u8>> {
    Seq::new(entries.len(), |k: int| entries[k].value)
}

/// The index polynomials of a circuit, in the order in which a verifying
/// key holds their commitments: row, column and value of A, then of B,
/// then of C.
pub open spec fn index_polynomials(circuit: CircuitView) -> Seq<Seq<Seq<u8>>> {
    seq![
        row_polynomial(circuit.a),
        column_polynomial(circuit.a),
        value_polynomial(circuit.a),
        row_polynomial(circuit.b),
        column_polynomial(circuit.b),
        value_polynomial(circuit.b),
        row_polynomial(circuit.c),
        column_polynomial(circuit.c),
        value_polynomial(circuit.c),
    ]
}

/// `sum` plus `power` times `coefficient`, where the curve library gives both.
pub open spec fn accumulate(sum: Option<Seq<u8>>, power: Seq<u8>, coefficient: Seq<u8>) -> Option<
    Seq<u8>,
> {
    match sum {
        None => None,
        Some(so_far) => match point_scaled(power, coefficient) {
            None => None,
            Some(term) => point_summed(so_far, term),
        },
    }
}

/// `start` plus the first `coefficients.len()` powers, each times its coefficient.
pub open spec fn accumulated(
    powers: Seq<Seq<u8>>,
    coefficients: Seq<Seq<u8>>,
    start: Option<Seq<u8>>,
) -> Option<Seq<u8>>
    decreases coefficients.len(),
{
    if coefficients.len() == 0 {
        start
    } else {
        accumulate(
            accumulated(powers, coefficients.drop_last(), start),
            powers[coefficients.len() - 1],
            coefficients.last(),
        )
    }
}

/// The compressed form of the point `sum`, where it is one that a
/// verifying key may hold.
pub open spec fn sealed(sum: Option<Seq<u8>>) -> Option<Seq<u8>> {
    match sum {
        None => None,
        Some(point) => match point_compressed(point) {
            None => None,
            Some(compressed) => if decode_commitment(compressed) is Ok {
                Some(compressed)
            } else {
                None
            },
        },
    }
}

/// The hiding commitment to a polynomial under a committer key: the
/// compressed form of the blinding base times `blinding` plus the powers
/// times the values of the polynomial. There is none where the polynomial
/// has more values than the key has powers, or where the curve library
/// does not give a point of the subgroup.
pub open spec fn committed(
    key: CommitterKeyView,
    polynomial: Seq<Seq<u8>>,
    blinding: Seq<u8>,
) -> Option<Seq<u8>> {
    if polynomial.len() > key.powers.len() {
        None
    } else {
        sealed(accumulated(key.powers, polynomial, point_scaled(key.hiding_base, blinding)))
    }
}

/// Whether the universal parameters have a power for each constraint and
/// for each variable of the circuit.
pub open spec fn circuit_fits(circuit: CircuitView, parameters: ParametersView) -> bool {
    circuit.num_constraints <= parameters.powers.len() && circuit.num_variables
        <= parameters.powers.len()
}

/// Why indexing fails, if it does. The sizes are looked at first.
pub open spec fn indexing_error(circuit: CircuitView, parameters: ParametersView) -> Option<
    IndexingError,
> {
    if !circuit_fits(circuit, parameters) {
        Some(IndexingError::CircuitTooLarge)
    } else if !supports_degree(parameters, required_degree(circuit)) {
        Some(IndexingError::DegreeBoundExceeded)
    } else {
        None
    }
}

/// The commitments to the nine index polynomials of a circuit under the
/// given blinding scalars, each where there is one.
pub open spec fn index_commitments(
    circuit: CircuitView,
    parameters: ParametersView,
    blinding: Seq<Seq<u8>>,
) -> Seq<Option<Seq<u8>>> {
    Seq::new(
        INDEX_POLYNOMIALS as nat,
        |i: int|
            committed(
                trimmed(parameters, required_degree(circuit) as u64),
                index_polynomials(circuit)[i],
                blinding[i],
            ),
    )
}

/// The verifying key of a circuit that holds the given commitments.
pub open spec fn indexed_verifying_key(
    circuit: CircuitView,
    mode: ProtocolMode,
    commitments: Seq<Seq<u8>>,
) -> VerifyingKeyView {
    VerifyingKeyView {
        mode,
        num_constraints: circuit.num_constraints,
        num_variables: circuit.num_variables,
        domain_size: domain_size(circuit.num_constraints as nat) as u64,
        commitments,
    }
}

/// What indexing gives for a circuit, universal parameters, a mode and
/// the blinding scalars that were drawn: the error of the sizes, if there
/// is one; else the two keys, where each of the nine commitments came out
/// as a point that a verifying key may hold.
pub open spec fn indexed(
    circuit: CircuitView,
    parameters: ParametersView,
    mode: ProtocolMode,
    blinding: Seq<Seq<u8>>,
) -> Result<(ProvingKeyView, VerifyingKeyView), IndexingError> {
    let commitments = index_commitments(circuit, parameters, blinding);
    match indexing_error(circuit, parameters) {
        Some(error) => Err(error),
        None => if forall|i: int| 0 <= i < commitments.len() ==> (#[trigger] commitments[i]) is Some {
            let verifying_key = indexed_verifying_key(
                circuit,
                mode,
                commitments.map_values(|commitment: Option<Seq<u8>>| commitment->0),
            );
            Ok(
                (
                    ProvingKeyView {
                        circuit_verifying_key: verifying_key,
                        circuit_commitment_randomness: blinding,
                        circuit,
                        committer_key: trimmed(parameters, required_degree(circuit) as u64),
                    },
                    verifying_key,
                ),
            )
        } else {
            Err(IndexingError::CommitmentRejected)
        },
    }
}

/// Commits to a polynomial, given by its values, under `key` with the
/// blinding scalar `blinding`. Gives nothing where the polynomial has more
/// values than the key has powers, or where the curve library does not
/// give a point of the subgroup.
pub fn commit(key: &CommitterKey, polynomial: &Vec<Scalar>, blinding: &Scalar) -> (commitment:
    Option<Commitment>)
    ensures
        match commitment {
            Some(point) => committed(key@, views(polynomial@), blinding@) == Some(point@),
            None => committed(key@, views(polynomial@), blinding@) is None,
        },
{
    let total: usize = polynomial.len();
    if total > key.powers.len() {
        return None;
    }
    let ghost values = views(polynomial@);
    let ghost powers = views(key.powers@);
    let mut sum: Option<Vec<u8>> = scale_point(key.hiding_base.as_bytes(), blinding.as_bytes());
    let ghost start = point_scaled(key@.hiding_base, blinding@);
    let mut i: usize = 0;
    assert(values.subrange(0, 0) =~= Seq::<Seq<u8>>::empty());
    while i < total
        invariant
            i <= total == polynomial@.len(),
            total <= key.powers@.len(),
            values == views(polynomial@),
            powers == views(key.powers@),
            match sum {
                Some(bytes) => accumulated(powers, values.subrange(0, i as int), start) == Some(
                    bytes@,
                ),
                None => accumulated(powers, values.subrange(0, i as int), start) is None,
            },
        decreases total - i,
    {
        proof {
            let now = values.subrange(0, i + 1);
            assert(now.drop_last() =~= values.subrange(0, i as int));
            assert(now.last() == polynomial@[i as int]@);
            assert(powers[i as int] == key.powers@[i as int]@);
        }
        sum = match sum {
            None => None,
            Some(so_far) => match scale_point(key.powers[i].as_bytes(), polynomial[i].as_bytes()) {
                None => None,
                Some(term) => add_points(so_far.as_slice(), term.as_slice()),
            },
        };
        i += 1;
    }
    assert(values.subrange(0, total as int) =~= values);
    match sum {
        None => None,
        Some(point) => match compress_point(point.as_slice()) {
            None => None,
            Some(compressed) => match Commitment::from_bytes(compressed.as_slice()) {
                Ok(commitment) => Some(commitment),
                Err(_) => None,
            },
        },
    }
}

/// Which of the three polynomials of a matrix.
#[derive(Clone, Copy, Debug, PartialEq, Eq, Structural)]
pub enum Part {
    Row,
    Column,
    Value,
}

/// The polynomial `part` of a matrix.
pub open spec fn polynomial_of(entries: Seq<EntryView>, part: Part) -> Seq<Seq<u8>> {
    match part {
        Part::Row => row_polynomial(entries),
        Part::Column => column_polynomial(entries),
        Part::Value => value_polynomial(entries),
    }
}

/// The values of the polynomial `part` of a matrix, one for each entry.
pub fn polynomial_values(entries: &Vec<MatrixEntry>, part: Part) -> (values: Vec<Scalar>)
    ensures
        views(values@) == polynomial_of(views(entries@), part),
{
    let total: usize = entries.len();
    let ghost wanted = polynomial_of(views(entries@), part);
    let mut values: Vec<Scalar> = Vec::new();
    let mut i: usize = 0;
    assert(views(values@) =~= wanted.subrange(0, 0));
    while i < total
        invariant
            i <= total == entries@.len(),
            wanted == polynomial_of(views(entries@), part),
            wanted.len() == total,
            views(values@) == wanted.subrange(0, i as int),
        decreases total - i,
    {
        let ghost before = views(values@);
        let entry = &entries[i];
        let value = match part {
            Part::Row => Scalar::from_u64(entry.row),
            Part::Column => Scalar::from_u64(entry.column),
            Part::Value => entry.value.clone(),
        };
        assert(value@ == wanted[i as int]);
        values.push(value);
        assert(views(values@) =~= before.push(wanted[i as int]));
        assert(views(values@) =~= wanted.subrange(0, i + 1));
        i += 1;
    }
    assert(wanted.subrange(0, total as int) =~= wanted);
    values
}

/// The entries of the matrix that index polynomial `index` belongs to.
pub open spec fn matrix_of(circuit: CircuitView, index: int) -> Seq<EntryView> {
    if index < 3 {
        circuit.a
    } else if index < 6 {
        circuit.b
    } else {
        circuit.c
    }
}

/// Indexes `circuit` with blinding scalars that were drawn before: checks
/// the sizes, trims the committer key for the degree that the circuit
/// requires, commits to the nine index polynomials, and packages both keys.
pub fn index_with_blinding(
    circuit: CircuitMatrices,
    parameters: &UniversalParameters,
    mode: ProtocolMode,
    blinding: Vec<Scalar>,
) -> (outcome: Result<(CircuitProvingKey, CircuitVerifyingKey), IndexingError>)
    requires
        circuit_valid(circuit@),
        blinding@.len() == INDEX_POLYNOMIALS,
    ensures
        match outcome {
            Ok((proving_key, verifying_key)) => {
                &&& indexed(circuit@, parameters@, mode, views(blinding@)) == Ok::<
                    (ProvingKeyView, VerifyingKeyView),
                    IndexingError,
                >((proving_key@, verifying_key@))
                &&& proving_key_valid(proving_key@)
                &&& verifying_key@ == proving_key@.circuit_verifying_key
            },
            Err(error) => indexed(circuit@, parameters@, mode, views(blinding@)) == Err::<
                (ProvingKeyView, VerifyingKeyView),
                IndexingError,
            >(error),
        },
{
    let available: usize = parameters.supported_degrees();
    if circuit.num_constraints > available as u64 || circuit.num_variables > available as u64 {
        return Err(IndexingError::CircuitTooLarge);
    }
    let degree: u64 = match circuit.required_degree() {
        Some(degree) => degree,
        None => {
            return Err(IndexingError::DegreeBoundExceeded);
        },
    };
    let committer_key: CommitterKey = match trim(parameters, degree) {
        Ok(key) => key,
        Err(_) => {
            return Err(IndexingError::DegreeBoundExceeded);
        },
    };
    let ghost wanted = index_commitments(circuit@, parameters@, views(blinding@));
    let mut commitments: Vec<Commitment> = Vec::new();
    let mut i: usize = 0;
    while i < INDEX_POLYNOMIALS
        invariant
            i <= INDEX_POLYNOMIALS,
            blinding@.len() == INDEX_POLYNOMIALS,
            circuit_valid(circuit@),
            indexing_error(circuit@, parameters@) is None,
            committer_key@ == trimmed(parameters@, required_degree(circuit@) as u64),
            wanted == index_commitments(circuit@, parameters@, views(blinding@)),
            commitments@.len() == i,
            forall|k: int| 0 <= k < i ==> (#[trigger] wanted[k]) == Some(commitments@[k]@),
        decreases INDEX_POLYNOMIALS - i,
    {
        let matrix = if i < 3 {
            &circuit.a
        } else if i < 6 {
            &circuit.b
        } else {
            &circuit.c
        };
        let part = if i % 3 == 0 {
            Part::Row
        } else if i % 3 == 1 {
            Part::Column
        } else {
            Part::Value
        };
        let polynomial = polynomial_values(matrix, part);
        proof {
            assert(views(matrix@) == matrix_of(circuit@, i as int));
            assert(views(polynomial@) == index_polynomials(circuit@)[i as int]);
            assert(views(blinding@)[i as int] == blinding@[i as int]@);
        }
        let commitment = match commit(&committer_key, &polynomial, &blinding[i]) {
            Some(commitment) => commitment,
            None => {
                assert(wanted[i as int] is None);
                return Err(IndexingError::CommitmentRejected);
            },
        };
        commitments.push(commitment);
        i += 1;
    }
    proof {
        assert(views(commitments@) =~= wanted.map_values(
            |commitment: Option<Seq<u8>>| commitment->0,
        ));
        lemma_domain_size(circuit.num_constraints as nat);
    }
    Ok(package(circuit, committer_key, mode, blinding, commitments))
}

/// Packages the two keys of a circuit from its committer key, the blinding
/// scalars and the commitments to its index polynomials. The verifying key
/// stands alone and, as a copy, in the proving key.
pub fn package(
    circuit: CircuitMatrices,
    committer_key: CommitterKey,
    mode: ProtocolMode,
    blinding: Vec<Scalar>,
    commitments: Vec<Commitment>,
) -> (keys: (CircuitProvingKey, CircuitVerifyingKey))
    requires
        domain_size(circuit@.num_constraints as nat) <= u64::MAX,
    ensures
        keys.1@ == indexed_verifying_key(circuit@, mode, views(commitments@)),
        keys.0@ == (ProvingKeyView {
            circuit_verifying_key: keys.1@,
            circuit_commitment_randomness: views(blinding@),
            circuit: circuit@,
            committer_key: committer_key@,
        }),
        all_valid::<Commitment>(views(commitments@)),
        all_valid::<Scalar>(views(blinding@)),
{
    let size: u64 = constraint_domain_size(circuit.num_constraints).unwrap();
    let total: usize = commitments.len();
    let mut copies: Vec<Commitment> = Vec::new();
    let mut i: usize = 0;
    assert(views(copies@) =~= views(commitments@).subrange(0, 0));
    while i < total
        invariant
            i <= total == commitments@.len(),
            views(copies@) == views(commitments@).subrange(0, i as int),
            all_valid::<Commitment>(views(copies@)),
        decreases total - i,
    {
        let ghost before = views(copies@);
        let copy = commitments[i].clone();
        let _ = copy.as_bytes();
        copies.push(copy);
        proof {
            assert(views(copies@) =~= before.push(commitments@[i as int]@));
            assert(views(copies@) =~= views(commitments@).subrange(0, i + 1));
        }
        i += 1;
    }
    assert(views(commitments@).subrange(0, total as int) =~= views(commitments@));
    scalars_validity(&blinding);
    let verifying_key = CircuitVerifyingKey {
        mode,
        num_constraints: circuit.num_constraints,
        num_variables: circuit.num_variables,
        domain_size: size,
        commitments,
    };
    let proving_key = CircuitProvingKey {
        circuit_verifying_key: CircuitVerifyingKey {
            mode,
            num_constraints: circuit.num_constraints,
            num_variables: circuit.num_variables,
            domain_size: size,
            commitments: copies,
        },
        circuit_commitment_randomness: blinding,
        circuit,
        committer_key,
    };
    (proving_key, verifying_key)
}

/// Scalars held in a vector are canonical.
fn scalars_validity(scalars: &Vec<Scalar>)
    ensures
        all_valid::<Scalar>(views(scalars@)),
{
    let total: usize = scalars.len();
    let mut i: usize = 0;
    while i < total
        invariant
            i <= total == scalars@.len(),
            forall|k: int| 0 <= k < i ==> scalar_valid(#[trigger] views(scalars@)[k]),
        decreases total - i,
    {
        let _ = scalars[i].as_bytes();
        i += 1;
    }
}

/// Indexes `circuit`: checks that it fits the universal parameters, draws
/// one blinding scalar for each index polynomial from `randomness`, and
/// makes the proving key and the verifying key. Where the sizes do not
/// fit, nothing is drawn. Where indexing fails, no key is made.
pub fn index<R: CommitmentRandomnessSource>(
    circuit: CircuitMatrices,
    parameters: &UniversalParameters,
    mode: ProtocolMode,
    randomness: &mut R,
) -> (outcome: Result<(CircuitProvingKey, CircuitVerifyingKey), IndexingError>)
    requires
        circuit_valid(circuit@),
    ensures
        match outcome {
            Ok((proving_key, verifying_key)) => {
                &&& indexed(
                    circuit@,
                    parameters@,
                    mode,
                    proving_key@.circuit_commitment_randomness,
                ) == Ok::<(ProvingKeyView, VerifyingKeyView), IndexingError>(
                    (proving_key@, verifying_key@),
                )
                &&& proving_key_valid(proving_key@)
                &&& proving_key@.circuit_commitment_randomness.len() == INDEX_POLYNOMIALS
                &&& verifying_key@ == proving_key@.circuit_verifying_key
            },
            Err(error) => match indexing_error(circuit@, parameters@) {
                Some(cause) => error == cause && *final(randomness) == *old(randomness),
                None => error == IndexingError::CommitmentRejected,
            },
        },
{
    let available: usize = parameters.supported_degrees();
    if circuit.num_constraints > available as u64 || circuit.num_variables > available as u64 {
        return Err(IndexingError::CircuitTooLarge);
    }
    let supported: bool = match circuit.required_degree() {
        Some(degree) => degree < available as u64,
        None => false,
    };
    if !supported {
        return Err(IndexingError::DegreeBoundExceeded);
    }
    let mut blinding: Vec<Scalar> = Vec::new();
    let mut i: usize = 0;
    while i < INDEX_POLYNOMIALS
        invariant
            i <= INDEX_POLYNOMIALS,
            blinding@.len() == i,
        decreases INDEX_POLYNOMIALS - i,
    {
        blinding.push(randomness.next_scalar());
        i += 1;
    }
    index_with_blinding(circuit, parameters, mode, blinding)
}

/// The structural part of a verifying key's validity: it has one
/// commitment for each index polynomial, and its domain size is the one
/// that belongs to its number of constraints.
pub open spec fn structure_valid(key: VerifyingKeyView) -> bool {
    &&& key.commitments.len() == INDEX_POLYNOMIALS
    &&& key.domain_size == domain_size(key.num_constraints as nat)
}

/// Degree-bound enforcement. Where a circuit fits the universal parameters
/// by its sizes but requires a degree that they do not support, indexing
/// fails with `DegreeBoundExceeded`, whatever was drawn, and makes no key.
pub proof fn law_degree_bound_enforced(
    circuit: CircuitView,
    parameters: ParametersView,
    mode: ProtocolMode,
    blinding: Seq<Seq<u8>>,
)
    requires
        circuit_fits(circuit, parameters),
        !supports_degree(parameters, required_degree(circuit)),
    ensures
        indexed(circuit, parameters, mode, blinding) == Err::<
            (ProvingKeyView, VerifyingKeyView),
            IndexingError,
        >(IndexingError::DegreeBoundExceeded),
{
}

/// Structural determinism. Whether the sizes of a circuit fit the
/// universal parameters does not depend on what is drawn: indexing with
/// two drawings fails with the same error of the sizes or with none.
/// Where both drawings give keys, the two verifying keys tell the same
/// mode, sizes and domain size and hold equally many commitments, both are
/// structurally valid, and the two proving keys hold the same circuit and
/// the same committer key. Nothing is said of the commitments themselves.
pub proof fn law_structure_is_deterministic(
    circuit: CircuitView,
    parameters: ParametersView,
    mode: ProtocolMode,
    first: Seq<Seq<u8>>,
    second: Seq<Seq<u8>>,
)
    requires
        parameters.powers.len() <= u64::MAX,
    ensures
        indexing_error(circuit, parameters) is Some ==> {
            &&& indexed(circuit, parameters, mode, first) == Err::<
                (ProvingKeyView, VerifyingKeyView),
                IndexingError,
            >(indexing_error(circuit, parameters)->0)
            &&& indexed(circuit, parameters, mode, second) == indexed(
                circuit,
                parameters,
                mode,
                first,
            )
        },
        indexed(circuit, parameters, mode, first) is Ok && indexed(
            circuit,
            parameters,
            mode,
            second,
        ) is Ok ==> {
            let (first_pk, first_vk) = indexed(circuit, parameters, mode, first)->Ok_0;
            let (second_pk, second_vk) = indexed(circuit, parameters, mode, second)->Ok_0;
            &&& first_vk.mode == second_vk.mode
            &&& first_vk.num_constraints == second_vk.num_constraints
            &&& first_vk.num_variables == second_vk.num_variables
            &&& first_vk.domain_size == second_vk.domain_size
            &&& first_vk.commitments.len() == second_vk.commitments.len()
            &&& structure_valid(first_vk)
            &&& structure_valid(second_vk)
            &&& first_pk.circuit == second_pk.circuit
            &&& first_pk.committer_key == second_pk.committer_key
        },
{
    if indexed(circuit, parameters, mode, first) is Ok {
        lemma_domain_size(circuit.num_constraints as nat);
    }
}

/// Fixed length of the randomness. Any two valid proving keys, of whatever
/// circuits, hold equally many blinding scalars: one for each index polynomial.
pub proof fn law_fixed_randomness_length(first: ProvingKeyView, second: ProvingKeyView)
    requires
        proving_key_valid(first),
        proving_key_valid(second),
    ensures
        first.circuit_commitment_randomness.len() == INDEX_POLYNOMIALS,
        second.circuit_commitment_randomness.len() == first.circuit_commitment_randomness.len(),
{
}

} // verus!
