//! What holds of the byte form of the keys: a key that is written is read
//! back unchanged, what is read is valid and is written as the bytes it was
//! read from, and a point outside the subgroup is never read.

use crate::circuit::{circuit_valid, entries_in_range, required_degree, CircuitView, EntryView};
use crate::circuit::{domain_size, MatrixEntry, INDEX_WIDTH};
use crate::codec::{decode_circuit, decode_matrices, decode_matrix, decode_proving_key};
use crate::codec::{decode_randomness, decode_u64, decode_verifying_key, encode_circuit};
use crate::codec::{encode_matrices, encode_proving_key, encode_randomness, encode_u64};
use crate::codec::{encode_verifying_key, fault_in, DecodeError, KeyField};
use crate::codec::{CIRCUIT_HEADER, VERIFYING_KEY_HEADER};
use crate::curve::{native_in_subgroup, native_on_curve, point_expanded};
use crate::curve::{COMPRESSED_WIDTH, NATIVE_WIDTH};
use crate::elements::{Commitment, Scalar};
use crate::encoding::{lemma_le_bytes_len, lemma_le_bytes_of_value, lemma_le_value_bound};
use crate::encoding::{lemma_le_value_of_bytes, lemma_radix_values};
use crate::keys::{proving_key_valid, verifying_key_valid, ProtocolMode, ProvingKeyView};
use crate::keys::{VerifyingKeyView, INDEX_POLYNOMIALS};
use crate::srs::{decode_committer_key, encode_committer_key, CommitterKeyView};
use crate::srs::{lemma_decode_encoded_committer_key, lemma_encode_decoded_committer_key};
use crate::srs::{lemma_decode_off_subgroup_base, lemma_decode_off_subgroup_power};
use crate::wire::{all_valid, encode_counted, encode_items, lemma_decode_encoded_counted};
use crate::wire::{lemma_decode_encoded_items, lemma_decode_faulty_items};
use crate::wire::{lemma_encode_decoded_counted, lemma_encode_decoded_items, Fault, WireElement};
use vstd::prelude::*;

verus! {

proof fn lemma_u64_codec(value: u64, rest: Seq<u8>)
    ensures
        encode_u64(value).len() == INDEX_WIDTH,
        decode_u64(encode_u64(value) + rest, 0) == value,
{
    lemma_radix_values();
    lemma_le_bytes_len(value as nat, INDEX_WIDTH as nat);
    lemma_le_value_of_bytes(value as nat, INDEX_WIDTH as nat);
    assert((encode_u64(value) + rest).subrange(0, INDEX_WIDTH as int) =~= encode_u64(value));
}

proof fn lemma_u64_reencode(bytes: Seq<u8>, at: int)
    requires
        0 <= at,
        at + INDEX_WIDTH <= bytes.len(),
    ensures
        encode_u64(decode_u64(bytes, at)) == bytes.subrange(at, at + INDEX_WIDTH),
{
    let chunk = bytes.subrange(at, at + INDEX_WIDTH);
    lemma_radix_values();
    lemma_le_value_bound(chunk);
    lemma_le_bytes_of_value(chunk);
}

/// A valid verifying key, written and followed by anything, is read back unchanged.
pub proof fn lemma_decode_encoded_verifying_key(key: VerifyingKeyView, rest: Seq<u8>)
    requires
        verifying_key_valid(key),
    ensures
        decode_verifying_key(encode_verifying_key(key) + rest, key.mode) == Ok::<
            (VerifyingKeyView, nat),
            Fault,
        >((key, encode_verifying_key(key).len())),
{
    reveal(decode_verifying_key);
    let constraints = encode_u64(key.num_constraints);
    let variables = encode_u64(key.num_variables);
    let domain = encode_u64(key.domain_size);
    let commitments = encode_items::<Commitment>(key.commitments);
    let bytes = encode_verifying_key(key) + rest;
    lemma_u64_codec(key.num_constraints, variables + domain + commitments + rest);
    lemma_u64_codec(key.num_variables, domain + commitments + rest);
    lemma_u64_codec(key.domain_size, commitments + rest);
    assert(bytes =~= constraints + (variables + domain + commitments + rest));
    assert(bytes.subrange(8, 16) =~= (variables + (domain + commitments + rest)).subrange(0, 8));
    assert(variables + domain + commitments + rest =~= variables + (domain + commitments + rest));
    assert(bytes.subrange(16, 24) =~= (domain + (commitments + rest)).subrange(0, 8));
    assert(domain + commitments + rest =~= domain + (commitments + rest));
    assert(bytes.skip(VERIFYING_KEY_HEADER as int) =~= commitments + rest);
    lemma_decode_encoded_items::<Commitment>(key.commitments, rest);
}

proof fn lemma_decode_encoded_matrix(
    entries: Seq<EntryView>,
    rows: u64,
    columns: u64,
    rest: Seq<u8>,
)
    requires
        all_valid::<MatrixEntry>(entries),
        entries_in_range(entries, rows, columns),
        entries.len() <= u64::MAX,
    ensures
        decode_matrix(encode_counted::<MatrixEntry>(entries) + rest, rows, columns) == Ok::<
            (Seq<EntryView>, nat),
            Fault,
        >((entries, encode_counted::<MatrixEntry>(entries).len())),
{
    lemma_decode_encoded_counted::<MatrixEntry>(entries, rest);
}

/// The two halves of a concatenation.
pub proof fn lemma_split(front: Seq<u8>, back: Seq<u8>)
    ensures
        (front + back).len() == front.len() + back.len(),
        (front + back).subrange(0, front.len() as int) == front,
        (front + back).skip(front.len() as int) == back,
{
    assert((front + back).subrange(0, front.len() as int) =~= front);
    assert((front + back).skip(front.len() as int) =~= back);
}

/// Concatenation does not depend on how it is bracketed.
pub proof fn lemma_regroup(a: Seq<u8>, b: Seq<u8>, c: Seq<u8>)
    ensures
        (a + b) + c == a + (b + c),
{
    assert((a + b) + c =~= a + (b + c));
}

proof fn lemma_decode_encoded_matrices(circuit: CircuitView, rest: Seq<u8>)
    requires
        circuit_valid(circuit),
    ensures
        decode_matrices(
            encode_matrices(circuit) + rest,
            circuit.num_constraints,
            circuit.num_variables,
        ) == Ok::<(CircuitView, nat), Fault>((circuit, encode_matrices(circuit).len())),
{
    let a = encode_counted::<MatrixEntry>(circuit.a);
    let b = encode_counted::<MatrixEntry>(circuit.b);
    let c = encode_counted::<MatrixEntry>(circuit.c);
    let bytes = encode_matrices(circuit) + rest;
    let rows = circuit.num_constraints;
    let columns = circuit.num_variables;
    lemma_regroup(a, b + c, rest);
    lemma_regroup(b, c, rest);
    lemma_decode_encoded_matrix(circuit.a, rows, columns, b + (c + rest));
    lemma_split(a, b + (c + rest));
    lemma_decode_encoded_matrix(circuit.b, rows, columns, c + rest);
    lemma_split(b, c + rest);
    assert(bytes.skip((a.len() + b.len()) as int) == c + rest) by {
        assert(bytes.skip((a.len() + b.len()) as int) =~= bytes.skip(a.len() as int).skip(
            b.len() as int,
        ));
    }
    lemma_decode_encoded_matrix(circuit.c, rows, columns, rest);
    lemma_split(c, rest);
}

/// A valid circuit, written and followed by anything, is read back unchanged.
pub proof fn lemma_decode_encoded_circuit(circuit: CircuitView, rest: Seq<u8>)
    requires
        circuit_valid(circuit),
    ensures
        decode_circuit(encode_circuit(circuit) + rest) == Ok::<(CircuitView, nat), Fault>(
            (circuit, encode_circuit(circuit).len()),
        ),
{
    reveal(decode_circuit);
    let matrices = encode_matrices(circuit);
    lemma_regroup(
        encode_u64(circuit.num_constraints),
        encode_u64(circuit.num_variables) + matrices,
        rest,
    );
    lemma_regroup(encode_u64(circuit.num_variables), matrices, rest);
    lemma_two_numbers(circuit.num_constraints, circuit.num_variables, matrices + rest);
    lemma_two_numbers(circuit.num_constraints, circuit.num_variables, matrices);
    lemma_decode_encoded_matrices(circuit, rest);
}

/// Two numbers in front of `tail` are read back, and `tail` follows them.
proof fn lemma_two_numbers(first: u64, second: u64, tail: Seq<u8>)
    ensures
        (encode_u64(first) + (encode_u64(second) + tail)).len() == 16 + tail.len(),
        decode_u64(encode_u64(first) + (encode_u64(second) + tail), 0) == first,
        decode_u64(encode_u64(first) + (encode_u64(second) + tail), 8) == second,
        (encode_u64(first) + (encode_u64(second) + tail)).skip(16) == tail,
{
    let bytes = encode_u64(first) + (encode_u64(second) + tail);
    lemma_u64_codec(first, encode_u64(second) + tail);
    lemma_u64_codec(second, tail);
    lemma_split(encode_u64(first), encode_u64(second) + tail);
    lemma_split(encode_u64(second), tail);
    assert(bytes.subrange(8, 16) =~= bytes.skip(8).subrange(0, 8));
    assert(bytes.skip(16) =~= bytes.skip(8).skip(8));
}

proof fn lemma_decode_encoded_randomness(randomness: Seq<Seq<u8>>, rest: Seq<u8>)
    requires
        randomness.len() == INDEX_POLYNOMIALS,
        all_valid::<Scalar>(randomness),
    ensures
        decode_randomness(encode_randomness(randomness) + rest) == Ok::<
            (Seq<Seq<u8>>, nat),
            Fault,
        >((randomness, encode_randomness(randomness).len())),
{
    reveal(decode_randomness);
    lemma_decode_encoded_items::<Scalar>(randomness, rest);
}

/// What reading a proving key gives once its first three fields were read
/// as those of `key`, in `front` bytes, and the committer key was read as
/// `outcome`.
pub open spec fn completed(
    key: ProvingKeyView,
    front: nat,
    outcome: Result<(CommitterKeyView, nat), Fault>,
) -> Result<(ProvingKeyView, nat), DecodeError> {
    match outcome {
        Err(fault) => Err(fault_in(fault, KeyField::CommitterKey)),
        Ok((committer_key, used)) => if committer_key.degree_bound < required_degree(
            key.circuit,
        ) {
            Err(fault_in(Fault::InvalidEncoding, KeyField::CommitterKey))
        } else {
            Ok((ProvingKeyView { committer_key, ..key }, (front + used) as nat))
        },
    }
}

/// The bytes of the first three fields of a proving key.
pub open spec fn encode_front(key: ProvingKeyView) -> Seq<u8> {
    encode_verifying_key(key.circuit_verifying_key) + (encode_randomness(
        key.circuit_commitment_randomness,
    ) + encode_circuit(key.circuit))
}

/// The first three fields of a key that are valid and agree with each
/// other are read back unchanged, whatever committer key the key holds;
/// what the bytes behind them are read as decides the rest.
pub proof fn lemma_decode_encoded_front(key: ProvingKeyView, tail: Seq<u8>)
    requires
        verifying_key_valid(key.circuit_verifying_key),
        key.circuit_commitment_randomness.len() == INDEX_POLYNOMIALS,
        all_valid::<Scalar>(key.circuit_commitment_randomness),
        circuit_valid(key.circuit),
        key.circuit.num_constraints == key.circuit_verifying_key.num_constraints,
        key.circuit.num_variables == key.circuit_verifying_key.num_variables,
    ensures
        decode_proving_key(encode_front(key) + tail, key.circuit_verifying_key.mode) == completed(
            key,
            encode_front(key).len(),
            decode_committer_key(tail),
        ),
{
    let vk = encode_verifying_key(key.circuit_verifying_key);
    let r = encode_randomness(key.circuit_commitment_randomness);
    let c = encode_circuit(key.circuit);
    let bytes = encode_front(key) + tail;
    lemma_regroup(vk, r + c, tail);
    lemma_regroup(r, c, tail);
    lemma_decode_encoded_verifying_key(key.circuit_verifying_key, r + (c + tail));
    lemma_split(vk, r + (c + tail));
    lemma_decode_encoded_randomness(key.circuit_commitment_randomness, c + tail);
    lemma_split(r, c + tail);
    assert(bytes.skip((vk.len() + r.len()) as int) == c + tail) by {
        assert(bytes.skip((vk.len() + r.len()) as int) =~= bytes.skip(vk.len() as int).skip(
            r.len() as int,
        ));
    }
    lemma_decode_encoded_circuit(key.circuit, tail);
    lemma_split(c, tail);
    assert(bytes.skip((vk.len() + r.len() + c.len()) as int) == tail) by {
        assert(bytes.skip((vk.len() + r.len() + c.len()) as int) =~= bytes.skip(
            (vk.len() + r.len()) as int,
        ).skip(c.len() as int));
    }
    assert(encode_front(key).len() == vk.len() + r.len() + c.len());
    let outcome = decode_committer_key(tail);
    if outcome is Ok && outcome->Ok_0.0.degree_bound >= required_degree(key.circuit) {
        assert(ProvingKeyView { committer_key: outcome->Ok_0.0, ..key } == ProvingKeyView {
            circuit_verifying_key: key.circuit_verifying_key,
            circuit_commitment_randomness: key.circuit_commitment_randomness,
            circuit: key.circuit,
            committer_key: outcome->Ok_0.0,
        });
    }
}

/// The bytes of a proving key are those of its first three fields and
/// those of its committer key.
pub proof fn lemma_encode_in_two(key: ProvingKeyView, rest: Seq<u8>)
    ensures
        encode_proving_key(key) + rest == encode_front(key) + (encode_committer_key(
            key.committer_key,
        ) + rest),
        encode_proving_key(key).len() == encode_front(key).len() + encode_committer_key(
            key.committer_key,
        ).len(),
{
    let vk = encode_verifying_key(key.circuit_verifying_key);
    let r = encode_randomness(key.circuit_commitment_randomness);
    let c = encode_circuit(key.circuit);
    let ck = encode_committer_key(key.committer_key);
    assert(encode_proving_key(key) + rest =~= encode_front(key) + (ck + rest));
}

/// A valid proving key, written and followed by anything, is read back unchanged.
pub proof fn lemma_decode_encoded_proving_key(key: ProvingKeyView, rest: Seq<u8>)
    requires
        proving_key_valid(key),
    ensures
        decode_proving_key(encode_proving_key(key) + rest, key.circuit_verifying_key.mode) == Ok::<
            (ProvingKeyView, nat),
            DecodeError,
        >((key, encode_proving_key(key).len())),
{
    let ck = encode_committer_key(key.committer_key);
    lemma_encode_in_two(key, rest);
    lemma_decode_encoded_front(key, ck + rest);
    lemma_decode_encoded_committer_key(key.committer_key, rest);
}

/// A prefix of `bytes` is its prefix up to `middle` and what follows it.
pub proof fn lemma_join(bytes: Seq<u8>, middle: int, end: int)
    requires
        0 <= middle <= end <= bytes.len(),
    ensures
        bytes.subrange(0, end) == bytes.subrange(0, middle) + bytes.skip(middle).subrange(
            0,
            end - middle,
        ),
{
    assert(bytes.subrange(0, end) =~= bytes.subrange(0, middle) + bytes.skip(middle).subrange(
        0,
        end - middle,
    ));
}

/// Two numbers that are read from the front of `bytes` are written as its
/// first sixteen bytes.
proof fn lemma_two_numbers_reencode(bytes: Seq<u8>)
    requires
        bytes.len() >= 16,
    ensures
        encode_u64(decode_u64(bytes, 0)) + encode_u64(decode_u64(bytes, 8)) == bytes.subrange(
            0,
            16,
        ),
{
    lemma_u64_reencode(bytes, 0);
    lemma_u64_reencode(bytes, 8);
    assert(bytes.subrange(0, 8) + bytes.subrange(8, 16) =~= bytes.subrange(0, 16));
}

/// What is read as a verifying key is valid, and is written as the bytes it
/// was read from.
pub proof fn lemma_encode_decoded_verifying_key(bytes: Seq<u8>, mode: ProtocolMode)
    requires
        decode_verifying_key(bytes, mode) is Ok,
    ensures
        decode_verifying_key(bytes, mode)->Ok_0.1 <= bytes.len(),
        decode_verifying_key(bytes, mode)->Ok_0.0.mode == mode,
        verifying_key_valid(decode_verifying_key(bytes, mode)->Ok_0.0),
        encode_verifying_key(decode_verifying_key(bytes, mode)->Ok_0.0) == bytes.subrange(
            0,
            decode_verifying_key(bytes, mode)->Ok_0.1 as int,
        ),
{
    reveal(decode_verifying_key);
    let (key, used) = decode_verifying_key(bytes, mode)->Ok_0;
    let body = bytes.skip(VERIFYING_KEY_HEADER as int);
    lemma_two_numbers_reencode(bytes);
    lemma_u64_reencode(bytes, 16);
    lemma_encode_decoded_items::<Commitment>(body, INDEX_POLYNOMIALS as nat);
    assert(bytes.subrange(0, 16) + bytes.subrange(16, 24) =~= bytes.subrange(0, 24));
    lemma_join(bytes, VERIFYING_KEY_HEADER as int, used as int);
}

proof fn lemma_encode_decoded_randomness(bytes: Seq<u8>)
    requires
        decode_randomness(bytes) is Ok,
    ensures
        decode_randomness(bytes)->Ok_0.1 <= bytes.len(),
        decode_randomness(bytes)->Ok_0.0.len() == INDEX_POLYNOMIALS,
        all_valid::<Scalar>(decode_randomness(bytes)->Ok_0.0),
        encode_randomness(decode_randomness(bytes)->Ok_0.0) == bytes.subrange(
            0,
            decode_randomness(bytes)->Ok_0.1 as int,
        ),
{
    reveal(decode_randomness);
    lemma_encode_decoded_items::<Scalar>(bytes, INDEX_POLYNOMIALS as nat);
}

proof fn lemma_encode_decoded_matrix(bytes: Seq<u8>, rows: u64, columns: u64)
    requires
        decode_matrix(bytes, rows, columns) is Ok,
    ensures
        decode_matrix(bytes, rows, columns)->Ok_0.1 <= bytes.len(),
        decode_matrix(bytes, rows, columns)->Ok_0.0.len() <= u64::MAX,
        all_valid::<MatrixEntry>(decode_matrix(bytes, rows, columns)->Ok_0.0),
        entries_in_range(decode_matrix(bytes, rows, columns)->Ok_0.0, rows, columns),
        encode_counted::<MatrixEntry>(decode_matrix(bytes, rows, columns)->Ok_0.0)
            == bytes.subrange(0, decode_matrix(bytes, rows, columns)->Ok_0.1 as int),
{
    lemma_encode_decoded_counted::<MatrixEntry>(bytes);
}

proof fn lemma_encode_decoded_matrices(bytes: Seq<u8>, rows: u64, columns: u64)
    requires
        decode_matrices(bytes, rows, columns) is Ok,
    ensures
        decode_matrices(bytes, rows, columns)->Ok_0.1 <= bytes.len(),
        decode_matrices(bytes, rows, columns)->Ok_0.0.num_constraints == rows,
        decode_matrices(bytes, rows, columns)->Ok_0.0.num_variables == columns,
        circuit_valid(decode_matrices(bytes, rows, columns)->Ok_0.0),
        encode_matrices(decode_matrices(bytes, rows, columns)->Ok_0.0) == bytes.subrange(
            0,
            decode_matrices(bytes, rows, columns)->Ok_0.1 as int,
        ),
{
    let (circuit, used) = decode_matrices(bytes, rows, columns)->Ok_0;
    let used_a = decode_matrix(bytes, rows, columns)->Ok_0.1;
    let after_a = bytes.skip(used_a as int);
    let used_b = decode_matrix(after_a, rows, columns)->Ok_0.1;
    let after_b = bytes.skip((used_a + used_b) as int);
    let used_c = decode_matrix(after_b, rows, columns)->Ok_0.1;
    lemma_encode_decoded_matrix(bytes, rows, columns);
    lemma_encode_decoded_matrix(after_a, rows, columns);
    lemma_encode_decoded_matrix(after_b, rows, columns);
    assert(after_b =~= after_a.skip(used_b as int));
    lemma_join(after_a, used_b as int, (used_b + used_c) as int);
    lemma_join(bytes, used_a as int, used as int);
}

/// What is read as a circuit is valid, and is written as the bytes it was
/// read from.
pub proof fn lemma_encode_decoded_circuit(bytes: Seq<u8>)
    requires
        decode_circuit(bytes) is Ok,
    ensures
        decode_circuit(bytes)->Ok_0.1 <= bytes.len(),
        circuit_valid(decode_circuit(bytes)->Ok_0.0),
        encode_circuit(decode_circuit(bytes)->Ok_0.0) == bytes.subrange(
            0,
            decode_circuit(bytes)->Ok_0.1 as int,
        ),
{
    reveal(decode_circuit);
    let (circuit, used) = decode_circuit(bytes)->Ok_0;
    let body = bytes.skip(CIRCUIT_HEADER as int);
    lemma_two_numbers_reencode(bytes);
    lemma_encode_decoded_matrices(body, decode_u64(bytes, 0), decode_u64(bytes, 8));
    lemma_join(bytes, CIRCUIT_HEADER as int, used as int);
    lemma_regroup(
        encode_u64(circuit.num_constraints),
        encode_u64(circuit.num_variables),
        encode_matrices(circuit),
    );
}

/// What is read as a proving key is valid, and is written as the bytes it
/// was read from.
pub proof fn lemma_encode_decoded_proving_key(bytes: Seq<u8>, mode: ProtocolMode)
    requires
        decode_proving_key(bytes, mode) is Ok,
    ensures
        decode_proving_key(bytes, mode)->Ok_0.1 <= bytes.len(),
        decode_proving_key(bytes, mode)->Ok_0.0.circuit_verifying_key.mode == mode,
        proving_key_valid(decode_proving_key(bytes, mode)->Ok_0.0),
        encode_proving_key(decode_proving_key(bytes, mode)->Ok_0.0) == bytes.subrange(
            0,
            decode_proving_key(bytes, mode)->Ok_0.1 as int,
        ),
{
    let (key, used) = decode_proving_key(bytes, mode)->Ok_0;
    let used_vk = decode_verifying_key(bytes, mode)->Ok_0.1;
    let after_vk = bytes.skip(used_vk as int);
    let used_r = decode_randomness(after_vk)->Ok_0.1;
    let after_r = bytes.skip((used_vk + used_r) as int);
    let used_c = decode_circuit(after_r)->Ok_0.1;
    let after_c = bytes.skip((used_vk + used_r + used_c) as int);
    let used_ck = decode_committer_key(after_c)->Ok_0.1;
    lemma_encode_decoded_verifying_key(bytes, mode);
    lemma_encode_decoded_randomness(after_vk);
    lemma_encode_decoded_circuit(after_r);
    lemma_encode_decoded_committer_key(after_c);
    assert(after_r =~= after_vk.skip(used_r as int));
    assert(after_c =~= after_r.skip(used_c as int));
    lemma_join(after_r, used_c as int, (used_c + used_ck) as int);
    lemma_join(after_vk, used_r as int, (used_r + used_c + used_ck) as int);
    lemma_join(bytes, used_vk as int, used as int);
}

/// Round trip. A valid proving key that is written and read again is the
/// key that was written, whatever follows it; and what was read is written
/// as the same bytes again.
pub proof fn law_round_trip(key: ProvingKeyView, rest: Seq<u8>)
    requires
        proving_key_valid(key),
    ensures
        decode_proving_key(encode_proving_key(key) + rest, key.circuit_verifying_key.mode) == Ok::<
            (ProvingKeyView, nat),
            DecodeError,
        >((key, encode_proving_key(key).len())),
        decode_proving_key(encode_proving_key(key), key.circuit_verifying_key.mode) == Ok::<
            (ProvingKeyView, nat),
            DecodeError,
        >((key, encode_proving_key(key).len())),
        encode_proving_key(
            decode_proving_key(encode_proving_key(key), key.circuit_verifying_key.mode)->Ok_0.0,
        ) == encode_proving_key(key),
{
    lemma_decode_encoded_proving_key(key, rest);
    lemma_decode_encoded_proving_key(key, Seq::empty());
    assert(encode_proving_key(key) + Seq::<u8>::empty() =~= encode_proving_key(key));
}

/// All or nothing. Whatever bytes are read as a proving key, the key is
/// valid, it is a key for the mode that was asked for, and it is written
/// as exactly the bytes that were read.
pub proof fn law_decoded_key_is_valid(bytes: Seq<u8>, mode: ProtocolMode)
    requires
        decode_proving_key(bytes, mode) is Ok,
    ensures
        proving_key_valid(decode_proving_key(bytes, mode)->Ok_0.0),
        decode_proving_key(bytes, mode)->Ok_0.0.circuit_verifying_key.mode == mode,
        decode_proving_key(bytes, mode)->Ok_0.1 <= bytes.len(),
        encode_proving_key(decode_proving_key(bytes, mode)->Ok_0.0) == bytes.subrange(
            0,
            decode_proving_key(bytes, mode)->Ok_0.1 as int,
        ),
{
    lemma_encode_decoded_proving_key(bytes, mode);
}

/// A verifying key with the commitment at `index` replaced by `point`.
pub open spec fn with_commitment(
    key: ProvingKeyView,
    index: int,
    point: Seq<u8>,
) -> ProvingKeyView {
    ProvingKeyView {
        circuit_verifying_key: VerifyingKeyView {
            commitments: key.circuit_verifying_key.commitments.update(index, point),
            ..key.circuit_verifying_key
        },
        ..key
    }
}

/// Subgroup rejection. A valid proving key in which one commitment is
/// replaced by 48 bytes that decompress to a point outside the prime-order
/// subgroup is not read: reading fails in the verifying key, with the
/// failed subgroup check as the fault.
pub proof fn law_off_subgroup_point_rejected(
    key: ProvingKeyView,
    index: int,
    point: Seq<u8>,
    rest: Seq<u8>,
    mode: ProtocolMode,
)
    requires
        proving_key_valid(key),
        0 <= index < INDEX_POLYNOMIALS,
        point.len() == COMPRESSED_WIDTH,
        point_expanded(point) is Some,
        !native_in_subgroup(point_expanded(point)->0),
    ensures
        decode_proving_key(encode_proving_key(with_commitment(key, index, point)) + rest, mode)
            == Err::<(ProvingKeyView, nat), DecodeError>(
            fault_in(Fault::SubgroupCheckFailed, KeyField::VerifyingKey),
        ),
{
    let forged = with_commitment(key, index, point);
    let vk = forged.circuit_verifying_key;
    let commitments = vk.commitments;
    let tail = encode_randomness(forged.circuit_commitment_randomness) + (encode_circuit(
        forged.circuit,
    ) + encode_committer_key(forged.committer_key)) + rest;
    let bytes = encode_proving_key(forged) + rest;
    lemma_regroup(
        encode_verifying_key(vk),
        encode_randomness(forged.circuit_commitment_randomness) + (encode_circuit(forged.circuit)
            + encode_committer_key(forged.committer_key)),
        rest,
    );
    assert(bytes == encode_verifying_key(vk) + tail);
    lemma_faulty_verifying_key(vk, index, tail, mode);
}

proof fn lemma_faulty_verifying_key(
    key: VerifyingKeyView,
    index: int,
    rest: Seq<u8>,
    mode: ProtocolMode,
)
    requires
        key.commitments.len() == INDEX_POLYNOMIALS,
        key.domain_size == domain_size(key.num_constraints as nat),
        0 <= index < INDEX_POLYNOMIALS,
        forall|i: int| 0 <= i < index ==> Commitment::valid(#[trigger] key.commitments[i]),
        key.commitments[index].len() == COMPRESSED_WIDTH,
        point_expanded(key.commitments[index]) is Some,
        !native_in_subgroup(point_expanded(key.commitments[index])->0),
    ensures
        decode_verifying_key(encode_verifying_key(key) + rest, mode) == Err::<
            (VerifyingKeyView, nat),
            Fault,
        >(Fault::SubgroupCheckFailed),
{
    reveal(decode_verifying_key);
    let constraints = encode_u64(key.num_constraints);
    let variables = encode_u64(key.num_variables);
    let domain = encode_u64(key.domain_size);
    let items = encode_items::<Commitment>(key.commitments);
    let bytes = encode_verifying_key(key) + rest;
    lemma_regroup(constraints + variables + domain, items, rest);
    lemma_regroup(constraints + variables, domain, items + rest);
    lemma_regroup(constraints, variables, domain + (items + rest));
    lemma_two_numbers(key.num_constraints, key.num_variables, domain + (items + rest));
    lemma_u64_codec(key.domain_size, items + rest);
    lemma_split(domain, items + rest);
    assert(bytes.subrange(16, 24) =~= bytes.skip(16).subrange(0, 8));
    assert(bytes.skip(VERIFYING_KEY_HEADER as int) =~= bytes.skip(16).skip(8));
    lemma_decode_faulty_items::<Commitment>(
        key.commitments,
        index,
        rest,
        INDEX_POLYNOMIALS as nat,
    );
}

/// A key with power `index` of the committer key replaced by `point`.
pub open spec fn with_power(key: ProvingKeyView, index: int, point: Seq<u8>) -> ProvingKeyView {
    ProvingKeyView {
        committer_key: CommitterKeyView {
            powers: key.committer_key.powers.update(index, point),
            ..key.committer_key
        },
        ..key
    }
}

/// A key with the blinding base of the committer key replaced by `point`.
pub open spec fn with_hiding_base(key: ProvingKeyView, point: Seq<u8>) -> ProvingKeyView {
    ProvingKeyView {
        committer_key: CommitterKeyView { hiding_base: point, ..key.committer_key },
        ..key
    }
}

/// Subgroup rejection in the committer key. A valid proving key in which
/// one power of the committer key is replaced by 97 bytes of a point that
/// is on the curve but outside the prime-order subgroup is not read:
/// reading fails in the committer key, with the failed subgroup check as
/// the fault.
pub proof fn law_off_subgroup_power_rejected(
    key: ProvingKeyView,
    index: int,
    point: Seq<u8>,
    rest: Seq<u8>,
)
    requires
        proving_key_valid(key),
        0 <= index < key.committer_key.powers.len(),
        point.len() == NATIVE_WIDTH,
        native_on_curve(point),
        !native_in_subgroup(point),
    ensures
        decode_proving_key(
            encode_proving_key(with_power(key, index, point)) + rest,
            key.circuit_verifying_key.mode,
        ) == Err::<(ProvingKeyView, nat), DecodeError>(
            fault_in(Fault::SubgroupCheckFailed, KeyField::CommitterKey),
        ),
{
    let forged = with_power(key, index, point);
    let ck = encode_committer_key(forged.committer_key);
    lemma_encode_in_two(forged, rest);
    lemma_decode_encoded_front(forged, ck + rest);
    lemma_decode_off_subgroup_power(forged.committer_key, index, rest);
}

/// Subgroup rejection of the blinding base. A valid proving key in which
/// the blinding base of the committer key is replaced by 97 bytes of a
/// point that is on the curve but outside the prime-order subgroup is not
/// read: reading fails in the committer key, with the failed subgroup
/// check as the fault.
pub proof fn law_off_subgroup_base_rejected(key: ProvingKeyView, point: Seq<u8>, rest: Seq<u8>)
    requires
        proving_key_valid(key),
        point.len() == NATIVE_WIDTH,
        native_on_curve(point),
        !native_in_subgroup(point),
    ensures
        decode_proving_key(
            encode_proving_key(with_hiding_base(key, point)) + rest,
            key.circuit_verifying_key.mode,
        ) == Err::<(ProvingKeyView, nat), DecodeError>(
            fault_in(Fault::SubgroupCheckFailed, KeyField::CommitterKey),
        ),
{
    let forged = with_hiding_base(key, point);
    let ck = encode_committer_key(forged.committer_key);
    lemma_encode_in_two(forged, rest);
    lemma_decode_encoded_front(forged, ck + rest);
    lemma_decode_off_subgroup_base(forged.committer_key, rest);
}

} // verus!
