//! Where blinding scalars come from.

use crate::curve::{draw_secure_scalar, scalar_valid};
use crate::elements::Scalar;
use crate::encoding::{le_bytes, le_value, radix, write_uint_le};
use crate::encoding::{lemma_le_bytes_len, lemma_le_value_concat, lemma_le_value_of_bytes};
use crate::encoding::{lemma_radix_sum, lemma_radix_values};
use vstd::prelude::*;

verus! {

/// A source of blinding scalars: each call hands out one scalar of the
/// field. Drawing never fails.
pub trait CommitmentRandomnessSource {
    /// Draws the next scalar: 32 bytes of a number below the field's order.
    fn next_scalar(&mut self) -> (scalar: Scalar)
        ensures
            scalar_valid(scalar@),
    ;
}

/// The source for production use: every scalar is drawn from the operating
/// system's generator.
#[derive(Debug)]
pub struct SystemRandomness {}

impl SystemRandomness {
    /// The source of the operating system.
    pub fn new() -> (source: SystemRandomness) {
        SystemRandomness {  }
    }
}

impl CommitmentRandomnessSource for SystemRandomness {
    /// A scalar from the operating system's generator.
    fn next_scalar(&mut self) -> (scalar: Scalar) {
        Scalar::from_valid(draw_secure_scalar())
    }
}

/// The source for reproducible fixtures: the scalars are a function of the
/// seed alone. It is not fit to hide anything.
#[derive(Debug, PartialEq, Eq)]
pub struct SeededRandomness {
    pub state: u64,
}

/// The state after one step from `state`.
pub open spec fn step(state: u64) -> u64 {
    state.wrapping_add(0x9E37_79B9_7F4A_7C15)
}

/// The 64 bits that a state gives out.
pub open spec fn scramble(state: u64) -> u64 {
    let a: u64 = (state ^ (state >> 30)).wrapping_mul(0xBF58_476D_1CE4_E5B9);
    let b: u64 = (a ^ (a >> 27)).wrapping_mul(0x94D0_49BB_1331_11EB);
    b ^ (b >> 31)
}

/// The state after `count` steps from `state`.
pub open spec fn step_many(state: u64, count: nat) -> u64
    decreases count,
{
    if count == 0 {
        state
    } else {
        step_many(step(state), (count - 1) as nat)
    }
}

/// The scalar that a seeded source in state `state` hands out next: four
/// words of 64 bits from the four next states, least significant first, the
/// last one without its lowest four bits so that the number stays below the
/// field's order.
pub open spec fn seeded_scalar(state: u64) -> Seq<u8> {
    le_bytes(scramble(step_many(state, 1)) as nat, 8) + le_bytes(
        scramble(step_many(state, 2)) as nat,
        8,
    ) + le_bytes(scramble(step_many(state, 3)) as nat, 8) + le_bytes(
        (scramble(step_many(state, 4)) >> 4) as nat,
        8,
    )
}

/// Four words, the last below 2^60, spell a canonical scalar.
proof fn lemma_words_are_scalar(w0: u64, w1: u64, w2: u64, w3: u64)
    requires
        w3 < 0x1000_0000_0000_0000,
    ensures
        scalar_valid(
            le_bytes(w0 as nat, 8) + le_bytes(w1 as nat, 8) + le_bytes(w2 as nat, 8) + le_bytes(
                w3 as nat,
                8,
            ),
        ),
{
    let b0 = le_bytes(w0 as nat, 8);
    let b1 = le_bytes(w1 as nat, 8);
    let b2 = le_bytes(w2 as nat, 8);
    let b3 = le_bytes(w3 as nat, 8);
    lemma_radix_values();
    lemma_le_bytes_len(w0 as nat, 8);
    lemma_le_bytes_len(w1 as nat, 8);
    lemma_le_bytes_len(w2 as nat, 8);
    lemma_le_bytes_len(w3 as nat, 8);
    lemma_le_value_of_bytes(w0 as nat, 8);
    lemma_le_value_of_bytes(w1 as nat, 8);
    lemma_le_value_of_bytes(w2 as nat, 8);
    lemma_le_value_of_bytes(w3 as nat, 8);
    lemma_radix_sum(8, 8);
    lemma_radix_sum(16, 8);
    lemma_le_value_concat(b0, b1);
    lemma_le_value_concat(b0 + b1, b2);
    lemma_le_value_concat(b0 + b1 + b2, b3);
    let r8: nat = 0x1_0000_0000_0000_0000;
    assert(radix(16) == r8 * r8);
    assert(radix(24) == r8 * r8 * r8);
    let value = le_value(b0 + b1 + b2 + b3);
    assert(value == w0 + r8 * w1 + (r8 * r8) * w2 + (r8 * r8 * r8) * w3);
    assert(r8 * r8 == 0x1_0000_0000_0000_0000_0000_0000_0000_0000nat) by (nonlinear_arith)
        requires
            r8 == 0x1_0000_0000_0000_0000nat,
    ;
    assert(r8 * r8 * r8 == 0x1_0000_0000_0000_0000_0000_0000_0000_0000_0000_0000_0000_0000nat)
        by (nonlinear_arith)
        requires
            r8 == 0x1_0000_0000_0000_0000nat,
    ;
}

impl SeededRandomness {
    /// A source that starts from `seed`.
    pub fn new(seed: u64) -> (source: SeededRandomness)
        ensures
            source.state == seed,
    {
        SeededRandomness { state: seed }
    }

    /// Takes one step and gives out the 64 bits of the new state.
    fn next_word(&mut self) -> (word: u64)
        ensures
            final(self).state == step(old(self).state),
            word == scramble(step(old(self).state)),
    {
        self.state = self.state.wrapping_add(0x9E37_79B9_7F4A_7C15);
        let a: u64 = (self.state ^ (self.state >> 30)).wrapping_mul(0xBF58_476D_1CE4_E5B9);
        let b: u64 = (a ^ (a >> 27)).wrapping_mul(0x94D0_49BB_1331_11EB);
        b ^ (b >> 31)
    }
}

impl CommitmentRandomnessSource for SeededRandomness {
    /// The next scalar of the sequence that the seed fixes.
    fn next_scalar(&mut self) -> (scalar: Scalar)
        ensures
            scalar@ == seeded_scalar(old(self).state),
            final(self).state == step_many(old(self).state, 4),
    {
        let ghost start = self.state;
        let w0: u64 = self.next_word();
        let w1: u64 = self.next_word();
        let w2: u64 = self.next_word();
        let w3: u64 = self.next_word() >> 4;
        proof {
            reveal_with_fuel(step_many, 5);
            assert(w3 < 0x1000_0000_0000_0000) by (bit_vector)
                requires
                    w3 == scramble(step_many(start, 4)) >> 4,
            ;
            lemma_words_are_scalar(w0, w1, w2, w3);
        }
        let mut bytes: Vec<u8> = Vec::new();
        write_uint_le(w0, 8, &mut bytes);
        write_uint_le(w1, 8, &mut bytes);
        write_uint_le(w2, 8, &mut bytes);
        write_uint_le(w3, 8, &mut bytes);
        assert(bytes@ =~= seeded_scalar(start));
        Scalar::from_valid(bytes)
    }
}

} // verus!
