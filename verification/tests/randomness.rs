use circuit_keys::elements::Scalar;
use circuit_keys::randomness::{CommitmentRandomnessSource, SeededRandomness, SystemRandomness};

fn randomness_reference_word(state: &mut u64) -> u64 {
    *state = state.wrapping_add(0x9E37_79B9_7F4A_7C15);
    let mut z = *state;
    z = (z ^ (z >> 30)).wrapping_mul(0xBF58_476D_1CE4_E5B9);
    z = (z ^ (z >> 27)).wrapping_mul(0x94D0_49BB_1331_11EB);
    z ^ (z >> 31)
}

#[test]
fn seeded_scalars_are_four_words_of_the_sequence() {
    let mut source = SeededRandomness::new(1234567);
    let mut state = 1234567u64;
    for _ in 0..3 {
        let scalar = source.next_scalar();
        let mut expected = Vec::new();
        for word in 0..4 {
            let mut value = randomness_reference_word(&mut state);
            if word == 3 {
                value >>= 4;
            }
            expected.extend_from_slice(&value.to_le_bytes());
        }
        assert_eq!(scalar.as_bytes(), &expected[..]);
        assert_eq!(source.state, state);
    }
}

#[test]
fn seeded_scalar_of_seed_zero_is_known() {
    let mut source = SeededRandomness::new(0);
    let scalar = source.next_scalar();
    // the first word of this generator from seed 0
    assert_eq!(&scalar.as_bytes()[..8], &0xE220_A839_7B1D_CDAFu64.to_le_bytes());
    assert_eq!(source.state, 0x9E37_79B9_7F4A_7C15u64.wrapping_mul(4));
    assert!(scalar.as_bytes()[31] < 0x10);
}

#[test]
fn same_seed_gives_the_same_scalars() {
    let mut first = SeededRandomness::new(99);
    let mut second = SeededRandomness::new(99);
    for _ in 0..20 {
        assert_eq!(first.next_scalar(), second.next_scalar());
    }
    let mut other = SeededRandomness::new(100);
    assert_ne!(SeededRandomness::new(99).next_scalar(), other.next_scalar());
}

#[test]
fn seeded_scalars_are_canonical() {
    let mut source = SeededRandomness::new(u64::MAX);
    for _ in 0..200 {
        let scalar = source.next_scalar();
        assert_eq!(Scalar::from_bytes(scalar.as_bytes()), Some(scalar));
    }
}

#[test]
fn system_scalars_are_canonical_and_differ() {
    let mut source = SystemRandomness::new();
    let first = source.next_scalar();
    let second = source.next_scalar();
    assert_eq!(first.as_bytes().len(), 32);
    assert_eq!(Scalar::from_bytes(first.as_bytes()), Some(first.clone()));
    assert_eq!(Scalar::from_bytes(second.as_bytes()), Some(second.clone()));
    assert_ne!(first, second);
}
