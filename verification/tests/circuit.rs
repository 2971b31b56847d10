use circuit_keys::circuit::{constraint_domain_size, entries_fit, CircuitMatrices, MatrixEntry};
use circuit_keys::elements::Scalar;
use circuit_keys::wire::{read_counted, read_items, write_counted, write_items};
use circuit_keys::wire::{Fault, WireElement};

fn circuit_entry(row: u64, column: u64, value: u64) -> MatrixEntry {
    MatrixEntry { row, column, value: Scalar::from_u64(value) }
}

#[test]
fn domain_size_is_the_next_power_of_two() {
    assert_eq!(constraint_domain_size(0), Some(1));
    assert_eq!(constraint_domain_size(1), Some(1));
    assert_eq!(constraint_domain_size(2), Some(2));
    assert_eq!(constraint_domain_size(3), Some(4));
    assert_eq!(constraint_domain_size(4), Some(4));
    assert_eq!(constraint_domain_size(5), Some(8));
    assert_eq!(constraint_domain_size(1000), Some(1024));
    assert_eq!(constraint_domain_size(1 << 63), Some(1 << 63));
    assert_eq!(constraint_domain_size((1 << 63) + 1), None);
    assert_eq!(constraint_domain_size(u64::MAX), None);
}

#[test]
fn required_degree_is_one_less_than_the_longer_of_domain_and_entries() {
    let mut circuit = CircuitMatrices {
        num_constraints: 3,
        num_variables: 9,
        a: vec![circuit_entry(0, 0, 1)],
        b: vec![],
        c: vec![],
    };
    assert_eq!(circuit.max_non_zero(), 1);
    assert_eq!(circuit.required_degree(), Some(3));
    circuit.b = (0..6).map(|i| circuit_entry(i % 3, i, 2)).collect();
    assert_eq!(circuit.max_non_zero(), 6);
    assert_eq!(circuit.required_degree(), Some(5));
    circuit.c = (0..4).map(|i| circuit_entry(0, i, 2)).collect();
    assert_eq!(circuit.max_non_zero(), 6);
    circuit.num_constraints = 0;
    circuit.b = vec![];
    circuit.c = vec![];
    circuit.a = vec![];
    assert_eq!(circuit.required_degree(), Some(0));
    circuit.num_constraints = u64::MAX;
    assert_eq!(circuit.required_degree(), None);
}

#[test]
fn consistency_is_every_entry_inside_the_sizes() {
    let mut circuit = CircuitMatrices {
        num_constraints: 2,
        num_variables: 3,
        a: vec![circuit_entry(0, 0, 1), circuit_entry(1, 2, 1)],
        b: vec![circuit_entry(1, 1, 1)],
        c: vec![],
    };
    assert!(circuit.is_consistent());
    circuit.c.push(circuit_entry(2, 0, 1));
    assert!(!circuit.is_consistent());
    circuit.c[0] = circuit_entry(1, 3, 1);
    assert!(!circuit.is_consistent());
    circuit.c[0] = circuit_entry(1, 2, 1);
    assert!(circuit.is_consistent());
    assert!(entries_fit(&circuit.a, 2, 3));
    assert!(!entries_fit(&circuit.a, 1, 3));
    assert!(!entries_fit(&circuit.a, 2, 2));
    assert!(entries_fit(&Vec::new(), 0, 0));
}

#[test]
fn entry_is_written_as_row_column_value() {
    let entry = circuit_entry(0x0102, 3, 0x0405);
    let mut bytes = Vec::new();
    entry.write(&mut bytes);
    let mut expected = vec![2, 1, 0, 0, 0, 0, 0, 0, 3, 0, 0, 0, 0, 0, 0, 0, 5, 4];
    expected.resize(48, 0);
    assert_eq!(bytes, expected);
    assert_eq!(MatrixEntry::byte_width(), 48);
    assert_eq!(MatrixEntry::read(&bytes), Ok(entry.clone()));
    assert_eq!(entry.clone(), entry);
    bytes[47] = 0xff;
    assert_eq!(MatrixEntry::read(&bytes), Err(Fault::InvalidEncoding));
}

#[test]
fn scalars_are_written_one_after_the_other() {
    let scalars = vec![Scalar::from_u64(1), Scalar::from_u64(2)];
    let mut bytes = vec![7];
    write_items(&scalars, &mut bytes);
    assert_eq!(bytes.len(), 65);
    assert_eq!(bytes[0], 7);
    assert_eq!(bytes[1], 1);
    assert_eq!(bytes[33], 2);
    assert_eq!(read_items::<Scalar>(&bytes, 1, 2), Ok((scalars.clone(), 65)));
    assert_eq!(read_items::<Scalar>(&bytes, 1, 1), Ok((scalars[..1].to_vec(), 33)));
    assert_eq!(read_items::<Scalar>(&bytes, 1, 0), Ok((vec![], 1)));
    assert_eq!(read_items::<Scalar>(&bytes, 1, 3), Err(Fault::Truncated));
    assert_eq!(read_items::<Scalar>(&bytes, 2, 2), Err(Fault::Truncated));
    assert_eq!(read_items::<Scalar>(&bytes, 65, u64::MAX), Err(Fault::Truncated));
}

#[test]
fn the_first_fault_is_reported() {
    let mut bytes = Vec::new();
    write_items(&vec![Scalar::from_u64(1), Scalar::from_u64(2)], &mut bytes);
    bytes[63] = 0xff;
    // the second scalar is invalid, and a third is missing
    assert_eq!(read_items::<Scalar>(&bytes, 0, 3), Err(Fault::InvalidEncoding));
    assert_eq!(read_items::<Scalar>(&bytes, 0, 1), Ok((vec![Scalar::from_u64(1)], 32)));
}

#[test]
fn counted_sequence_has_its_length_in_front() {
    let scalars = vec![Scalar::from_u64(1), Scalar::from_u64(2), Scalar::from_u64(3)];
    let mut bytes = Vec::new();
    write_counted(&scalars, &mut bytes);
    assert_eq!(&bytes[..8], &[3, 0, 0, 0, 0, 0, 0, 0]);
    assert_eq!(bytes.len(), 8 + 3 * 32);
    assert_eq!(read_counted::<Scalar>(&bytes, 0), Ok((scalars.clone(), 104)));
    assert_eq!(read_counted::<Scalar>(&bytes[..7], 0), Err(Fault::Truncated));
    assert_eq!(read_counted::<Scalar>(&bytes[..103], 0), Err(Fault::Truncated));
    let mut empty = Vec::new();
    write_counted(&Vec::<Scalar>::new(), &mut empty);
    assert_eq!(empty, vec![0; 8]);
    assert_eq!(read_counted::<Scalar>(&empty, 0), Ok((vec![], 8)));
}
