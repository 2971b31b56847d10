//! The constraint system that is indexed: three sparse matrices over the
//! scalar field, and the sizes that follow from them.

use crate::curve::scalar_valid;
use crate::elements::Scalar;
use crate::encoding::{le_bytes, le_value, read_uint_le, write_uint_le};
use crate::encoding::{lemma_le_bytes_len, lemma_le_bytes_of_value, lemma_le_value_bound};
use crate::encoding::{lemma_le_value_of_bytes, lemma_radix_values};
use crate::wire::{all_valid, views, Fault, WireElement};
use vstd::prelude::*;
use vstd::slice::slice_subrange;

verus! {

/// Bytes of a row or column index on the wire.
pub const INDEX_WIDTH: usize = 8;

/// Bytes of a matrix entry on the wire: row, column, value.
pub const ENTRY_WIDTH: usize = 48;

/// One non-zero entry of a matrix: `value` stands in row `row` (a
/// constraint) and column `column` (a variable), both counted from zero.
#[derive(Debug, PartialEq, Eq)]
pub struct MatrixEntry {
    pub row: u64,
    pub column: u64,
    pub value: Scalar,
}

/// A matrix entry as contracts speak of it.
pub struct EntryView {
    pub row: u64,
    pub column: u64,
    pub value: Seq<u8>,
}

/// The matrices A, B and C of a rank-1 constraint system, each as the list
/// of its non-zero entries, with the declared numbers of constraints and
/// variables.
#[derive(Debug, PartialEq, Eq)]
pub struct CircuitMatrices {
    pub num_constraints: u64,
    pub num_variables: u64,
    pub a: Vec<MatrixEntry>,
    pub b: Vec<MatrixEntry>,
    pub c: Vec<MatrixEntry>,
}

/// A constraint system as contracts speak of it.
pub struct CircuitView {
    pub num_constraints: u64,
    pub num_variables: u64,
    pub a: Seq<EntryView>,
    pub b: Seq<EntryView>,
    pub c: Seq<EntryView>,
}

impl View for MatrixEntry {
    type V = EntryView;

    open spec fn view(&self) -> EntryView {
        EntryView { row: self.row, column: self.column, value: self.value@ }
    }
}

impl View for CircuitMatrices {
    type V = CircuitView;

    open spec fn view(&self) -> CircuitView {
        CircuitView {
            num_constraints: self.num_constraints,
            num_variables: self.num_variables,
            a: views(self.a@),
            b: views(self.b@),
            c: views(self.c@),
        }
    }
}

/// The bytes of an entry: row and column as eight little-endian bytes each,
/// then the value.
pub open spec fn encode_entry(entry: EntryView) -> Seq<u8> {
    le_bytes(entry.row as nat, INDEX_WIDTH as nat) + le_bytes(
        entry.column as nat,
        INDEX_WIDTH as nat,
    ) + entry.value
}

/// What 48 bytes are read as: an entry, where the value is a canonical scalar.
pub open spec fn decode_entry(bytes: Seq<u8>) -> Result<EntryView, Fault> {
    if bytes.len() == ENTRY_WIDTH && scalar_valid(bytes.subrange(16, ENTRY_WIDTH as int)) {
        Ok(
            EntryView {
                row: le_value(bytes.subrange(0, 8)) as u64,
                column: le_value(bytes.subrange(8, 16)) as u64,
                value: bytes.subrange(16, ENTRY_WIDTH as int),
            },
        )
    } else {
        Err(Fault::InvalidEncoding)
    }
}

impl Clone for MatrixEntry {
    fn clone(&self) -> (copy: Self)
        ensures
            copy@ == self@,
    {
        MatrixEntry { row: self.row, column: self.column, value: self.value.clone() }
    }
}

impl WireElement for MatrixEntry {
    open spec fn width() -> nat {
        ENTRY_WIDTH as nat
    }

    open spec fn valid(value: EntryView) -> bool {
        scalar_valid(value.value)
    }

    open spec fn encode(value: EntryView) -> Seq<u8> {
        encode_entry(value)
    }

    open spec fn decode(bytes: Seq<u8>) -> Result<EntryView, Fault> {
        decode_entry(bytes)
    }

    proof fn lemma_width() {
    }

    proof fn lemma_decode_encoded(value: EntryView) {
        let row = le_bytes(value.row as nat, INDEX_WIDTH as nat);
        let column = le_bytes(value.column as nat, INDEX_WIDTH as nat);
        let bytes = encode_entry(value);
        lemma_radix_values();
        lemma_le_bytes_len(value.row as nat, INDEX_WIDTH as nat);
        lemma_le_bytes_len(value.column as nat, INDEX_WIDTH as nat);
        lemma_le_value_of_bytes(value.row as nat, INDEX_WIDTH as nat);
        lemma_le_value_of_bytes(value.column as nat, INDEX_WIDTH as nat);
        assert(bytes.subrange(0, 8) =~= row);
        assert(bytes.subrange(8, 16) =~= column);
        assert(bytes.subrange(16, ENTRY_WIDTH as int) =~= value.value);
    }

    proof fn lemma_encode_decoded(bytes: Seq<u8>) {
        let row = bytes.subrange(0, 8);
        let column = bytes.subrange(8, 16);
        lemma_radix_values();
        lemma_le_value_bound(row);
        lemma_le_value_bound(column);
        lemma_le_bytes_of_value(row);
        lemma_le_bytes_of_value(column);
        assert(row + column + bytes.subrange(16, ENTRY_WIDTH as int) =~= bytes);
    }

    fn byte_width() -> (width: usize) {
        ENTRY_WIDTH
    }

    fn read(bytes: &[u8]) -> (element: Result<Self, Fault>) {
        let row: u64 = read_uint_le(bytes, 0, INDEX_WIDTH);
        let column: u64 = read_uint_le(bytes, INDEX_WIDTH, INDEX_WIDTH);
        match Scalar::from_bytes(slice_subrange(bytes, 2 * INDEX_WIDTH, ENTRY_WIDTH)) {
            Some(value) => Ok(MatrixEntry { row, column, value }),
            None => Err(Fault::InvalidEncoding),
        }
    }

    fn write(&self, out: &mut Vec<u8>) {
        let ghost before = out@;
        write_uint_le(self.row, INDEX_WIDTH, out);
        write_uint_le(self.column, INDEX_WIDTH, out);
        self.value.write(out);
        assert(out@ =~= before + encode_entry(self@));
    }
}

/// Every entry stands in a declared row and a declared column.
pub open spec fn entries_in_range(entries: Seq<EntryView>, rows: u64, columns: u64) -> bool {
    forall|i: int|
        0 <= i < entries.len() ==> (#[trigger] entries[i]).row < rows && entries[i].column
            < columns
}

/// A constraint system that may be indexed and may stand in a key: every
/// value is a canonical scalar, every entry stands inside the declared
/// sizes, and no matrix has more entries than a count of 64 bits can tell.
pub open spec fn circuit_valid(circuit: CircuitView) -> bool {
    &&& all_valid::<MatrixEntry>(circuit.a)
    &&& all_valid::<MatrixEntry>(circuit.b)
    &&& all_valid::<MatrixEntry>(circuit.c)
    &&& entries_in_range(circuit.a, circuit.num_constraints, circuit.num_variables)
    &&& entries_in_range(circuit.b, circuit.num_constraints, circuit.num_variables)
    &&& entries_in_range(circuit.c, circuit.num_constraints, circuit.num_variables)
    &&& circuit.a.len() <= u64::MAX
    &&& circuit.b.len() <= u64::MAX
    &&& circuit.c.len() <= u64::MAX
}

/// The first of `from`, `2 * from`, `4 * from`, ... that is at least `count`.
pub open spec fn doubled_up_to(count: nat, from: nat) -> nat
    decreases (if count > from { count - from } else { 0 }),
{
    if from == 0 || from >= count {
        from
    } else {
        doubled_up_to(count, 2 * from)
    }
}

/// The size of the evaluation domain for `count` constraints: the smallest
/// power of two that is at least `count`.
pub open spec fn domain_size(count: nat) -> nat {
    doubled_up_to(count, 1)
}

/// `value` is 1, 2, 4, 8, ...
pub open spec fn is_power_of_two(value: nat) -> bool
    decreases value,
{
    value == 1 || (value > 1 && value % 2 == 0 && is_power_of_two(value / 2))
}

/// The largest number of non-zero entries of one of the three matrices.
pub open spec fn max_non_zero(circuit: CircuitView) -> nat {
    let ab = if circuit.a.len() >= circuit.b.len() {
        circuit.a.len()
    } else {
        circuit.b.len()
    };
    if ab >= circuit.c.len() {
        ab
    } else {
        circuit.c.len()
    }
}

/// The degree that a committer key must support for this circuit: one less
/// than the longer of the evaluation domain and the longest list of entries.
pub open spec fn required_degree(circuit: CircuitView) -> nat {
    let domain = domain_size(circuit.num_constraints as nat);
    if domain >= max_non_zero(circuit) {
        (domain - 1) as nat
    } else {
        (max_non_zero(circuit) - 1) as nat
    }
}

proof fn lemma_doubled_up_to(count: nat, from: nat)
    requires
        is_power_of_two(from),
        from == 1 || from / 2 < count,
    ensures
        is_power_of_two(doubled_up_to(count, from)),
        doubled_up_to(count, from) >= count,
        doubled_up_to(count, from) >= from,
        doubled_up_to(count, from) == 1 || doubled_up_to(count, from) / 2 < count,
    decreases (if count > from { count - from } else { 0 }),
{
    if from < count {
        assert(is_power_of_two(2 * from)) by {
            assert((2 * from) / 2 == from);
        }
        lemma_doubled_up_to(count, 2 * from);
    }
}

/// The domain size is the smallest power of two that is at least the count.
pub proof fn lemma_domain_size(count: nat)
    ensures
        is_power_of_two(domain_size(count)),
        domain_size(count) >= count,
        domain_size(count) == 1 || domain_size(count) / 2 < count,
{
    lemma_doubled_up_to(count, 1);
}

proof fn lemma_doubled_at_least(count: nat, from: nat)
    ensures
        doubled_up_to(count, from) >= from,
    decreases (if count > from { count - from } else { 0 }),
{
    if from != 0 && from < count {
        lemma_doubled_at_least(count, 2 * from);
    }
}

/// The size of the evaluation domain for `count` constraints, or nothing
/// where it does not fit in 64 bits.
pub fn constraint_domain_size(count: u64) -> (size: Option<u64>)
    ensures
        match size {
            Some(domain) => domain == domain_size(count as nat),
            None => domain_size(count as nat) > u64::MAX,
        },
{
    let mut domain: u64 = 1;
    while domain < count
        invariant
            domain >= 1,
            doubled_up_to(count as nat, domain as nat) == domain_size(count as nat),
        decreases (if count > domain { count - domain } else { 0 }),
    {
        if domain > u64::MAX / 2 {
            proof {
                lemma_doubled_at_least(count as nat, 2 * (domain as nat));
            }
            return None;
        }
        domain = domain * 2;
    }
    Some(domain)
}

impl CircuitMatrices {
    /// The largest number of non-zero entries of one of the three matrices.
    pub fn max_non_zero(&self) -> (count: usize)
        ensures
            count == max_non_zero(self@),
    {
        let mut count: usize = self.a.len();
        if self.b.len() > count {
            count = self.b.len();
        }
        if self.c.len() > count {
            count = self.c.len();
        }
        count
    }

    /// The degree that a committer key must support for this circuit, or
    /// nothing where the evaluation domain does not fit in 64 bits.
    pub fn required_degree(&self) -> (degree: Option<u64>)
        ensures
            match degree {
                Some(bound) => bound == required_degree(self@),
                None => domain_size(self.num_constraints as nat) > u64::MAX,
            },
    {
        match constraint_domain_size(self.num_constraints) {
            None => None,
            Some(domain) => {
                proof {
                    lemma_domain_size(self.num_constraints as nat);
                }
                let entries: u64 = self.max_non_zero() as u64;
                if domain >= entries {
                    Some(domain - 1)
                } else {
                    Some(entries - 1)
                }
            },
        }
    }

    /// Whether every entry stands inside the declared sizes.
    pub fn is_consistent(&self) -> (consistent: bool)
        ensures
            consistent == circuit_valid(self@),
    {
        let a = entries_fit(&self.a, self.num_constraints, self.num_variables);
        let b = entries_fit(&self.b, self.num_constraints, self.num_variables);
        let c = entries_fit(&self.c, self.num_constraints, self.num_variables);
        a && b && c
    }
}

/// Whether every entry stands in a row below `rows` and a column below `columns`.
pub fn entries_fit(entries: &Vec<MatrixEntry>, rows: u64, columns: u64) -> (fit: bool)
    ensures
        fit == entries_in_range(views(entries@), rows, columns),
        all_valid::<MatrixEntry>(views(entries@)),
        views(entries@).len() <= u64::MAX,
{
    let total: usize = entries.len();
    let ghost seen = views(entries@);
    let mut fit: bool = true;
    let mut i: usize = 0;
    while i < total
        invariant
            i <= total == entries@.len(),
            seen == views(entries@),
            fit == entries_in_range(seen.subrange(0, i as int), rows, columns),
            all_valid::<MatrixEntry>(seen.subrange(0, i as int)),
        decreases total - i,
    {
        let entry = &entries[i];
        let _ = entry.value.as_bytes();
        let ghost before = seen.subrange(0, i as int);
        let ghost now = seen.subrange(0, i + 1);
        proof {
            assert(now[i as int] == entry@);
            assert forall|k: int| 0 <= k < i implies now[k] == before[k] by {}
            assert(all_valid::<MatrixEntry>(now)) by {
                assert forall|k: int| 0 <= k < now.len() implies MatrixEntry::valid(
                    #[trigger] now[k],
                ) by {
                    if k < i {
                        assert(now[k] == before[k]);
                    }
                }
            }
        }
        if entry.row >= rows || entry.column >= columns {
            fit = false;
        }
        proof {
            if entries_in_range(now, rows, columns) {
                assert forall|k: int| 0 <= k < before.len() implies (#[trigger] before[k]).row
                    < rows && before[k].column < columns by {
                    assert(before[k] == now[k]);
                }
            }
            if fit {
                assert forall|k: int| 0 <= k < now.len() implies (#[trigger] now[k]).row < rows
                    && now[k].column < columns by {
                    if k < i {
                        assert(now[k] == before[k]);
                    }
                }
            }
        }
        i += 1;
    }
    assert(seen.subrange(0, total as int) =~= seen);
    fit
}

} // verus!
