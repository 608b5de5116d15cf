//! The unitary matrix of an operation in closed form: whether it exists, how
//! large it is, and what stands at each place of it.
//!
//! An entry is given by its form and by the bit pattern of the angle it
//! depends on; no entry is evaluated to a number here. Rows and columns are
//! basis states, the first declared qubit being the most significant bit.

use crate::error::OperationError;
use crate::operation::{Operation, OperationKind, OperationView};
use crate::parameter::{pi_fraction_bits, Parameter, ParameterView};
use vstd::arithmetic::power2::{lemma2_to64, lemma_pow2_strictly_increases, lemma_pow2_unfold, pow2};
use vstd::prelude::*;

verus! {

/// The largest number of qubits whose matrix dimension fits into 64 bits.
pub const MAX_MATRIX_QUBITS: usize = 63;

impl OperationKind {
    /// Whether the variant denotes a unitary action on its qubits.
    pub open spec fn is_unitary(self) -> bool {
        match self {
            OperationKind::Hadamard
            | OperationKind::PauliX
            | OperationKind::TGate
            | OperationKind::RotateX
            | OperationKind::RotateZ
            | OperationKind::PhaseShiftState1
            | OperationKind::CNOT
            | OperationKind::SWAP
            | OperationKind::ControlledPhaseShift
            | OperationKind::MultiQubitMS
            | OperationKind::MultiQubitZZ
            | OperationKind::MultiQubitCNOT
            | OperationKind::QFT => true,
            _ => false,
        }
    }

    /// Whether the variant denotes a unitary action on its qubits.
    pub fn denotes_unitary(self) -> (r: bool)
        ensures
            r == self.is_unitary(),
    {
        match self {
            OperationKind::Hadamard
            | OperationKind::PauliX
            | OperationKind::TGate
            | OperationKind::RotateX
            | OperationKind::RotateZ
            | OperationKind::PhaseShiftState1
            | OperationKind::CNOT
            | OperationKind::SWAP
            | OperationKind::ControlledPhaseShift
            | OperationKind::MultiQubitMS
            | OperationKind::MultiQubitZZ
            | OperationKind::MultiQubitCNOT
            | OperationKind::QFT => true,
            _ => false,
        }
    }
}

impl OperationView {
    /// Whether the operation has a unitary matrix that can be written down:
    /// it denotes a unitary action, all its parameters are concrete, and
    /// the dimension is representable.
    pub open spec fn has_matrix(self) -> bool {
        &&& self.kind.is_unitary()
        &&& !self.is_parametrized()
        &&& self.qubits.len() <= MAX_MATRIX_QUBITS
    }
}

impl Operation {
    /// The number of rows and columns of the unitary matrix of the
    /// operation: two to the power of its number of qubits.
    ///
    /// Fails exactly when the operation denotes no unitary action, is still
    /// symbolic, or acts on more than [`MAX_MATRIX_QUBITS`] qubits.
    pub fn matrix_dimension(&self) -> (r: Result<u64, OperationError>)
        ensures
            match r {
                Ok(dimension) => self@.has_matrix() && dimension == pow2(self@.qubits.len()),
                Err(OperationError::MatrixEvaluation) => !self@.has_matrix(),
                Err(_) => false,
            },
    {
        if !self.kind().denotes_unitary() || self.is_parametrized() {
            return Err(OperationError::MatrixEvaluation);
        }
        let count: usize = self.qubits().len();
        if count > MAX_MATRIX_QUBITS {
            return Err(OperationError::MatrixEvaluation);
        }
        let mut dimension: u64 = 1;
        let mut i: usize = 0;
        proof {
            lemma2_to64();
        }
        while i < count
            invariant
                i <= count <= MAX_MATRIX_QUBITS,
                dimension == pow2(i as nat),
            decreases count - i,
        {
            proof {
                lemma_pow2_unfold((i + 1) as nat);
                lemma_pow2_strictly_increases((i + 1) as nat, 64);
                lemma2_to64();
            }
            dimension = dimension * 2;
            i += 1;
        }
        Ok(dimension)
    }
}

/// One entry of a unitary matrix, in closed form.
#[derive(Clone, Copy, Debug, PartialEq, Eq, Structural)]
pub enum MatrixEntry {
    /// The number zero.
    Zero,
    /// The number one.
    One,
    /// The square root of one half, or its negative.
    RootHalf { negative: bool },
    /// The phase factor of the whole angle: cos(angle) + i sin(angle).
    Phase { angle: u64 },
    /// The phase factor of half the angle, or of its negative.
    HalfPhase { angle: u64, negative: bool },
    /// The cosine of half the angle.
    CosHalf { angle: u64 },
    /// The sine of half the angle, times -i.
    MinusISinHalf { angle: u64 },
    /// The root of unity of order 2^qubits to the power `turns`, or its
    /// conjugate, divided by the square root of 2^qubits.
    Fourier { turns: u64, qubits: usize, conjugate: bool },
}

/// Whether a number has an odd number of set bits.
pub open spec fn has_odd_parity(n: nat) -> bool
    decreases n,
{
    if n == 0 {
        false
    } else {
        (n % 2 == 1) != has_odd_parity(n / 2)
    }
}

/// The lowest `width` bits of `n` in reverse order, behind the bits of `front`.
pub open spec fn reversed_behind(n: nat, width: nat, front: nat) -> nat
    decreases width,
{
    if width == 0 {
        front
    } else {
        reversed_behind(n / 2, (width - 1) as nat, front * 2 + n % 2)
    }
}

/// The lowest `width` bits of `n` in reverse order.
pub open spec fn reversed_bits(n: nat, width: nat) -> nat {
    reversed_behind(n, width, 0)
}

/// The bit pattern of a concrete parameter; zero for a symbolic one.
pub open spec fn angle_bits(parameter: ParameterView) -> u64 {
    match parameter {
        ParameterView::Number(bits) => bits,
        ParameterView::Symbolic(_) => 0,
    }
}

/// An entry of a diagonal matrix: the given one on the diagonal, zero elsewhere.
pub open spec fn on_diagonal(row: nat, column: nat, entry: MatrixEntry) -> MatrixEntry {
    if row == column {
        entry
    } else {
        MatrixEntry::Zero
    }
}

/// An entry of the matrix that sends each basis state to its image.
pub open spec fn of_permutation(row: nat, image: nat) -> MatrixEntry {
    if row == image {
        MatrixEntry::One
    } else {
        MatrixEntry::Zero
    }
}

/// The basis state that a fully controlled NOT makes of a basis state: the
/// last bit is flipped when all other bits are set.
pub open spec fn controlled_not_image(dimension: nat, column: nat) -> nat {
    if column / 2 + 1 == dimension / 2 {
        if column % 2 == 0 {
            column + 1
        } else {
            (column - 1) as nat
        }
    } else {
        column
    }
}

/// The power of the root of unity at a place of the forward Fourier matrix.
/// Without the final reversal of the qubits the rows stand in bit-reversed
/// order.
pub open spec fn fourier_turns(width: nat, swaps: bool, row: nat, column: nat) -> nat {
    let source = if swaps {
        row
    } else {
        reversed_bits(row, width)
    };
    (source * column) % pow2(width)
}

/// An entry of the Fourier matrix; the inverse is the conjugate transpose.
pub open spec fn fourier_entry(
    width: nat,
    swaps: bool,
    inverse: bool,
    row: nat,
    column: nat,
) -> MatrixEntry {
    let turns = if inverse {
        fourier_turns(width, swaps, column, row)
    } else {
        fourier_turns(width, swaps, row, column)
    };
    MatrixEntry::Fourier { turns: turns as u64, qubits: width as usize, conjugate: inverse }
}

impl OperationView {
    /// The number of rows and columns of the matrix.
    pub open spec fn dimension(self) -> nat {
        pow2(self.qubits.len())
    }

    /// The entry of the unitary matrix in the given row and column.
    pub open spec fn entry(self, row: nat, column: nat) -> MatrixEntry
        recommends
            self.has_matrix(),
            row < self.dimension(),
            column < self.dimension(),
    {
        let angle = if self.parameters.len() > 0 {
            angle_bits(self.parameters[0])
        } else {
            0
        };
        match self.kind {
            OperationKind::Hadamard => MatrixEntry::RootHalf { negative: row == 1 && column == 1 },
            OperationKind::PauliX => of_permutation(row, (1 - column) as nat),
            OperationKind::TGate => on_diagonal(
                row,
                column,
                if row == 0 {
                    MatrixEntry::One
                } else {
                    MatrixEntry::Phase { angle: pi_fraction_bits(2) }
                },
            ),
            OperationKind::RotateX => if row == column {
                MatrixEntry::CosHalf { angle }
            } else {
                MatrixEntry::MinusISinHalf { angle }
            },
            OperationKind::RotateZ => on_diagonal(
                row,
                column,
                MatrixEntry::HalfPhase { angle, negative: row == 0 },
            ),
            OperationKind::PhaseShiftState1 => on_diagonal(
                row,
                column,
                if row == 0 {
                    MatrixEntry::One
                } else {
                    MatrixEntry::Phase { angle }
                },
            ),
            OperationKind::CNOT => of_permutation(
                row,
                if column >= 2 {
                    (5 - column) as nat
                } else {
                    column
                },
            ),
            OperationKind::SWAP => of_permutation(
                row,
                if column == 1 || column == 2 {
                    (3 - column) as nat
                } else {
                    column
                },
            ),
            OperationKind::ControlledPhaseShift => on_diagonal(
                row,
                column,
                if row == 3 {
                    MatrixEntry::Phase { angle }
                } else {
                    MatrixEntry::One
                },
            ),
            OperationKind::MultiQubitZZ => on_diagonal(
                row,
                column,
                MatrixEntry::HalfPhase { angle, negative: !has_odd_parity(row) },
            ),
            OperationKind::MultiQubitMS => if row == column {
                MatrixEntry::CosHalf { angle }
            } else if row + column + 1 == self.dimension() {
                MatrixEntry::MinusISinHalf { angle }
            } else {
                MatrixEntry::Zero
            },
            OperationKind::MultiQubitCNOT => of_permutation(
                row,
                controlled_not_image(self.dimension(), column),
            ),
            OperationKind::QFT => fourier_entry(
                self.qubits.len(),
                self.flags[0],
                self.flags[1],
                row,
                column,
            ),
            _ => MatrixEntry::Zero,
        }
    }
}

/// Whether a number has an odd number of set bits.
pub fn odd_parity(n: u64) -> (r: bool)
    ensures
        r == has_odd_parity(n as nat),
{
    let mut rest: u64 = n;
    let mut odd: bool = false;
    while rest > 0
        invariant
            has_odd_parity(n as nat) == (odd != has_odd_parity(rest as nat)),
        decreases rest,
    {
        if rest % 2 == 1 {
            odd = !odd;
        }
        rest = rest / 2;
    }
    odd
}

/// The lowest `width` bits of `n` in reverse order.
pub fn reverse_bits(n: u64, width: usize) -> (r: u64)
    requires
        width <= MAX_MATRIX_QUBITS,
    ensures
        r == reversed_bits(n as nat, width as nat),
        r < pow2(width as nat),
{
    let mut rest: u64 = n;
    let mut front: u64 = 0;
    let mut done: usize = 0;
    proof {
        lemma2_to64();
    }
    while done < width
        invariant
            done <= width <= MAX_MATRIX_QUBITS,
            front < pow2(done as nat),
            reversed_behind(rest as nat, (width - done) as nat, front as nat) == reversed_bits(
                n as nat,
                width as nat,
            ),
        decreases width - done,
    {
        proof {
            lemma_pow2_unfold((done + 1) as nat);
            lemma_pow2_strictly_increases((done + 1) as nat, 64);
            lemma2_to64();
        }
        front = front * 2 + rest % 2;
        rest = rest / 2;
        done += 1;
    }
    front
}

impl Operation {
    /// The entry of the unitary matrix of the operation in the given row and
    /// column, in closed form.
    ///
    /// Fails exactly when the operation has no matrix, or the matrix has no
    /// such row or column.
    pub fn matrix_entry(&self, row: u64, column: u64) -> (r: Result<MatrixEntry, OperationError>)
        ensures
            match r {
                Ok(entry) => self@.has_matrix() && row < self@.dimension() && column
                    < self@.dimension() && entry == self@.entry(row as nat, column as nat),
                Err(OperationError::MatrixEvaluation) => !(self@.has_matrix() && row
                    < self@.dimension() && column < self@.dimension()),
                Err(_) => false,
            },
    {
        let dimension: u64 = match self.matrix_dimension() {
            Ok(dimension) => dimension,
            Err(error) => {
                return Err(error);
            },
        };
        if row >= dimension || column >= dimension {
            return Err(OperationError::MatrixEvaluation);
        }
        proof {
            lemma2_to64();
        }
        let parameters = self.parameters();
        let angle: u64 = if parameters.len() > 0 {
            match &parameters[0] {
                Parameter::Number(bits) => *bits,
                Parameter::Symbolic(_) => 0,
            }
        } else {
            0
        };
        assert(self@.parameters.len() > 0 ==> self@.parameters[0] == parameters@[0]@);
        let eighth: u64 = match Parameter::pi_fraction(2) {
            Parameter::Number(bits) => bits,
            Parameter::Symbolic(_) => 0,
        };
        let entry = match self {
            Operation::Hadamard { .. } => MatrixEntry::RootHalf {
                negative: row == 1 && column == 1,
            },
            Operation::PauliX { .. } => permutation_entry(row, 1 - column),
            Operation::TGate { .. } => diagonal_entry(
                row,
                column,
                if row == 0 {
                    MatrixEntry::One
                } else {
                    MatrixEntry::Phase { angle: eighth }
                },
            ),
            Operation::RotateX { .. } => {
                if row == column {
                    MatrixEntry::CosHalf { angle }
                } else {
                    MatrixEntry::MinusISinHalf { angle }
                }
            },
            Operation::RotateZ { .. } => diagonal_entry(
                row,
                column,
                MatrixEntry::HalfPhase { angle, negative: row == 0 },
            ),
            Operation::PhaseShiftState1 { .. } => diagonal_entry(
                row,
                column,
                if row == 0 {
                    MatrixEntry::One
                } else {
                    MatrixEntry::Phase { angle }
                },
            ),
            Operation::CNOT { .. } => permutation_entry(
                row,
                if column >= 2 {
                    5 - column
                } else {
                    column
                },
            ),
            Operation::SWAP { .. } => permutation_entry(
                row,
                if column == 1 || column == 2 {
                    3 - column
                } else {
                    column
                },
            ),
            Operation::ControlledPhaseShift { .. } => diagonal_entry(
                row,
                column,
                if row == 3 {
                    MatrixEntry::Phase { angle }
                } else {
                    MatrixEntry::One
                },
            ),
            Operation::MultiQubitZZ { .. } => diagonal_entry(
                row,
                column,
                MatrixEntry::HalfPhase { angle, negative: !odd_parity(row) },
            ),
            Operation::MultiQubitMS { .. } => {
                if row == column {
                    MatrixEntry::CosHalf { angle }
                } else if row == dimension - 1 - column {
                    MatrixEntry::MinusISinHalf { angle }
                } else {
                    MatrixEntry::Zero
                }
            },
            Operation::MultiQubitCNOT { .. } => {
                let image: u64 = if column / 2 + 1 == dimension / 2 {
                    if column % 2 == 0 {
                        column + 1
                    } else {
                        column - 1
                    }
                } else {
                    column
                };
                permutation_entry(row, image)
            },
            Operation::QFT { qubits, swaps, inverse } => {
                let width: usize = qubits.len();
                let (from, to) = if *inverse {
                    (column, row)
                } else {
                    (row, column)
                };
                let source: u64 = if *swaps {
                    from
                } else {
                    reverse_bits(from, width)
                };
                MatrixEntry::Fourier {
                    turns: turns_of(source, to, dimension),
                    qubits: width,
                    conjugate: *inverse,
                }
            },
            _ => MatrixEntry::Zero,
        };
        Ok(entry)
    }
}

/// An entry of a diagonal matrix.
fn diagonal_entry(row: u64, column: u64, entry: MatrixEntry) -> (r: MatrixEntry)
    ensures
        r == on_diagonal(row as nat, column as nat, entry),
{
    if row == column {
        entry
    } else {
        MatrixEntry::Zero
    }
}

/// An entry of the matrix of a permutation of the basis states.
fn permutation_entry(row: u64, image: u64) -> (r: MatrixEntry)
    ensures
        r == of_permutation(row as nat, image as nat),
{
    if row == image {
        MatrixEntry::One
    } else {
        MatrixEntry::Zero
    }
}

/// The product of two numbers, reduced by the dimension.
fn turns_of(source: u64, column: u64, dimension: u64) -> (r: u64)
    requires
        dimension > 0,
    ensures
        r == (source as nat * column as nat) % (dimension as nat),
{
    assert(source as nat * column as nat <= 0xFFFF_FFFF_FFFF_FFFF * 0xFFFF_FFFF_FFFF_FFFF)
        by (nonlinear_arith)
        requires
            source as nat <= 0xFFFF_FFFF_FFFF_FFFF,
            column as nat <= 0xFFFF_FFFF_FFFF_FFFF,
    ;
    let product: u128 = (source as u128) * (column as u128);
    (product % (dimension as u128)) as u64
}

/// The matrix of a fully controlled NOT is the identity, but for the state in
/// which all qubits are set and the state in which all but the target are
/// set: these two are exchanged.
pub proof fn lemma_controlled_not_exchanges_last_states(qubits: nat, column: nat)
    requires
        qubits >= 1,
        column < pow2(qubits),
    ensures
        controlled_not_image(pow2(qubits), column) == if column + 1 == pow2(qubits) {
            (column - 1) as nat
        } else if column + 2 == pow2(qubits) {
            column + 1
        } else {
            column
        },
{
    lemma_pow2_unfold(qubits);
}

} // verus!
