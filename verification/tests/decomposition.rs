use qoqo_operations::decomposition::{
    decompose_ms, decompose_multi_cnot, decompose_qft, decompose_zz,
};
use qoqo_calculator::Calculator;
use qoqo_operations::matrix::{odd_parity, reverse_bits, MatrixEntry};
use qoqo_operations::{Circuit, Operation, OperationError, Parameter};
use std::f64::consts::{FRAC_PI_2, FRAC_PI_4, PI};

fn number(value: f64) -> Parameter {
    Parameter::Number(value.to_bits())
}

fn symbol(expression: &str) -> Parameter {
    Parameter::Symbolic(expression.to_string())
}

fn value_of(parameter: &Parameter) -> f64 {
    match parameter {
        Parameter::Number(bits) => f64::from_bits(*bits),
        Parameter::Symbolic(expression) => panic!("symbolic parameter {expression}"),
    }
}

type Amplitude = (f64, f64);

fn times(a: Amplitude, b: Amplitude) -> Amplitude {
    (a.0 * b.0 - a.1 * b.1, a.0 * b.1 + a.1 * b.0)
}

fn plus(a: Amplitude, b: Amplitude) -> Amplitude {
    (a.0 + b.0, a.1 + b.1)
}

fn phase(angle: f64) -> Amplitude {
    (angle.cos(), angle.sin())
}

fn bit(index: usize, qubit: usize, width: usize) -> usize {
    (index >> (width - 1 - qubit)) & 1
}

fn flip(index: usize, qubit: usize, width: usize) -> usize {
    index ^ (1 << (width - 1 - qubit))
}

fn apply_single(
    state: &[Amplitude],
    qubit: usize,
    width: usize,
    matrix: [[Amplitude; 2]; 2],
) -> Vec<Amplitude> {
    let mut next = vec![(0.0, 0.0); state.len()];
    for (index, amplitude) in state.iter().enumerate() {
        let column = bit(index, qubit, width);
        for row in 0..2 {
            let target = if row == column { index } else { flip(index, qubit, width) };
            next[target] = plus(next[target], times(matrix[row][column], *amplitude));
        }
    }
    next
}

fn apply(state: &[Amplitude], operation: &Operation, width: usize) -> Vec<Amplitude> {
    let one = (1.0, 0.0);
    let zero = (0.0, 0.0);
    let root = (std::f64::consts::FRAC_1_SQRT_2, 0.0);
    match operation {
        Operation::Hadamard { qubit } => {
            apply_single(state, *qubit, width, [[root, root], [root, (-root.0, 0.0)]])
        }
        Operation::PauliX { qubit } => apply_single(state, *qubit, width, [[zero, one], [one, zero]]),
        Operation::TGate { qubit } => {
            apply_single(state, *qubit, width, [[one, zero], [zero, phase(FRAC_PI_4)]])
        }
        Operation::PhaseShiftState1 { qubit, theta } => {
            apply_single(state, *qubit, width, [[one, zero], [zero, phase(value_of(theta))]])
        }
        Operation::RotateZ { qubit, theta } => {
            let half = value_of(theta) / 2.0;
            apply_single(state, *qubit, width, [[phase(-half), zero], [zero, phase(half)]])
        }
        Operation::CNOT { control, target } => {
            let mut next = vec![zero; state.len()];
            for (index, amplitude) in state.iter().enumerate() {
                let image =
                    if bit(index, *control, width) == 1 { flip(index, *target, width) } else { index };
                next[image] = *amplitude;
            }
            next
        }
        Operation::SWAP { control, target } => {
            let mut next = vec![zero; state.len()];
            for (index, amplitude) in state.iter().enumerate() {
                let image = if bit(index, *control, width) != bit(index, *target, width) {
                    flip(flip(index, *control, width), *target, width)
                } else {
                    index
                };
                next[image] = *amplitude;
            }
            next
        }
        Operation::ControlledPhaseShift { control, target, theta } => {
            let factor = phase(value_of(theta));
            state
                .iter()
                .enumerate()
                .map(|(index, amplitude)| {
                    if bit(index, *control, width) == 1 && bit(index, *target, width) == 1 {
                        times(factor, *amplitude)
                    } else {
                        *amplitude
                    }
                })
                .collect()
        }
        other => panic!("not an elementary gate: {other:?}"),
    }
}

/// The matrix of a circuit on `width` qubits, qubit 0 being the most
/// significant bit of a basis state; `matrix[row][column]`.
fn matrix_of(circuit: &Circuit, width: usize) -> Vec<Vec<Amplitude>> {
    let dimension = 1usize << width;
    let mut matrix = vec![vec![(0.0, 0.0); dimension]; dimension];
    for column in 0..dimension {
        let mut state = vec![(0.0, 0.0); dimension];
        state[column] = (1.0, 0.0);
        for index in 0..circuit.len() {
            state = apply(&state, circuit.get(index).unwrap(), width);
        }
        for row in 0..dimension {
            matrix[row][column] = state[row];
        }
    }
    matrix
}

fn assert_close(left: &[Vec<Amplitude>], right: &[Vec<Amplitude>]) {
    assert_eq!(left.len(), right.len());
    for row in 0..left.len() {
        for column in 0..left.len() {
            let (a, b) = (left[row][column], right[row][column]);
            assert!(
                (a.0 - b.0).abs() < 1e-9 && (a.1 - b.1).abs() < 1e-9,
                "entry ({row}, {column}): {a:?} and {b:?}"
            );
        }
    }
}

fn controlled_not_matrix(width: usize) -> Vec<Vec<Amplitude>> {
    let dimension = 1usize << width;
    let mut matrix = vec![vec![(0.0, 0.0); dimension]; dimension];
    for column in 0..dimension {
        let row = if column >> 1 == (dimension >> 1) - 1 { column ^ 1 } else { column };
        matrix[row][column] = (1.0, 0.0);
    }
    matrix
}

fn fourier_matrix(width: usize, sign: f64) -> Vec<Vec<Amplitude>> {
    let dimension = 1usize << width;
    let scale = 1.0 / (dimension as f64).sqrt();
    (0..dimension)
        .map(|row| {
            (0..dimension)
                .map(|column| {
                    let angle = sign * 2.0 * PI * ((row * column) % dimension) as f64
                        / dimension as f64;
                    (scale * angle.cos(), scale * angle.sin())
                })
                .collect()
        })
        .collect()
}

fn circuit_of(operations: Vec<Operation>) -> Circuit {
    let mut circuit = Circuit::new();
    for operation in operations {
        circuit.push(operation);
    }
    circuit
}

#[test]
fn test_pyo3_circuit_ms() {
    let input_operation = Operation::MultiQubitMS { qubits: vec![0, 1, 2], theta: number(1.0) };
    let result_circuit = input_operation.circuit().unwrap();

    let mut circuit = Circuit::new();
    circuit.push(Operation::Hadamard { qubit: 0 });
    circuit.push(Operation::Hadamard { qubit: 1 });
    circuit.push(Operation::Hadamard { qubit: 2 });
    circuit.push(Operation::CNOT { control: 0, target: 1 });
    circuit.push(Operation::CNOT { control: 1, target: 2 });
    circuit.push(Operation::RotateZ { qubit: 2, theta: number(1.0) });
    circuit.push(Operation::CNOT { control: 1, target: 2 });
    circuit.push(Operation::CNOT { control: 0, target: 1 });
    circuit.push(Operation::Hadamard { qubit: 0 });
    circuit.push(Operation::Hadamard { qubit: 1 });
    circuit.push(Operation::Hadamard { qubit: 2 });

    assert_eq!(result_circuit, circuit);
}

#[test]
fn test_pyo3_circuit_zz() {
    let input_operation = Operation::MultiQubitZZ { qubits: vec![0, 1, 2], theta: number(1.0) };
    let result_circuit = input_operation.circuit().unwrap();

    let mut circuit = Circuit::new();
    circuit.push(Operation::CNOT { control: 0, target: 1 });
    circuit.push(Operation::CNOT { control: 1, target: 2 });
    circuit.push(Operation::RotateZ { qubit: 2, theta: number(1.0) });
    circuit.push(Operation::CNOT { control: 1, target: 2 });
    circuit.push(Operation::CNOT { control: 0, target: 1 });

    assert_eq!(result_circuit, circuit);
}

#[test]
fn test_pyo3_circuit_multi_cnot() {
    let input_operation = Operation::MultiQubitCNOT { qubits: vec![0, 1, 2] };
    let result_circuit = input_operation.circuit().unwrap();

    let mut circuit = Circuit::new();
    circuit.push(Operation::Hadamard { qubit: 2 });
    circuit.push(Operation::CNOT { control: 1, target: 2 });
    circuit.push(Operation::PhaseShiftState1 { qubit: 2, theta: number(-FRAC_PI_4) });
    circuit.push(Operation::CNOT { control: 0, target: 2 });
    circuit.push(Operation::TGate { qubit: 2 });
    circuit.push(Operation::CNOT { control: 1, target: 2 });
    circuit.push(Operation::PhaseShiftState1 { qubit: 2, theta: number(-FRAC_PI_4) });
    circuit.push(Operation::CNOT { control: 0, target: 2 });
    circuit.push(Operation::TGate { qubit: 1 });
    circuit.push(Operation::TGate { qubit: 2 });
    circuit.push(Operation::Hadamard { qubit: 2 });
    circuit.push(Operation::CNOT { control: 0, target: 1 });
    circuit.push(Operation::TGate { qubit: 0 });
    circuit.push(Operation::PhaseShiftState1 { qubit: 1, theta: number(-FRAC_PI_4) });
    circuit.push(Operation::CNOT { control: 0, target: 1 });

    assert_eq!(result_circuit, circuit);
}

#[test]
fn test_pyo3_circuit_qft() {
    let input_operation = Operation::QFT { qubits: vec![0, 1, 2], swaps: false, inverse: false };
    let result_circuit = input_operation.circuit().unwrap();

    let mut circuit = Circuit::new();
    circuit.push(Operation::Hadamard { qubit: 0 });
    circuit.push(Operation::ControlledPhaseShift { control: 1, target: 0, theta: number(FRAC_PI_2) });
    circuit.push(Operation::ControlledPhaseShift { control: 2, target: 0, theta: number(FRAC_PI_4) });
    circuit.push(Operation::Hadamard { qubit: 1 });
    circuit.push(Operation::ControlledPhaseShift { control: 2, target: 1, theta: number(FRAC_PI_2) });
    circuit.push(Operation::Hadamard { qubit: 2 });

    assert_eq!(result_circuit, circuit);
}

#[test]
fn fourier_with_swaps_and_its_inverse() {
    let forward = decompose_qft(&vec![0, 1, 2], true, false).unwrap();
    assert_eq!(
        forward,
        circuit_of(vec![
            Operation::Hadamard { qubit: 0 },
            Operation::ControlledPhaseShift { control: 1, target: 0, theta: number(FRAC_PI_2) },
            Operation::ControlledPhaseShift { control: 2, target: 0, theta: number(FRAC_PI_4) },
            Operation::Hadamard { qubit: 1 },
            Operation::ControlledPhaseShift { control: 2, target: 1, theta: number(FRAC_PI_2) },
            Operation::Hadamard { qubit: 2 },
            Operation::SWAP { control: 0, target: 2 },
        ])
    );
    let inverse = decompose_qft(&vec![0, 1, 2], true, true).unwrap();
    assert_eq!(
        inverse,
        circuit_of(vec![
            Operation::SWAP { control: 0, target: 2 },
            Operation::Hadamard { qubit: 2 },
            Operation::ControlledPhaseShift { control: 2, target: 1, theta: number(-FRAC_PI_2) },
            Operation::Hadamard { qubit: 1 },
            Operation::ControlledPhaseShift { control: 2, target: 0, theta: number(-FRAC_PI_4) },
            Operation::ControlledPhaseShift { control: 1, target: 0, theta: number(-FRAC_PI_2) },
            Operation::Hadamard { qubit: 0 },
        ])
    );
    assert_eq!(inverse.len(), forward.len());
}

#[test]
fn fourier_swap_layer_reverses_the_qubits() {
    let circuit = decompose_qft(&vec![4, 5, 6, 7, 8], true, false).unwrap();
    let n = circuit.len();
    assert_eq!(n, 5 + 10 + 2);
    assert_eq!(circuit.get(n - 2), Some(&Operation::SWAP { control: 4, target: 8 }));
    assert_eq!(circuit.get(n - 1), Some(&Operation::SWAP { control: 5, target: 7 }));
    assert_eq!(
        circuit.get(4),
        Some(&Operation::ControlledPhaseShift {
            control: 8,
            target: 4,
            theta: number(PI / 16.0)
        })
    );
    let single = decompose_qft(&vec![3], true, true).unwrap();
    assert_eq!(single, circuit_of(vec![Operation::Hadamard { qubit: 3 }]));
}

#[test]
fn fourier_circuit_has_the_fourier_matrix() {
    for width in 1..5 {
        let qubits: Vec<usize> = (0..width).collect();
        let forward = decompose_qft(&qubits, true, false).unwrap();
        assert_close(&matrix_of(&forward, width), &fourier_matrix(width, 1.0));
        let inverse = decompose_qft(&qubits, true, true).unwrap();
        assert_close(&matrix_of(&inverse, width), &fourier_matrix(width, -1.0));
    }
}

#[test]
fn fourier_circuit_without_swaps_has_bit_reversed_rows() {
    let width = 3;
    let qubits: Vec<usize> = (0..width).collect();
    let full = fourier_matrix(width, 1.0);
    let reversed = |index: usize| (0..width).fold(0, |r, p| (r << 1) | ((index >> p) & 1));
    let expected: Vec<Vec<Amplitude>> = (0..8).map(|row| full[reversed(row)].clone()).collect();
    let circuit = decompose_qft(&qubits, false, false).unwrap();
    assert_close(&matrix_of(&circuit, width), &expected);
    let adjoint: Vec<Vec<Amplitude>> = (0..8)
        .map(|row| (0..8).map(|column| (expected[column][row].0, -expected[column][row].1)).collect())
        .collect();
    let inverse = decompose_qft(&qubits, false, true).unwrap();
    assert_close(&matrix_of(&inverse, width), &adjoint);
}

#[test]
fn ms_circuit_on_three_qubits_rotates_about_the_joint_x_axis() {
    let theta = 1.1;
    let circuit = decompose_ms(&vec![0, 1, 2], &number(theta)).unwrap();
    let (c, s) = ((theta / 2.0).cos(), (theta / 2.0).sin());
    let mut expected = vec![vec![(0.0, 0.0); 8]; 8];
    for index in 0..8 {
        expected[index][index] = (c, 0.0);
        expected[index][7 - index] = (0.0, -s);
    }
    assert_close(&matrix_of(&circuit, 3), &expected);
}

#[test]
fn inverse_fourier_undoes_the_forward_one() {
    for swaps in [false, true] {
        let qubits = vec![2, 0, 1];
        let mut both = decompose_qft(&qubits, swaps, false).unwrap();
        both.append(&decompose_qft(&qubits, swaps, true).unwrap());
        assert_close(&matrix_of(&both, 3), &matrix_of(&Circuit::new(), 3));
    }
}

#[test]
fn controlled_not_base_cases() {
    assert_eq!(
        decompose_multi_cnot(&vec![5]),
        Ok(circuit_of(vec![Operation::PauliX { qubit: 5 }]))
    );
    assert_eq!(
        decompose_multi_cnot(&vec![5, 2]),
        Ok(circuit_of(vec![Operation::CNOT { control: 5, target: 2 }]))
    );
}

#[test]
fn controlled_not_on_three_qubits_is_the_doubly_controlled_flip() {
    let circuit = decompose_multi_cnot(&vec![0, 1, 2]).unwrap();
    let matrix = matrix_of(&circuit, 3);
    assert_close(&matrix, &controlled_not_matrix(3));
    for row in 0..8 {
        for column in 0..8 {
            let expected = match (row, column) {
                (6, 7) | (7, 6) => 1.0,
                (6, 6) | (7, 7) => 0.0,
                _ if row == column => 1.0,
                _ => 0.0,
            };
            assert!((matrix[row][column].0 - expected).abs() < 1e-9);
            assert!(matrix[row][column].1.abs() < 1e-9);
        }
    }
}

#[test]
fn controlled_not_on_four_qubits() {
    let circuit = decompose_multi_cnot(&vec![0, 1, 2, 3]).unwrap();
    assert_eq!(circuit.len(), 1 + (1 + 15 + 1 + 15) + (1 + 1 + 1 + 1) + 1 + 1);
    assert_eq!(circuit.get(0), Some(&Operation::Hadamard { qubit: 3 }));
    assert_eq!(
        circuit.get(1),
        Some(&Operation::ControlledPhaseShift { control: 2, target: 3, theta: number(FRAC_PI_2) })
    );
    assert_eq!(circuit.get(2), Some(&Operation::Hadamard { qubit: 2 }));
    assert_eq!(
        circuit.get(17),
        Some(&Operation::ControlledPhaseShift { control: 2, target: 3, theta: number(-FRAC_PI_2) })
    );
    assert_eq!(
        circuit.get(33),
        Some(&Operation::ControlledPhaseShift { control: 1, target: 3, theta: number(FRAC_PI_4) })
    );
    assert_eq!(circuit.get(34), Some(&Operation::CNOT { control: 0, target: 1 }));
    assert_eq!(
        circuit.get(35),
        Some(&Operation::ControlledPhaseShift { control: 1, target: 3, theta: number(-FRAC_PI_4) })
    );
    assert_eq!(circuit.get(36), Some(&Operation::CNOT { control: 0, target: 1 }));
    assert_eq!(
        circuit.get(37),
        Some(&Operation::ControlledPhaseShift { control: 0, target: 3, theta: number(FRAC_PI_4) })
    );
    assert_eq!(circuit.get(38), Some(&Operation::Hadamard { qubit: 3 }));
    assert_close(&matrix_of(&circuit, 4), &controlled_not_matrix(4));
}

#[test]
fn controlled_not_on_more_qubits_flips_only_the_last_state_pair() {
    for width in 5..7 {
        let qubits: Vec<usize> = (0..width).collect();
        let circuit = decompose_multi_cnot(&qubits).unwrap();
        assert_close(&matrix_of(&circuit, width), &controlled_not_matrix(width));
    }
    let permuted = decompose_multi_cnot(&vec![3, 0, 2, 1]).unwrap();
    let matrix = matrix_of(&permuted, 4);
    for column in 0..16usize {
        let row = if column & 0b1011 == 0b1011 { column ^ 0b0100 } else { column };
        assert!((matrix[row][column].0 - 1.0).abs() < 1e-9);
    }
}

#[test]
fn zz_circuit_is_the_diagonal_parity_rotation() {
    let theta = 0.7;
    let circuit = decompose_zz(&vec![0, 1, 2], &number(theta)).unwrap();
    let matrix = matrix_of(&circuit, 3);
    let mut expected = vec![vec![(0.0, 0.0); 8]; 8];
    for index in 0..8usize {
        let sign = if index.count_ones() % 2 == 0 { -1.0 } else { 1.0 };
        expected[index][index] = phase(sign * theta / 2.0);
    }
    assert_close(&matrix, &expected);
}

#[test]
fn ms_circuit_is_the_zz_circuit_in_the_x_basis() {
    let theta = 0.3;
    let ms = decompose_ms(&vec![0, 1], &number(theta)).unwrap();
    let mut conjugated = circuit_of(vec![
        Operation::Hadamard { qubit: 0 },
        Operation::Hadamard { qubit: 1 },
    ]);
    conjugated.append(&decompose_zz(&vec![0, 1], &number(theta)).unwrap());
    conjugated.push(Operation::Hadamard { qubit: 0 });
    conjugated.push(Operation::Hadamard { qubit: 1 });
    assert_eq!(ms, conjugated);
    let matrix = matrix_of(&ms, 2);
    let (c, s) = ((theta / 2.0).cos(), (theta / 2.0).sin());
    let mut expected = vec![vec![(0.0, 0.0); 4]; 4];
    for index in 0..4 {
        expected[index][index] = (c, 0.0);
        expected[index][3 - index] = (0.0, -s);
    }
    assert_close(&matrix, &expected);
}

#[test]
fn decomposition_places_symbolic_parameters_unchanged() {
    let circuit = decompose_zz(&vec![4, 9], &symbol("theta")).unwrap();
    assert_eq!(
        circuit,
        circuit_of(vec![
            Operation::CNOT { control: 4, target: 9 },
            Operation::RotateZ { qubit: 9, theta: symbol("theta") },
            Operation::CNOT { control: 4, target: 9 },
        ])
    );
    let single = decompose_ms(&vec![1], &symbol("2*x")).unwrap();
    assert_eq!(
        single,
        circuit_of(vec![
            Operation::Hadamard { qubit: 1 },
            Operation::RotateZ { qubit: 1, theta: symbol("2*x") },
            Operation::Hadamard { qubit: 1 },
        ])
    );
}

#[test]
fn decomposition_is_deterministic() {
    let gate = Operation::MultiQubitCNOT { qubits: vec![0, 1, 2, 3, 4] };
    assert_eq!(gate.circuit(), gate.duplicate().circuit());
    let gate = Operation::QFT { qubits: vec![0, 1, 2, 3], swaps: true, inverse: true };
    assert_eq!(gate.circuit(), gate.duplicate().circuit());
}

#[test]
fn decomposition_fails_outside_the_supported_domain() {
    let none: Vec<usize> = Vec::new();
    let failure = Err(OperationError::Decomposition { qubit_count: 0 });
    assert_eq!(decompose_ms(&none, &number(1.0)), failure);
    assert_eq!(decompose_zz(&none, &number(1.0)), failure);
    assert_eq!(decompose_multi_cnot(&none), failure);
    assert_eq!(decompose_qft(&none, false, false), failure);
    assert_eq!(Operation::MultiQubitMS { qubits: vec![], theta: number(1.0) }.circuit(), failure);
    assert_eq!(Operation::MultiQubitCNOT { qubits: vec![] }.circuit(), failure);
    let many: Vec<usize> = (0..1025).collect();
    assert_eq!(
        decompose_qft(&many, false, false),
        Err(OperationError::Decomposition { qubit_count: 1025 })
    );
    assert_eq!(
        decompose_multi_cnot(&many),
        Err(OperationError::Decomposition { qubit_count: 1025 })
    );
    assert_eq!(
        Operation::Hadamard { qubit: 0 }.circuit(),
        Err(OperationError::Decomposition { qubit_count: 1 })
    );
    assert_eq!(
        Operation::CNOT { control: 0, target: 1 }.circuit(),
        Err(OperationError::Decomposition { qubit_count: 2 })
    );
}

#[test]
fn fourier_on_the_largest_supported_register() {
    let qubits: Vec<usize> = (0..1024).collect();
    let circuit = decompose_qft(&qubits, false, false).unwrap();
    assert_eq!(circuit.len(), 1024 + 1024 * 1023 / 2);
    match circuit.get(1023) {
        Some(Operation::ControlledPhaseShift { control: 1023, target: 0, theta }) => {
            let angle = value_of(theta);
            assert!(angle > 0.0 && angle.is_normal());
            assert_eq!(angle, PI / 2.0_f64.powi(1000) / 2.0_f64.powi(23));
        }
        other => panic!("unexpected gate {other:?}"),
    }
}

#[test]
fn decomposition_stays_within_the_declared_qubits() {
    let gates = vec![
        Operation::MultiQubitMS { qubits: vec![7, 3, 5], theta: symbol("theta") },
        Operation::MultiQubitZZ { qubits: vec![7, 3, 5], theta: number(0.5) },
        Operation::MultiQubitCNOT { qubits: vec![7, 3, 5, 11, 2] },
        Operation::QFT { qubits: vec![7, 3, 5, 11], swaps: true, inverse: true },
    ];
    for gate in gates {
        let declared = gate.qubits();
        let circuit = gate.circuit().unwrap();
        assert_eq!(circuit.is_parametrized(), gate.is_parametrized());
        for index in 0..circuit.len() {
            let elementary = circuit.get(index).unwrap();
            assert!(elementary.has_distinct_qubits());
            for qubit in elementary.qubits() {
                assert!(declared.contains(&qubit));
            }
        }
    }
}

#[test]
fn decomposition_of_a_remapped_operation_is_the_remapped_decomposition() {
    let mut mapping = std::collections::HashMap::new();
    mapping.insert(0usize, 4usize);
    mapping.insert(1, 3);
    mapping.insert(2, 2);
    mapping.insert(3, 0);
    let gates = vec![
        Operation::MultiQubitMS { qubits: vec![0, 1, 2], theta: symbol("theta") },
        Operation::MultiQubitZZ { qubits: vec![2, 1], theta: number(0.5) },
        Operation::MultiQubitCNOT { qubits: vec![0, 1, 2, 3] },
        Operation::QFT { qubits: vec![3, 1, 0], swaps: true, inverse: false },
    ];
    for gate in gates {
        let remapped_first = gate.remap_qubits(&mapping).unwrap().circuit().unwrap();
        let decomposed_first = gate.circuit().unwrap().remap_qubits(&mapping).unwrap();
        assert_eq!(remapped_first, decomposed_first);
    }
}

#[test]
fn decomposition_of_a_resolved_operation_is_the_resolved_decomposition() {
    let mut calculator = Calculator::new();
    calculator.set_variable("theta", 0.25);
    let gates = vec![
        Operation::MultiQubitMS { qubits: vec![0, 1, 2], theta: symbol("theta") },
        Operation::MultiQubitZZ { qubits: vec![2, 1], theta: symbol("theta") },
        Operation::MultiQubitZZ { qubits: vec![2, 1], theta: number(0.5) },
        Operation::MultiQubitCNOT { qubits: vec![0, 1, 2, 3] },
        Operation::QFT { qubits: vec![3, 1, 0], swaps: true, inverse: true },
    ];
    for gate in gates {
        let resolved_first = gate.substitute_parameters(&calculator).unwrap().circuit().unwrap();
        let decomposed_first = gate.circuit().unwrap().substitute_parameters(&calculator).unwrap();
        assert!(resolved_first.equals(&decomposed_first));
        assert_eq!(resolved_first, decomposed_first);
    }
}

fn number_of(entry: MatrixEntry) -> Amplitude {
    match entry {
        MatrixEntry::Zero => (0.0, 0.0),
        MatrixEntry::One => (1.0, 0.0),
        MatrixEntry::RootHalf { negative } => {
            (if negative { -1.0 } else { 1.0 } * std::f64::consts::FRAC_1_SQRT_2, 0.0)
        }
        MatrixEntry::Phase { angle } => phase(f64::from_bits(angle)),
        MatrixEntry::HalfPhase { angle, negative } => {
            phase(if negative { -1.0 } else { 1.0 } * f64::from_bits(angle) / 2.0)
        }
        MatrixEntry::CosHalf { angle } => ((f64::from_bits(angle) / 2.0).cos(), 0.0),
        MatrixEntry::MinusISinHalf { angle } => (0.0, -(f64::from_bits(angle) / 2.0).sin()),
        MatrixEntry::Fourier { turns, qubits, conjugate } => {
            let order = 2.0_f64.powi(qubits as i32);
            let angle = 2.0 * PI * turns as f64 / order;
            let (re, im) = phase(if conjugate { -angle } else { angle });
            (re / order.sqrt(), im / order.sqrt())
        }
    }
}

fn closed_form(operation: &Operation) -> Vec<Vec<Amplitude>> {
    let dimension = operation.matrix_dimension().unwrap();
    (0..dimension)
        .map(|row| {
            (0..dimension)
                .map(|column| number_of(operation.matrix_entry(row, column).unwrap()))
                .collect()
        })
        .collect()
}

#[test]
fn closed_form_of_a_composite_gate_is_the_matrix_of_its_decomposition() {
    let gates = vec![
        Operation::MultiQubitZZ { qubits: vec![0], theta: number(0.3) },
        Operation::MultiQubitZZ { qubits: vec![0, 1], theta: number(-1.3) },
        Operation::MultiQubitZZ { qubits: vec![0, 1, 2], theta: number(1.3) },
        Operation::MultiQubitMS { qubits: vec![0], theta: number(0.3) },
        Operation::MultiQubitMS { qubits: vec![0, 1], theta: number(2.3) },
        Operation::MultiQubitMS { qubits: vec![0, 1, 2], theta: number(1.3) },
        Operation::MultiQubitCNOT { qubits: vec![0] },
        Operation::MultiQubitCNOT { qubits: vec![0, 1] },
        Operation::MultiQubitCNOT { qubits: vec![0, 1, 2] },
        Operation::MultiQubitCNOT { qubits: vec![0, 1, 2, 3] },
        Operation::MultiQubitCNOT { qubits: vec![0, 1, 2, 3, 4] },
        Operation::QFT { qubits: vec![0], swaps: true, inverse: false },
        Operation::QFT { qubits: vec![0, 1], swaps: false, inverse: false },
        Operation::QFT { qubits: vec![0, 1, 2], swaps: false, inverse: false },
        Operation::QFT { qubits: vec![0, 1, 2], swaps: true, inverse: false },
        Operation::QFT { qubits: vec![0, 1, 2], swaps: false, inverse: true },
        Operation::QFT { qubits: vec![0, 1, 2], swaps: true, inverse: true },
        Operation::QFT { qubits: vec![0, 1, 2, 3], swaps: true, inverse: true },
        Operation::QFT { qubits: vec![0, 1, 2, 3], swaps: false, inverse: true },
    ];
    for gate in gates {
        let width = gate.qubits().len();
        let circuit = gate.circuit().unwrap();
        assert_close(&closed_form(&gate), &matrix_of(&circuit, width));
    }
}

#[test]
fn closed_form_of_an_elementary_gate_is_its_matrix() {
    let single = vec![
        Operation::Hadamard { qubit: 0 },
        Operation::PauliX { qubit: 0 },
        Operation::TGate { qubit: 0 },
        Operation::RotateZ { qubit: 0, theta: number(0.7) },
        Operation::PhaseShiftState1 { qubit: 0, theta: number(0.7) },
    ];
    for gate in single {
        assert_close(&closed_form(&gate), &matrix_of(&circuit_of(vec![gate.clone()]), 1));
    }
    let pair = vec![
        Operation::CNOT { control: 0, target: 1 },
        Operation::SWAP { control: 0, target: 1 },
        Operation::ControlledPhaseShift { control: 0, target: 1, theta: number(0.7) },
    ];
    for gate in pair {
        assert_close(&closed_form(&gate), &matrix_of(&circuit_of(vec![gate.clone()]), 2));
    }
    let theta: f64 = 0.9;
    let (c, s) = ((theta / 2.0).cos(), (theta / 2.0).sin());
    assert_close(
        &closed_form(&Operation::RotateX { qubit: 0, theta: number(theta) }),
        &[vec![(c, 0.0), (0.0, -s)], vec![(0.0, -s), (c, 0.0)]],
    );
}

#[test]
fn matrix_entries_in_closed_form() {
    let hadamard = Operation::Hadamard { qubit: 0 };
    assert_eq!(hadamard.matrix_entry(0, 0), Ok(MatrixEntry::RootHalf { negative: false }));
    assert_eq!(hadamard.matrix_entry(1, 1), Ok(MatrixEntry::RootHalf { negative: true }));
    assert_eq!(hadamard.matrix_entry(2, 0), Err(OperationError::MatrixEvaluation));
    assert_eq!(hadamard.matrix_entry(0, 2), Err(OperationError::MatrixEvaluation));
    let toffoli = Operation::MultiQubitCNOT { qubits: vec![0, 1, 2] };
    for row in 0..8 {
        for column in 0..8 {
            let flipped = matches!((row, column), (6, 7) | (7, 6));
            let kept = row == column && row < 6;
            let expected = if flipped || kept { MatrixEntry::One } else { MatrixEntry::Zero };
            assert_eq!(toffoli.matrix_entry(row, column), Ok(expected));
        }
    }
    let zz = Operation::MultiQubitZZ { qubits: vec![0, 1], theta: number(0.5) };
    let angle = 0.5_f64.to_bits();
    assert_eq!(zz.matrix_entry(0, 0), Ok(MatrixEntry::HalfPhase { angle, negative: true }));
    assert_eq!(zz.matrix_entry(1, 1), Ok(MatrixEntry::HalfPhase { angle, negative: false }));
    assert_eq!(zz.matrix_entry(3, 3), Ok(MatrixEntry::HalfPhase { angle, negative: true }));
    assert_eq!(zz.matrix_entry(3, 2), Ok(MatrixEntry::Zero));
    let qft = Operation::QFT { qubits: vec![0, 1, 2], swaps: true, inverse: false };
    assert_eq!(
        qft.matrix_entry(3, 5),
        Ok(MatrixEntry::Fourier { turns: 7, qubits: 3, conjugate: false })
    );
    let qft = Operation::QFT { qubits: vec![0, 1, 2], swaps: false, inverse: true };
    assert_eq!(
        qft.matrix_entry(3, 1),
        Ok(MatrixEntry::Fourier { turns: 4, qubits: 3, conjugate: true })
    );
    let symbolic = Operation::RotateZ { qubit: 0, theta: symbol("theta") };
    assert_eq!(symbolic.matrix_entry(0, 0), Err(OperationError::MatrixEvaluation));
    let wide = Operation::QFT { qubits: (0..63).collect(), swaps: true, inverse: false };
    assert_eq!(
        wide.matrix_entry((1 << 63) - 1, (1 << 63) - 1),
        Ok(MatrixEntry::Fourier { turns: 1, qubits: 63, conjugate: false })
    );
}

#[test]
fn parity_and_bit_reversal() {
    assert!(!odd_parity(0));
    assert!(odd_parity(1));
    assert!(odd_parity(2));
    assert!(!odd_parity(3));
    assert!(odd_parity(0b1011));
    assert!(!odd_parity(u64::MAX));
    assert_eq!(reverse_bits(0b001, 3), 0b100);
    assert_eq!(reverse_bits(0b110, 3), 0b011);
    assert_eq!(reverse_bits(0b1, 1), 0b1);
    assert_eq!(reverse_bits(0b1011, 0), 0);
    assert_eq!(reverse_bits(0b1111_0110, 4), 0b0110);
    assert_eq!(reverse_bits(1, 63), 1 << 62);
}
