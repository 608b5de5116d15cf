use qoqo_operations::equality::{same_flags, same_names, same_numbers, same_parameters};
use qoqo_operations::{Circuit, ClassicalRegister, Operation, Parameter};

fn number(value: f64) -> Parameter {
    Parameter::Number(value.to_bits())
}

fn symbol(expression: &str) -> Parameter {
    Parameter::Symbolic(expression.to_string())
}

fn samples() -> Vec<Operation> {
    vec![
        Operation::Hadamard { qubit: 1 },
        Operation::Hadamard { qubit: 2 },
        Operation::PauliX { qubit: 1 },
        Operation::RotateX { qubit: 1, theta: symbol("a") },
        Operation::RotateX { qubit: 1, theta: symbol("b") },
        Operation::RotateX { qubit: 1, theta: number(0.5) },
        Operation::RotateZ { qubit: 1, theta: number(0.5) },
        Operation::CNOT { control: 1, target: 0 },
        Operation::CNOT { control: 0, target: 1 },
        Operation::SWAP { control: 0, target: 1 },
        Operation::MultiQubitCNOT { qubits: vec![0, 1] },
        Operation::MultiQubitCNOT { qubits: vec![0, 1, 2] },
        Operation::QFT { qubits: vec![0, 1], swaps: false, inverse: true },
        Operation::QFT { qubits: vec![0, 1], swaps: true, inverse: false },
        Operation::CallDefinedGate {
            gate_name: "g".to_string(),
            qubits: vec![7],
            free_parameters: vec![number(1.0), symbol("d")],
        },
        Operation::CallDefinedGate {
            gate_name: "h".to_string(),
            qubits: vec![7],
            free_parameters: vec![number(1.0), symbol("d")],
        },
        Operation::CallDefinedGate {
            gate_name: "g".to_string(),
            qubits: vec![7],
            free_parameters: vec![number(1.0)],
        },
        Operation::PragmaRepeatedMeasurement { readout: "ro".to_string(), number_measurements: 3 },
        Operation::PragmaRepeatedMeasurement { readout: "ro".to_string(), number_measurements: 4 },
        Operation::DefinitionBit { name: "ro".to_string(), length: 3, is_output: true },
        Operation::DefinitionBit { name: "ro".to_string(), length: 3, is_output: false },
        Operation::MeasureQubit { qubit: 8, readout: "ro".to_string(), readout_index: 3 },
    ]
}

#[test]
fn operations_are_equal_exactly_when_their_fields_are() {
    let operations = samples();
    for (i, left) in operations.iter().enumerate() {
        for (j, right) in operations.iter().enumerate() {
            assert_eq!(left.equals(right), i == j, "{left:?} and {right:?}");
            assert_eq!(left.equals(right), left == right);
        }
        assert!(left.equals(&left.duplicate()));
        assert!(left.equals(&left.clone()));
    }
}

#[test]
fn parameters_are_compared_by_bits_or_by_text() {
    assert!(number(1.0).equals(&number(1.0)));
    assert!(!number(1.0).equals(&number(-1.0)));
    assert!(!number(0.0).equals(&number(-0.0)));
    assert!(number(f64::NAN).equals(&number(f64::NAN)));
    assert!(symbol("x").equals(&symbol("x")));
    assert!(!symbol("x").equals(&symbol("y")));
    assert!(!symbol("1").equals(&number(1.0)));
}

#[test]
fn lists_are_compared_in_order() {
    assert!(same_numbers(&vec![], &vec![]));
    assert!(same_numbers(&vec![1, 2], &vec![1, 2]));
    assert!(!same_numbers(&vec![1, 2], &vec![2, 1]));
    assert!(!same_numbers(&vec![1, 2], &vec![1]));
    assert!(same_flags(&vec![true, false], &vec![true, false]));
    assert!(!same_flags(&vec![true, false], &vec![true, true]));
    assert!(same_names(&vec!["a".to_string()], &vec!["a".to_string()]));
    assert!(!same_names(&vec!["a".to_string()], &vec!["b".to_string()]));
    assert!(!same_names(&vec!["a".to_string()], &vec![]));
    assert!(same_parameters(&vec![number(1.0), symbol("x")], &vec![number(1.0), symbol("x")]));
    assert!(!same_parameters(&vec![number(1.0), symbol("x")], &vec![symbol("x"), number(1.0)]));
}

#[test]
fn circuits_and_registers_are_compared_in_order() {
    let operations = samples();
    let mut first = Circuit::new();
    first.push(operations[0].clone());
    first.push(operations[7].clone());
    let mut second = Circuit::new();
    second.push(operations[7].clone());
    second.push(operations[0].clone());
    assert!(first.equals(&first.duplicate()));
    assert!(!first.equals(&second));
    assert!(!first.equals(&Circuit::new()));
    assert!(Circuit::new().equals(&Circuit::new()));
    let register = ClassicalRegister::new(Some(first.clone()), vec![second.clone()]);
    assert!(register.equals(&register.clone()));
    assert!(!register.equals(&ClassicalRegister::new(None, vec![second.clone()])));
    assert!(!register.equals(&ClassicalRegister::new(Some(first.clone()), vec![first.clone()])));
    assert!(!register.equals(&ClassicalRegister::new(Some(first.clone()), vec![])));
    assert!(!register.equals(&ClassicalRegister::new(Some(second.clone()), vec![second])));
}
