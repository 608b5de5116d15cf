use qoqo_operations::record::OperationRecord;
use qoqo_operations::{Circuit, Operation, OperationKind, Parameter};

fn number(value: f64) -> Parameter {
    Parameter::Number(value.to_bits())
}

fn symbol(expression: &str) -> Parameter {
    Parameter::Symbolic(expression.to_string())
}

fn one_of_each() -> Vec<Operation> {
    vec![
        Operation::Hadamard { qubit: 1 },
        Operation::PauliX { qubit: 2 },
        Operation::TGate { qubit: 3 },
        Operation::RotateX { qubit: 4, theta: symbol("a") },
        Operation::RotateZ { qubit: 5, theta: number(0.25) },
        Operation::PhaseShiftState1 { qubit: 6, theta: number(-1.0) },
        Operation::CNOT { control: 1, target: 0 },
        Operation::SWAP { control: 0, target: 1 },
        Operation::ControlledPhaseShift { control: 2, target: 1, theta: symbol("b") },
        Operation::MultiQubitMS { qubits: vec![2, 0, 1], theta: number(2.0) },
        Operation::MultiQubitZZ { qubits: vec![0, 1], theta: symbol("c") },
        Operation::MultiQubitCNOT { qubits: vec![0, 1, 2, 3] },
        Operation::QFT { qubits: vec![3, 2], swaps: false, inverse: true },
        Operation::CallDefinedGate {
            gate_name: "g".to_string(),
            qubits: vec![7],
            free_parameters: vec![number(1.0), symbol("d")],
        },
        Operation::PragmaGlobalPhase { phase: symbol("e") },
        Operation::PragmaRepeatedMeasurement { readout: "ro".to_string(), number_measurements: 3 },
        Operation::DefinitionBit { name: "ro".to_string(), length: 3, is_output: true },
        Operation::MeasureQubit { qubit: 8, readout: "ro".to_string(), readout_index: 0 },
    ]
}

#[test]
fn every_variant_comes_back_from_its_record() {
    for operation in one_of_each() {
        let record = operation.to_record();
        assert!(record.has_shape());
        assert_eq!(record.kind, operation.kind());
        assert_eq!(record.qubits, operation.qubits());
        assert_eq!(record.parameters, operation.parameters());
        assert_eq!(Operation::from_record(&record), Some(operation.clone()));
        assert_eq!(Operation::from_record(&record).unwrap().to_record(), record);
    }
}

#[test]
fn record_fields_are_in_declared_order() {
    let record = Operation::DefinitionBit { name: "ro".to_string(), length: 3, is_output: true }
        .to_record();
    assert_eq!(
        record,
        OperationRecord {
            kind: OperationKind::DefinitionBit,
            qubits: vec![],
            parameters: vec![],
            flags: vec![true],
            names: vec!["ro".to_string()],
            sizes: vec![3],
        }
    );
    let record = Operation::QFT { qubits: vec![3, 2], swaps: false, inverse: true }.to_record();
    assert_eq!(record.flags, vec![false, true]);
    let record =
        Operation::ControlledPhaseShift { control: 2, target: 1, theta: symbol("b") }.to_record();
    assert_eq!(record.qubits, vec![2, 1]);
    assert_eq!(record.parameters, vec![symbol("b")]);
}

#[test]
fn records_of_the_wrong_shape_describe_no_operation() {
    let mut record = Operation::CNOT { control: 0, target: 1 }.to_record();
    record.qubits.push(2);
    assert!(!record.has_shape());
    assert_eq!(Operation::from_record(&record), None);
    let mut record = Operation::RotateX { qubit: 0, theta: number(1.0) }.to_record();
    record.parameters.clear();
    assert_eq!(Operation::from_record(&record), None);
    let mut record = Operation::Hadamard { qubit: 0 }.to_record();
    record.flags.push(true);
    assert_eq!(Operation::from_record(&record), None);
    let mut record = Operation::MeasureQubit { qubit: 0, readout: "ro".into(), readout_index: 1 }
        .to_record();
    record.sizes.clear();
    assert_eq!(Operation::from_record(&record), None);
    let mut record = Operation::MultiQubitCNOT { qubits: vec![] }.to_record();
    assert_eq!(Operation::from_record(&record), Some(Operation::MultiQubitCNOT { qubits: vec![] }));
    record.names.push("x".to_string());
    assert_eq!(Operation::from_record(&record), None);
}

#[test]
fn circuits_come_back_from_their_records() {
    let mut circuit = Circuit::new();
    for operation in one_of_each() {
        circuit.push(operation);
    }
    let mut records = circuit.to_records();
    assert_eq!(records.len(), 18);
    assert_eq!(Circuit::from_records(&records), Some(circuit));
    assert_eq!(Circuit::from_records(&vec![]), Some(Circuit::new()));
    records[17].qubits.clear();
    assert_eq!(Circuit::from_records(&records), None);
}

#[test]
fn variants_are_found_by_their_name() {
    let kinds = OperationKind::all();
    assert_eq!(kinds.len(), 18);
    for kind in kinds {
        assert_eq!(OperationKind::from_name(kind.hqslang()), Some(kind));
    }
    for operation in one_of_each() {
        assert_eq!(OperationKind::from_name(operation.hqslang()), Some(operation.kind()));
    }
    assert_eq!(OperationKind::from_name("Cnot"), None);
    assert_eq!(OperationKind::from_name(""), None);
    assert_eq!(OperationKind::from_name("QFT "), None);
}
