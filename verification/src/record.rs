//! The structural record of an operation: the form in which an operation is
//! handed to a serializer and taken back from it.

use crate::binding::same_text;
use crate::circuit::Circuit;
use crate::operation::{copy_parameters, copy_qubits, Operation, OperationKind, OperationView};
use crate::parameter::{parameter_views, Parameter};
use vstd::prelude::*;

verus! {

/// The variant of an operation and its fields by kind, each in declared
/// order: qubit roles, parameters, flags, names and sizes.
#[derive(Clone, Debug, PartialEq, Eq)]
pub struct OperationRecord {
    pub kind: OperationKind,
    pub qubits: Vec<usize>,
    pub parameters: Vec<Parameter>,
    pub flags: Vec<bool>,
    pub names: Vec<String>,
    pub sizes: Vec<usize>,
}

/// Views of a sequence of names.
pub open spec fn name_views(names: Seq<String>) -> Seq<Seq<char>> {
    names.map_values(|name: String| name@)
}

impl View for OperationRecord {
    type V = OperationView;

    open spec fn view(&self) -> OperationView {
        OperationView {
            kind: self.kind,
            qubits: self.qubits@,
            parameters: parameter_views(self.parameters@),
            flags: self.flags@,
            names: name_views(self.names@),
            sizes: self.sizes@,
        }
    }
}

/// The number of fields of each sort that a record holds.
pub open spec fn has_counts(
    record: OperationView,
    parameters: int,
    flags: int,
    names: int,
    sizes: int,
) -> bool {
    &&& record.parameters.len() == parameters
    &&& record.flags.len() == flags
    &&& record.names.len() == names
    &&& record.sizes.len() == sizes
}

impl OperationView {
    /// Whether the record holds, of each sort, as many fields as its variant has.
    pub open spec fn has_shape(self) -> bool {
        match self.kind {
            OperationKind::Hadamard | OperationKind::PauliX | OperationKind::TGate => {
                self.qubits.len() == 1 && has_counts(self, 0, 0, 0, 0)
            },
            OperationKind::RotateX | OperationKind::RotateZ | OperationKind::PhaseShiftState1 => {
                self.qubits.len() == 1 && has_counts(self, 1, 0, 0, 0)
            },
            OperationKind::CNOT | OperationKind::SWAP => {
                self.qubits.len() == 2 && has_counts(self, 0, 0, 0, 0)
            },
            OperationKind::ControlledPhaseShift => {
                self.qubits.len() == 2 && has_counts(self, 1, 0, 0, 0)
            },
            OperationKind::MultiQubitMS | OperationKind::MultiQubitZZ => has_counts(
                self,
                1,
                0,
                0,
                0,
            ),
            OperationKind::MultiQubitCNOT => has_counts(self, 0, 0, 0, 0),
            OperationKind::QFT => has_counts(self, 0, 2, 0, 0),
            OperationKind::CallDefinedGate => {
                self.flags.len() == 0 && self.names.len() == 1 && self.sizes.len() == 0
            },
            OperationKind::PragmaGlobalPhase => {
                self.qubits.len() == 0 && has_counts(self, 1, 0, 0, 0)
            },
            OperationKind::PragmaRepeatedMeasurement => {
                self.qubits.len() == 0 && has_counts(self, 0, 0, 1, 1)
            },
            OperationKind::DefinitionBit => self.qubits.len() == 0 && has_counts(self, 0, 1, 1, 1),
            OperationKind::MeasureQubit => self.qubits.len() == 1 && has_counts(self, 0, 0, 1, 1),
        }
    }
}

/// The record of every operation has the shape of its variant.
pub proof fn lemma_operations_have_shape(op: Operation)
    ensures
        op@.has_shape(),
{
}

impl OperationRecord {
    /// Whether the record holds, of each sort, as many fields as its variant has.
    pub fn has_shape(&self) -> (r: bool)
        ensures
            r == self@.has_shape(),
    {
        let qubits: usize = self.qubits.len();
        let parameters: usize = self.parameters.len();
        let flags: usize = self.flags.len();
        let names: usize = self.names.len();
        let sizes: usize = self.sizes.len();
        match self.kind {
            OperationKind::Hadamard | OperationKind::PauliX | OperationKind::TGate => {
                qubits == 1 && parameters == 0 && flags == 0 && names == 0 && sizes == 0
            },
            OperationKind::RotateX | OperationKind::RotateZ | OperationKind::PhaseShiftState1 => {
                qubits == 1 && parameters == 1 && flags == 0 && names == 0 && sizes == 0
            },
            OperationKind::CNOT | OperationKind::SWAP => {
                qubits == 2 && parameters == 0 && flags == 0 && names == 0 && sizes == 0
            },
            OperationKind::ControlledPhaseShift => {
                qubits == 2 && parameters == 1 && flags == 0 && names == 0 && sizes == 0
            },
            OperationKind::MultiQubitMS | OperationKind::MultiQubitZZ => {
                parameters == 1 && flags == 0 && names == 0 && sizes == 0
            },
            OperationKind::MultiQubitCNOT => {
                parameters == 0 && flags == 0 && names == 0 && sizes == 0
            },
            OperationKind::QFT => parameters == 0 && flags == 2 && names == 0 && sizes == 0,
            OperationKind::CallDefinedGate => flags == 0 && names == 1 && sizes == 0,
            OperationKind::PragmaGlobalPhase => {
                qubits == 0 && parameters == 1 && flags == 0 && names == 0 && sizes == 0
            },
            OperationKind::PragmaRepeatedMeasurement => {
                qubits == 0 && parameters == 0 && flags == 0 && names == 1 && sizes == 1
            },
            OperationKind::DefinitionBit => {
                qubits == 0 && parameters == 0 && flags == 1 && names == 1 && sizes == 1
            },
            OperationKind::MeasureQubit => {
                qubits == 1 && parameters == 0 && flags == 0 && names == 1 && sizes == 1
            },
        }
    }
}

impl Operation {
    /// The record of the operation. It has the shape of the variant, so
    /// that [`Operation::from_record`] gives an equal operation back.
    pub fn to_record(&self) -> (r: OperationRecord)
        ensures
            r@ == self@,
            r@.has_shape(),
    {
        let mut flags: Vec<bool> = Vec::new();
        let mut names: Vec<String> = Vec::new();
        let mut sizes: Vec<usize> = Vec::new();
        match self {
            Operation::QFT { swaps, inverse, .. } => {
                flags.push(*swaps);
                flags.push(*inverse);
            },
            Operation::CallDefinedGate { gate_name, .. } => {
                names.push(gate_name.clone());
            },
            Operation::PragmaRepeatedMeasurement { readout, number_measurements } => {
                names.push(readout.clone());
                sizes.push(*number_measurements);
            },
            Operation::DefinitionBit { name, length, is_output } => {
                flags.push(*is_output);
                names.push(name.clone());
                sizes.push(*length);
            },
            Operation::MeasureQubit { readout, readout_index, .. } => {
                names.push(readout.clone());
                sizes.push(*readout_index);
            },
            _ => {},
        }
        let record = OperationRecord {
            kind: self.kind(),
            qubits: self.qubits(),
            parameters: self.parameters(),
            flags,
            names,
            sizes,
        };
        assert(record@.flags =~= self@.flags);
        assert(record@.names =~= self@.names);
        assert(record@.sizes =~= self@.sizes);
        record
    }

    /// The operation that a record describes.
    ///
    /// There is one exactly when the record has the shape of its variant.
    pub fn from_record(record: &OperationRecord) -> (r: Option<Operation>)
        ensures
            match r {
                Some(op) => record@.has_shape() && op@ == record@,
                None => !record@.has_shape(),
            },
    {
        if !record.has_shape() {
            return None;
        }
        let op = match record.kind {
            OperationKind::Hadamard => Operation::Hadamard { qubit: record.qubits[0] },
            OperationKind::PauliX => Operation::PauliX { qubit: record.qubits[0] },
            OperationKind::TGate => Operation::TGate { qubit: record.qubits[0] },
            OperationKind::RotateX => Operation::RotateX {
                qubit: record.qubits[0],
                theta: record.parameters[0].duplicate(),
            },
            OperationKind::RotateZ => Operation::RotateZ {
                qubit: record.qubits[0],
                theta: record.parameters[0].duplicate(),
            },
            OperationKind::PhaseShiftState1 => Operation::PhaseShiftState1 {
                qubit: record.qubits[0],
                theta: record.parameters[0].duplicate(),
            },
            OperationKind::CNOT => Operation::CNOT {
                control: record.qubits[0],
                target: record.qubits[1],
            },
            OperationKind::SWAP => Operation::SWAP {
                control: record.qubits[0],
                target: record.qubits[1],
            },
            OperationKind::ControlledPhaseShift => Operation::ControlledPhaseShift {
                control: record.qubits[0],
                target: record.qubits[1],
                theta: record.parameters[0].duplicate(),
            },
            OperationKind::MultiQubitMS => Operation::MultiQubitMS {
                qubits: copy_qubits(&record.qubits),
                theta: record.parameters[0].duplicate(),
            },
            OperationKind::MultiQubitZZ => Operation::MultiQubitZZ {
                qubits: copy_qubits(&record.qubits),
                theta: record.parameters[0].duplicate(),
            },
            OperationKind::MultiQubitCNOT => Operation::MultiQubitCNOT {
                qubits: copy_qubits(&record.qubits),
            },
            OperationKind::QFT => Operation::QFT {
                qubits: copy_qubits(&record.qubits),
                swaps: record.flags[0],
                inverse: record.flags[1],
            },
            OperationKind::CallDefinedGate => Operation::CallDefinedGate {
                gate_name: record.names[0].clone(),
                qubits: copy_qubits(&record.qubits),
                free_parameters: copy_parameters(&record.parameters),
            },
            OperationKind::PragmaGlobalPhase => Operation::PragmaGlobalPhase {
                phase: record.parameters[0].duplicate(),
            },
            OperationKind::PragmaRepeatedMeasurement => Operation::PragmaRepeatedMeasurement {
                readout: record.names[0].clone(),
                number_measurements: record.sizes[0],
            },
            OperationKind::DefinitionBit => Operation::DefinitionBit {
                name: record.names[0].clone(),
                length: record.sizes[0],
                is_output: record.flags[0],
            },
            OperationKind::MeasureQubit => Operation::MeasureQubit {
                qubit: record.qubits[0],
                readout: record.names[0].clone(),
                readout_index: record.sizes[0],
            },
        };
        assert(op@.qubits =~= record@.qubits);
        assert(op@.parameters =~= record@.parameters);
        assert(op@.flags =~= record@.flags);
        assert(op@.names =~= record@.names);
        assert(op@.sizes =~= record@.sizes);
        Some(op)
    }
}

/// Views of a sequence of records.
pub open spec fn record_views(records: Seq<OperationRecord>) -> Seq<OperationView> {
    records.map_values(|record: OperationRecord| record@)
}

/// Every record of the sequence has the shape of its variant.
pub open spec fn all_have_shape(records: Seq<OperationView>) -> bool {
    forall|k: int| 0 <= k < records.len() ==> (#[trigger] records[k]).has_shape()
}

impl Circuit {
    /// The records of the operations of the circuit, in their order. Each has
    /// the shape of its variant, so that [`Circuit::from_records`] gives an
    /// equal circuit back.
    pub fn to_records(&self) -> (r: Vec<OperationRecord>)
        ensures
            record_views(r@) == self@,
            all_have_shape(record_views(r@)),
    {
        let mut records: Vec<OperationRecord> = Vec::new();
        let mut k: usize = 0;
        while k < self.operations.len()
            invariant
                k <= self.operations.len(),
                records.len() == k,
                forall|j: int| 0 <= j < k ==> (#[trigger] records@[j])@ == self@[j],
                forall|j: int| 0 <= j < k ==> (#[trigger] records@[j])@.has_shape(),
            decreases self.operations.len() - k,
        {
            records.push(self.operations[k].to_record());
            k += 1;
        }
        assert(record_views(records@) =~= self@);
        records
    }

    /// The circuit that a sequence of records describes.
    ///
    /// There is one exactly when every record has the shape of its variant.
    pub fn from_records(records: &Vec<OperationRecord>) -> (r: Option<Circuit>)
        ensures
            match r {
                Some(circuit) => all_have_shape(record_views(records@)) && circuit@ == record_views(
                    records@,
                ),
                None => !all_have_shape(record_views(records@)),
            },
    {
        let mut circuit = Circuit::new();
        let mut k: usize = 0;
        while k < records.len()
            invariant
                k <= records.len(),
                circuit@ == record_views(records@).take(k as int),
                all_have_shape(record_views(records@).take(k as int)),
            decreases records.len() - k,
        {
            let ghost views = record_views(records@);
            match Operation::from_record(&records[k]) {
                Some(op) => {
                    circuit.push(op);
                    assert(circuit@ =~= views.take(k + 1));
                    assert forall|j: int| 0 <= j < k + 1 implies (#[trigger] views.take(
                        k + 1,
                    )[j]).has_shape() by {
                        if j < k {
                            assert(views.take(k as int)[j] == views.take(k + 1)[j]);
                        }
                    }
                },
                None => {
                    assert(!views[k as int].has_shape());
                    return None;
                },
            }
            k += 1;
        }
        assert(record_views(records@).take(records@.len() as int) =~= record_views(records@));
        Some(circuit)
    }
}

impl OperationKind {
    /// Every variant, in declared order.
    pub fn all() -> (r: Vec<OperationKind>)
        ensures
            forall|kind: OperationKind| r@.contains(kind),
    {
        let r = vec![
            OperationKind::Hadamard,
            OperationKind::PauliX,
            OperationKind::TGate,
            OperationKind::RotateX,
            OperationKind::RotateZ,
            OperationKind::PhaseShiftState1,
            OperationKind::CNOT,
            OperationKind::SWAP,
            OperationKind::ControlledPhaseShift,
            OperationKind::MultiQubitMS,
            OperationKind::MultiQubitZZ,
            OperationKind::MultiQubitCNOT,
            OperationKind::QFT,
            OperationKind::CallDefinedGate,
            OperationKind::PragmaGlobalPhase,
            OperationKind::PragmaRepeatedMeasurement,
            OperationKind::DefinitionBit,
            OperationKind::MeasureQubit,
        ];
        assert forall|kind: OperationKind| r@.contains(kind) by {
            let i: int = match kind {
                OperationKind::Hadamard => 0,
                OperationKind::PauliX => 1,
                OperationKind::TGate => 2,
                OperationKind::RotateX => 3,
                OperationKind::RotateZ => 4,
                OperationKind::PhaseShiftState1 => 5,
                OperationKind::CNOT => 6,
                OperationKind::SWAP => 7,
                OperationKind::ControlledPhaseShift => 8,
                OperationKind::MultiQubitMS => 9,
                OperationKind::MultiQubitZZ => 10,
                OperationKind::MultiQubitCNOT => 11,
                OperationKind::QFT => 12,
                OperationKind::CallDefinedGate => 13,
                OperationKind::PragmaGlobalPhase => 14,
                OperationKind::PragmaRepeatedMeasurement => 15,
                OperationKind::DefinitionBit => 16,
                OperationKind::MeasureQubit => 17,
            };
            assert(r@[i] == kind);
        }
        r
    }

    /// The variant of the given name, if there is one.
    pub fn from_name(name: &str) -> (r: Option<OperationKind>)
        ensures
            match r {
                Some(kind) => kind.name() == name@,
                None => forall|kind: OperationKind| kind.name() != name@,
            },
    {
        let kinds = OperationKind::all();
        let mut i: usize = 0;
        while i < kinds.len()
            invariant
                i <= kinds.len(),
                forall|kind: OperationKind| kinds@.contains(kind),
                forall|j: int| 0 <= j < i ==> (#[trigger] kinds@[j]).name() != name@,
            decreases kinds.len() - i,
        {
            let kind = kinds[i];
            if same_text(kind.hqslang(), name) {
                return Some(kind);
            }
            i += 1;
        }
        assert forall|kind: OperationKind| kind.name() != name@ by {
            assert(kinds@.contains(kind));
            let j = choose|j: int| 0 <= j < kinds@.len() && kinds@[j] == kind;
            assert(kinds@[j].name() != name@);
        }
        None
    }
}

/// The length, the second and the last character of a name.
pub open spec fn outline(name: Seq<char>) -> (nat, char, char) {
    (name.len(), name[1], name.last())
}

/// Two variants of the same name are the same variant, so that a record
/// that carries the name of its variant names it exactly.
pub proof fn lemma_name_determines_kind(first: OperationKind, second: OperationKind)
    requires
        first.name() == second.name(),
    ensures
        first == second,
{
    reveal_strlit("Hadamard");
    reveal_strlit("PauliX");
    reveal_strlit("TGate");
    reveal_strlit("RotateX");
    reveal_strlit("RotateZ");
    reveal_strlit("PhaseShiftState1");
    reveal_strlit("CNOT");
    reveal_strlit("SWAP");
    reveal_strlit("ControlledPhaseShift");
    reveal_strlit("MultiQubitMS");
    reveal_strlit("MultiQubitZZ");
    reveal_strlit("MultiQubitCNOT");
    reveal_strlit("QFT");
    reveal_strlit("CallDefinedGate");
    reveal_strlit("PragmaGlobalPhase");
    reveal_strlit("PragmaRepeatedMeasurement");
    reveal_strlit("DefinitionBit");
    reveal_strlit("MeasureQubit");
    assert(outline(OperationKind::Hadamard.name()) == (8nat, 'a', 'd'));
    assert(outline(OperationKind::PauliX.name()) == (6nat, 'a', 'X'));
    assert(outline(OperationKind::TGate.name()) == (5nat, 'G', 'e'));
    assert(outline(OperationKind::RotateX.name()) == (7nat, 'o', 'X'));
    assert(outline(OperationKind::RotateZ.name()) == (7nat, 'o', 'Z'));
    assert(outline(OperationKind::PhaseShiftState1.name()) == (16nat, 'h', '1'));
    assert(outline(OperationKind::CNOT.name()) == (4nat, 'N', 'T'));
    assert(outline(OperationKind::SWAP.name()) == (4nat, 'W', 'P'));
    assert(outline(OperationKind::ControlledPhaseShift.name()) == (20nat, 'o', 't'));
    assert(outline(OperationKind::MultiQubitMS.name()) == (12nat, 'u', 'S'));
    assert(outline(OperationKind::MultiQubitZZ.name()) == (12nat, 'u', 'Z'));
    assert(outline(OperationKind::MultiQubitCNOT.name()) == (14nat, 'u', 'T'));
    assert(outline(OperationKind::QFT.name()) == (3nat, 'F', 'T'));
    assert(outline(OperationKind::CallDefinedGate.name()) == (15nat, 'a', 'e'));
    assert(outline(OperationKind::PragmaGlobalPhase.name()) == (17nat, 'r', 'e'));
    assert(outline(OperationKind::PragmaRepeatedMeasurement.name()) == (25nat, 'r', 't'));
    assert(outline(OperationKind::DefinitionBit.name()) == (13nat, 'e', 't'));
    assert(outline(OperationKind::MeasureQubit.name()) == (12nat, 'e', 't'));
}

} // verus!
